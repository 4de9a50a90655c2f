//! Review of message-catalog (PO) changes, commit by commit.
//!
//! The library parses catalog documents into ordered snapshots, works out
//! which entries a revision changed, turns them into review subjects with a
//! stable identity, and runs the review as a state machine over a store of
//! earlier decisions. Translation services are described by the requests
//! they need and the replies they give; the caller performs the transport.
pub mod text;
pub mod catalog;
pub mod po;
pub mod store;
pub mod subject;
pub mod review;
pub mod builder;
pub mod t6tor;
