//! Translation services. A translator says which HTTP request a translation
//! needs, or gives the result at once where no request is needed; the
//! caller sends the request and hands the reply back to be read.
use vstd::prelude::*;
use crate::text::{chars_of, string_of, join};

verus! {

/// What `url::form_urlencoded` makes of a list of (name, value) pairs.
pub uninterp spec fn form_encoded(pairs: Seq<(Seq<char>, Seq<char>)>) -> Seq<char>;

/// The view of a list of string pairs.
pub open spec fn pairs_view(pairs: Seq<(String, String)>) -> Seq<(Seq<char>, Seq<char>)> {
    pairs.map_values(|p: (String, String)| (p.0@, p.1@))
}

/// Relies on `url::form_urlencoded::Serializer`: the pairs serialised as
/// `application/x-www-form-urlencoded`, which depends on the pairs alone.
#[verifier::external_body]
fn form_encode(pairs: &Vec<(String, String)>) -> (r: String)
    ensures
        r@ == form_encoded(pairs_view(pairs@)),
{
    url::form_urlencoded::Serializer::new(String::new()).extend_pairs(pairs.iter()).finish()
}

/// `base?query`, the query made of the encoded pairs.
pub open spec fn url_with_query(base: Seq<char>, pairs: Seq<(Seq<char>, Seq<char>)>) -> Seq<char> {
    base + seq!['?'] + form_encoded(pairs)
}

/// Builds `base?query` from (name, value) pairs.
fn query_url(base: &str, pairs: &Vec<(String, String)>) -> (r: String)
    ensures
        r@ == url_with_query(base@, pairs_view(pairs@)),
{
    let query = form_encode(pairs);
    let with_mark = join(base, "?");
    proof {
        reveal_strlit("?");
    }
    assert("?"@ =~= seq!['?']);
    join(with_mark.as_str(), query.as_str())
}

/// The HTTP method of a request.
#[derive(PartialEq, Eq, Structural, Clone, Copy, Debug)]
pub enum HttpMethod {
    Get,
    Post,
}

/// An HTTP request for a translation service.
pub struct HttpRequest {
    pub method: HttpMethod,
    pub url: String,
    /// The value of the Authorization header, if one is sent.
    pub authorization: Option<String>,
    /// The form-encoded body of a POST.
    pub body: Option<String>,
}

/// The next move of a translation: its result, or the request that yields it.
pub enum TranslationStep {
    Done(String),
    Fetch(HttpRequest),
}

/// A reply that holds no translation.
#[derive(PartialEq, Eq, Structural, Clone, Copy, Debug)]
pub enum TranslationError {
    /// The reply is too short to hold the expected XML envelope.
    MalformedReply,
    /// The reply lists no translated text.
    EmptyReply,
}

/// A translation service.
pub trait Translator {
    /// Starts the translation of `text`, from `lang_from` when it is known.
    /// An empty text is translated to an empty text without a request.
    fn translate(&self, text: &str, lang_from: Option<String>) -> (r: TranslationStep)
        ensures
            text@.len() == 0 ==> (r is Done && r->Done_0@.len() == 0);

    /// Starts the translation of `text` from an unknown language.
    fn translate_s(&self, text: &str) -> (r: TranslationStep)
        ensures
            text@.len() == 0 ==> (r is Done && r->Done_0@.len() == 0),
    {
        self.translate(text, None)
    }

    /// The attribution the service asks to be shown, if any.
    fn attribution_info(&self) -> Option<String>;
}

/// Leaves every text as it is.
pub struct NoTranslator;

impl Translator for NoTranslator {
    fn translate(&self, text: &str, lang_from: Option<String>) -> (r: TranslationStep)
        ensures
            r is Done && r->Done_0@ == text@,
    {
        TranslationStep::Done(string_of(&chars_of(text)))
    }

    fn attribution_info(&self) -> (r: Option<String>)
        ensures
            r is None,
    {
        None
    }
}

/********************************************************************
* Microsoft API
*********************************************************************/

/// The access token of the Microsoft service.
pub struct MsAuthToken {
    pub token_type: String,
    pub access_token: String,
    pub expires_in: u64,
    pub scope: String,
}

/// Translation through the Microsoft service.
pub struct MsTranslator {
    pub token: MsAuthToken,
    pub lang_to: String,
}

/// Where Microsoft translations are requested.
pub open spec fn ms_translate_base() -> Seq<char> {
    "http://api.microsofttranslator.com/V2/Http.svc/Translate"@
}

/// The query of a Microsoft translation: the source language when known,
/// the target language and the text.
pub open spec fn ms_query(lang_from: Option<Seq<char>>, lang_to: Seq<char>, text: Seq<char>) -> Seq<(Seq<char>, Seq<char>)> {
    match lang_from {
        Some(f) => seq![("from"@, f), ("to"@, lang_to), ("text"@, text)],
        None => seq![("to"@, lang_to), ("text"@, text)],
    }
}

/// The view of an optional string.
pub open spec fn opt_view(o: Option<String>) -> Option<Seq<char>> {
    match o {
        Some(s) => Some(s@),
        None => None,
    }
}

/// Characters of the XML envelope before the translated text in a reply.
pub const XML_PREFIX_LEN: usize = 68;

/// Characters of the XML envelope after the translated text in a reply.
pub const XML_SUFFIX_LEN: usize = 9;

/// The text inside a Microsoft reply: the reply without its envelope, or
/// `None` when it is too short to hold one.
pub open spec fn ms_reply_text(body: Seq<char>) -> Option<Seq<char>> {
    if body.len() < XML_PREFIX_LEN + XML_SUFFIX_LEN {
        None
    } else {
        Some(body.subrange(XML_PREFIX_LEN as int, body.len() - XML_SUFFIX_LEN))
    }
}

/// A (name, value) pair of owned strings.
fn pair(name: &str, value: &str) -> (r: (String, String))
    ensures
        r.0@ == name@,
        r.1@ == value@,
{
    (string_of(&chars_of(name)), string_of(&chars_of(value)))
}

/// Builds the request for a Microsoft translation.
fn ms_translate(text: &str, translate_to: &str, lang_from: Option<String>, at: &MsAuthToken) -> (r: TranslationStep)
    ensures
        text@.len() == 0 ==> (r is Done && r->Done_0@.len() == 0),
        text@.len() > 0 ==> (r is Fetch && ({
            let q = r->Fetch_0;
            &&& q.method == HttpMethod::Get
            &&& q.url@ == url_with_query(ms_translate_base(), ms_query(opt_view(lang_from), translate_to@, text@))
            &&& q.authorization == Some(q.authorization->Some_0)
            &&& q.authorization->Some_0@ == "Bearer "@ + at.access_token@
            &&& q.body is None
        })),
{
    if text.is_empty() {
        return TranslationStep::Done(String::new());
    }
    let mut pairs: Vec<(String, String)> = Vec::new();
    let ghost from = opt_view(lang_from);
    match lang_from {
        Some(langc) => {
            pairs.push(pair("from", langc.as_str()));
        },
        None => {},
    }
    pairs.push(pair("to", translate_to));
    pairs.push(pair("text", text));
    assert(pairs_view(pairs@) =~= ms_query(from, translate_to@, text@));
    let url = query_url("http://api.microsofttranslator.com/V2/Http.svc/Translate", &pairs);
    let auth = join("Bearer ", at.access_token.as_str());
    TranslationStep::Fetch(HttpRequest { method: HttpMethod::Get, url, authorization: Some(auth), body: None })
}

impl MsTranslator {
    /// Reads the reply to a translation request: the text inside its XML
    /// envelope.
    pub fn read_reply(&self, body: &str) -> (r: Result<String, TranslationError>)
        ensures
            match r {
                Ok(t) => ms_reply_text(body@) == Some(t@),
                Err(e) => ms_reply_text(body@) is None && e == TranslationError::MalformedReply,
            },
    {
        let cs = chars_of(body);
        if cs.len() < XML_PREFIX_LEN + XML_SUFFIX_LEN {
            return Err(TranslationError::MalformedReply);
        }
        let end = cs.len() - XML_SUFFIX_LEN;
        let mut inner: Vec<char> = Vec::new();
        let mut i: usize = XML_PREFIX_LEN;
        while i < end
            invariant
                XML_PREFIX_LEN <= i <= end <= cs.len(),
                inner@ == cs@.subrange(XML_PREFIX_LEN as int, i as int),
            decreases end - i,
        {
            inner.push(cs[i]);
            assert(cs@.subrange(XML_PREFIX_LEN as int, i + 1)
                =~= cs@.subrange(XML_PREFIX_LEN as int, i as int).push(cs@[i as int]));
            i = i + 1;
        }
        Ok(string_of(&inner))
    }
}

impl Translator for MsTranslator {
    fn translate(&self, text: &str, lang_from: Option<String>) -> (r: TranslationStep)
        ensures
            text@.len() > 0 ==> (r is Fetch && ({
                let q = r->Fetch_0;
                &&& q.method == HttpMethod::Get
                &&& q.url@ == url_with_query(ms_translate_base(), ms_query(opt_view(lang_from), self.lang_to@, text@))
                &&& q.authorization == Some(q.authorization->Some_0)
                &&& q.authorization->Some_0@ == "Bearer "@ + self.token.access_token@
                &&& q.body is None
            })),
    {
        ms_translate(text, self.lang_to.as_str(), lang_from, &self.token)
    }

    fn attribution_info(&self) -> (r: Option<String>)
        ensures
            r is Some && r->Some_0@ == "Translated by Microsoft. http://aka.ms/MicrosoftTranslatorAttribution"@,
    {
        proof {
            broadcast use vstd::string::group_string_axioms;
        }
        Some("Translated by Microsoft. http://aka.ms/MicrosoftTranslatorAttribution".to_string())
    }
}

/// A Microsoft translator that translates into `lang_to` with `token`.
pub fn ms_translator(token: MsAuthToken, lang_to: String) -> (r: MsTranslator)
    ensures
        r.token == token,
        r.lang_to == lang_to,
{
    MsTranslator { token, lang_to }
}

/// Where the Microsoft access token is requested.
pub open spec fn ms_token_url() -> Seq<char> {
    "https://datamarket.accesscontrol.windows.net/v2/OAuth2-13"@
}

/// The form of a token request.
pub open spec fn ms_token_form(client_id: Seq<char>, client_secret: Seq<char>) -> Seq<(Seq<char>, Seq<char>)> {
    seq![
        ("client_id"@, client_id),
        ("client_secret"@, client_secret),
        ("scope"@, "http://api.microsofttranslator.com"@),
        ("grant_type"@, "client_credentials"@),
    ]
}

/// The request for a Microsoft access token: a POST of the client's
/// credentials.
pub fn ms_get_token(client_id: &str, client_secret: &str) -> (r: HttpRequest)
    ensures
        r.method == HttpMethod::Post,
        r.url@ == ms_token_url(),
        r.authorization is None,
        r.body == Some(r.body->Some_0),
        r.body->Some_0@ == form_encoded(ms_token_form(client_id@, client_secret@)),
{
    proof {
        broadcast use vstd::string::group_string_axioms;
    }
    let mut params: Vec<(String, String)> = Vec::new();
    params.push(pair("client_id", client_id));
    params.push(pair("client_secret", client_secret));
    params.push(pair("scope", "http://api.microsofttranslator.com"));
    params.push(pair("grant_type", "client_credentials"));
    assert(pairs_view(params@) =~= ms_token_form(client_id@, client_secret@));
    let body = form_encode(&params);
    HttpRequest {
        method: HttpMethod::Post,
        url: "https://datamarket.accesscontrol.windows.net/v2/OAuth2-13".to_string(),
        authorization: None,
        body: Some(body),
    }
}

/********************************************************************
* Yandex API
*********************************************************************/

/// Translation through the Yandex service.
pub struct YnTranslator {
    pub api_key: String,
    pub lang_to: String,
}

/// A Yandex reply, as the service's JSON gives it.
pub struct YnTranslationReply {
    pub code: u8,
    pub lang: String,
    pub text: Vec<String>,
}

/// Where Yandex translations are requested.
pub open spec fn yn_translate_base() -> Seq<char> {
    "https://translate.yandex.net/api/v1.5/tr.json/translate"@
}

/// The translation direction: "from-to", or the target alone.
pub open spec fn yn_direction(lang_from: Option<Seq<char>>, lang_to: Seq<char>) -> Seq<char> {
    match lang_from {
        Some(f) => f + seq!['-'] + lang_to,
        None => lang_to,
    }
}

/// The query of a Yandex translation.
pub open spec fn yn_query(lang_from: Option<Seq<char>>, lang_to: Seq<char>, api_key: Seq<char>, text: Seq<char>)
    -> Seq<(Seq<char>, Seq<char>)> {
    seq![("lang"@, yn_direction(lang_from, lang_to)), ("key"@, api_key), ("text"@, text)]
}

/// Builds the request for a Yandex translation.
fn yn_translate(text: &str, translate_to: &str, lang_from: Option<String>, api_key: &str) -> (r: TranslationStep)
    ensures
        text@.len() == 0 ==> (r is Done && r->Done_0@.len() == 0),
        text@.len() > 0 ==> (r is Fetch && ({
            let q = r->Fetch_0;
            &&& q.method == HttpMethod::Get
            &&& q.url@ == url_with_query(yn_translate_base(), yn_query(opt_view(lang_from), translate_to@, api_key@, text@))
            &&& q.authorization is None
            &&& q.body is None
        })),
{
    if text.is_empty() {
        return TranslationStep::Done(String::new());
    }
    let ghost from = opt_view(lang_from);
    let direction = match lang_from {
        Some(langc) => {
            let with_dash = join(langc.as_str(), "-");
            proof {
                reveal_strlit("-");
            }
            assert("-"@ =~= seq!['-']);
            join(with_dash.as_str(), translate_to)
        },
        None => string_of(&chars_of(translate_to)),
    };
    let mut pairs: Vec<(String, String)> = Vec::new();
    pairs.push(pair("lang", direction.as_str()));
    pairs.push(pair("key", api_key));
    pairs.push(pair("text", text));
    assert(pairs_view(pairs@) =~= yn_query(from, translate_to@, api_key@, text@));
    let url = query_url("https://translate.yandex.net/api/v1.5/tr.json/translate", &pairs);
    TranslationStep::Fetch(HttpRequest { method: HttpMethod::Get, url, authorization: None, body: None })
}

impl YnTranslator {
    /// Reads a decoded reply: its first text.
    pub fn read_reply(&self, reply: &YnTranslationReply) -> (r: Result<String, TranslationError>)
        ensures
            match r {
                Ok(t) => reply.text@.len() > 0 && t@ == reply.text@[0]@,
                Err(e) => reply.text@.len() == 0 && e == TranslationError::EmptyReply,
            },
    {
        if reply.text.len() == 0 {
            return Err(TranslationError::EmptyReply);
        }
        Ok(string_of(&chars_of(reply.text[0].as_str())))
    }
}

impl Translator for YnTranslator {
    fn translate(&self, text: &str, lang_from: Option<String>) -> (r: TranslationStep)
        ensures
            text@.len() > 0 ==> (r is Fetch && ({
                let q = r->Fetch_0;
                &&& q.method == HttpMethod::Get
                &&& q.url@ == url_with_query(yn_translate_base(), yn_query(opt_view(lang_from), self.lang_to@, self.api_key@, text@))
                &&& q.authorization is None
                &&& q.body is None
            })),
    {
        yn_translate(text, self.lang_to.as_str(), lang_from, self.api_key.as_str())
    }

    fn attribution_info(&self) -> (r: Option<String>)
        ensures
            r is Some && r->Some_0@ == "Powered by Yandex.Translate. http://translate.yandex.com/"@,
    {
        proof {
            broadcast use vstd::string::group_string_axioms;
        }
        Some("Powered by Yandex.Translate. http://translate.yandex.com/".to_string())
    }
}

/// A Yandex translator that translates into `lang_to` with `api_key`.
pub fn yn_translator(api_key: String, lang_to: String) -> (r: YnTranslator)
    ensures
        r.api_key == api_key,
        r.lang_to == lang_to,
{
    YnTranslator { api_key, lang_to }
}

} // verus!
