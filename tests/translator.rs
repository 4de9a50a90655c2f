use podiff_review::t6tor::{
    ms_get_token, ms_translator, yn_translator, HttpMethod, MsAuthToken, NoTranslator, TranslationError,
    TranslationStep, Translator, YnTranslationReply,
};

fn token() -> MsAuthToken {
    MsAuthToken {
        token_type: "bearer".to_string(),
        access_token: "tok".to_string(),
        expires_in: 600,
        scope: "s".to_string(),
    }
}

fn fetch(step: TranslationStep) -> podiff_review::t6tor::HttpRequest {
    match step {
        TranslationStep::Fetch(r) => r,
        TranslationStep::Done(s) => panic!("expected a request, got {}", s),
    }
}

#[test]
fn empty_text_needs_no_request() {
    let ms = ms_translator(token(), "en".to_string());
    let yn = yn_translator("key".to_string(), "en".to_string());
    assert!(matches!(ms.translate("", Some("de".to_string())), TranslationStep::Done(ref s) if s.is_empty()));
    assert!(matches!(yn.translate_s(""), TranslationStep::Done(ref s) if s.is_empty()));
}

#[test]
fn ms_request() {
    let ms = ms_translator(token(), "en".to_string());
    let r = fetch(ms.translate("guten Tag", Some("de".to_string())));
    assert_eq!(r.method, HttpMethod::Get);
    assert_eq!(r.url, "http://api.microsofttranslator.com/V2/Http.svc/Translate?from=de&to=en&text=guten+Tag");
    assert_eq!(r.authorization, Some("Bearer tok".to_string()));
    assert!(r.body.is_none());
    let r = fetch(ms.translate_s("a&b"));
    assert_eq!(r.url, "http://api.microsofttranslator.com/V2/Http.svc/Translate?to=en&text=a%26b");
}

#[test]
fn ms_reply_envelope() {
    let ms = ms_translator(token(), "en".to_string());
    let prefix = "<string xmlns=\"http://schemas.microsoft.com/2003/10/Serialization/\">";
    assert_eq!(prefix.len(), 68);
    let body = format!("{}Good day</string>", prefix);
    assert_eq!(ms.read_reply(&body), Ok("Good day".to_string()));
    assert_eq!(ms.read_reply("<string/>"), Err(TranslationError::MalformedReply));
}

#[test]
fn ms_token_request() {
    let r = ms_get_token("id", "pw");
    assert_eq!(r.method, HttpMethod::Post);
    assert_eq!(r.url, "https://datamarket.accesscontrol.windows.net/v2/OAuth2-13");
    assert_eq!(
        r.body,
        Some("client_id=id&client_secret=pw&scope=http%3A%2F%2Fapi.microsofttranslator.com&grant_type=client_credentials".to_string())
    );
}

#[test]
fn yn_request_and_reply() {
    let yn = yn_translator("key".to_string(), "en".to_string());
    let r = fetch(yn.translate("hallo", Some("de".to_string())));
    assert_eq!(r.url, "https://translate.yandex.net/api/v1.5/tr.json/translate?lang=de-en&key=key&text=hallo");
    assert!(r.authorization.is_none());
    let r = fetch(yn.translate_s("hallo"));
    assert_eq!(r.url, "https://translate.yandex.net/api/v1.5/tr.json/translate?lang=en&key=key&text=hallo");
    let reply = YnTranslationReply { code: 200, lang: "de-en".to_string(), text: vec!["hello".to_string()] };
    assert_eq!(yn.read_reply(&reply), Ok("hello".to_string()));
    let empty = YnTranslationReply { code: 200, lang: "de-en".to_string(), text: vec![] };
    assert_eq!(yn.read_reply(&empty), Err(TranslationError::EmptyReply));
}

#[test]
fn attributions() {
    assert_eq!(
        ms_translator(token(), "en".to_string()).attribution_info(),
        Some("Translated by Microsoft. http://aka.ms/MicrosoftTranslatorAttribution".to_string())
    );
    assert_eq!(
        yn_translator("k".to_string(), "en".to_string()).attribution_info(),
        Some("Powered by Yandex.Translate. http://translate.yandex.com/".to_string())
    );
    assert_eq!(NoTranslator.attribution_info(), None);
    assert!(matches!(NoTranslator.translate("x", None), TranslationStep::Done(ref s) if s == "x"));
}
