use translib::error::JTranslateError;
use translib::key_info::{key_file_path, key_info, KeyInfo};
use translib::text::split;
use translib::translate::{
    reply_error_details, reply_error_report, translation_request, translations_from_response,
    translations_of, JsonValue,
};
use translib::TranslationEntry;

fn s(x: &str) -> String {
    x.to_string()
}

fn obj(fields: Vec<(&str, JsonValue)>) -> JsonValue {
    JsonValue::Object(fields.into_iter().map(|(k, v)| (s(k), v)).collect())
}

#[test]
fn translation_entry_fields() {
    let e = TranslationEntry::new("Bonjour", "fr");
    assert_eq!(e.text(), "Bonjour");
    assert_eq!(e.language(), "fr");
}

#[test]
fn key_info_trims() {
    let k = KeyInfo::new("  abc\n", " japaneast ", "https://x/ ");
    assert_eq!(k.key(), "abc");
    assert_eq!(k.region(), "japaneast");
    assert_eq!(k.endpoint(), "https://x/");
}

#[test]
fn key_info_from_file() {
    let k = KeyInfo::from_key_file(Some("secret\n"));
    assert_eq!(k.key(), "secret");
    assert_eq!(k.region(), "japaneast");
    assert_eq!(k.endpoint(), "https://api.cognitive.microsofttranslator.com/");
    assert!(key_info(&k).is_ok());
    let missing = KeyInfo::from_key_file(None);
    assert_eq!(missing.key(), "INVALID");
    assert!(matches!(key_info(&missing), Err(JTranslateError::InvalidKey)));
}

#[test]
fn key_file_paths() {
    assert_eq!(key_file_path(Some("~/keys/t"), Some("/home/u")), "/home/u/keys/t");
    assert_eq!(key_file_path(Some("~/keys/t"), None), "");
    assert_eq!(key_file_path(Some("/etc/key"), Some("/home/u")), "/etc/key");
    assert_eq!(key_file_path(None, Some("/home/u")), "/home/u/.jtranslator");
    assert_eq!(key_file_path(None, None), "");
}

#[test]
fn error_messages() {
    assert_eq!(JTranslateError::InvalidData.message(), "Invalid data");
    assert_eq!(JTranslateError::InvalidKey.message(), "Invalid API key");
    assert_eq!(JTranslateError::IOError.message(), "IO error");
    assert_eq!(JTranslateError::UnExpected.message(), "Unexpected error");
}

#[test]
fn language_lists() {
    assert_eq!(split("fr,de,ja", ','), vec![s("fr"), s("de"), s("ja")]);
    assert_eq!(split("fr", ','), vec![s("fr")]);
    assert_eq!(split("", ','), vec![s("")]);
    assert_eq!(split("a,,b,", ','), vec![s("a"), s(""), s("b"), s("")]);
}

#[test]
fn request_shape() {
    let k = KeyInfo::new("KEY", "japaneast", "https://api.example/");
    let r = translation_request(&k, "Hello", "en", &vec!["fr", "de"]);
    assert_eq!(r.url, "https://api.example//translate?api-version=3.0");
    assert_eq!(
        r.headers,
        vec![
            (s("Ocp-Apim-Subscription-Key"), s("KEY")),
            (s("Ocp-Apim-Subscription-Region"), s("japaneast")),
            (s("Content-Type"), s("application/json")),
        ]
    );
    assert_eq!(
        r.query,
        vec![(s("from"), s("en")), (s("to"), s("fr")), (s("to"), s("de"))]
    );
    match r.body {
        JsonValue::Array(a) => match &a[..] {
            [JsonValue::Object(o)] => match &o[..] {
                [(k, JsonValue::Str(t))] => {
                    assert_eq!(k, "text");
                    assert_eq!(t, "Hello");
                }
                _ => panic!("body member"),
            },
            _ => panic!("body array"),
        },
        _ => panic!("body"),
    }
}

fn reply(entries: Vec<JsonValue>) -> JsonValue {
    JsonValue::Array(vec![obj(vec![
        ("detectedLanguage", obj(vec![("language", JsonValue::Str(s("en")))])),
        ("translations", JsonValue::Array(entries)),
    ])])
}

#[test]
fn reply_translations() {
    let v = reply(vec![
        obj(vec![("text", JsonValue::Str(s("Bonjour"))), ("to", JsonValue::Str(s("fr")))]),
        obj(vec![("to", JsonValue::Str(s("de")))]),
        JsonValue::Null,
        obj(vec![("to", JsonValue::Str(s("ja"))), ("text", JsonValue::Str(s("Konnichiwa")))]),
    ]);
    let r = translations_of(&v).unwrap();
    assert_eq!(r.len(), 2);
    assert_eq!(r[0].text(), "Bonjour");
    assert_eq!(r[0].language(), "fr");
    assert_eq!(r[1].text(), "Konnichiwa");
    assert_eq!(r[1].language(), "ja");
    assert!(translations_from_response(&v).unwrap().is_ok());
}

#[test]
fn reply_errors() {
    let none = reply(vec![obj(vec![("to", JsonValue::Str(s("de")))])]);
    assert!(matches!(translations_of(&none), Err(JTranslateError::InvalidData)));
    let error = obj(vec![(
        "error",
        obj(vec![("code", JsonValue::Number(s("401000"))), ("message", JsonValue::Str(s("denied")))]),
    )]);
    assert!(matches!(translations_of(&error), Err(JTranslateError::InvalidData)));
    assert!(matches!(translations_of(&JsonValue::Array(vec![])), Err(JTranslateError::InvalidData)));
    let bad = reply(vec![obj(vec![("text", JsonValue::Number(s("1"))), ("to", JsonValue::Str(s("fr")))])]);
    assert!(translations_from_response(&bad).is_none());
}

#[test]
fn key_info_rebuilt_is_the_same() {
    let k = KeyInfo::new(" a b ", "\tr\n", " e ");
    let again = KeyInfo::new(k.key(), k.region(), k.endpoint());
    assert_eq!(again.key(), k.key());
    assert_eq!(again.region(), k.region());
    assert_eq!(again.endpoint(), k.endpoint());
}

#[test]
fn error_reply_details() {
    let error = obj(vec![(
        "error",
        obj(vec![("code", JsonValue::Number(s("401000"))), ("message", JsonValue::Str(s("denied")))]),
    )]);
    assert_eq!(reply_error_details(&error), Some((s("401000"), s("denied"))));
    assert_eq!(reply_error_report(&error), Some(s("code: 401000, message: denied")));
    assert!(matches!(translations_of(&error), Err(JTranslateError::InvalidData)));
    let no_message = obj(vec![("error", obj(vec![("code", JsonValue::Number(s("1")))]))]);
    assert_eq!(reply_error_details(&no_message), None);
    let text_code = obj(vec![(
        "error",
        obj(vec![("code", JsonValue::Str(s("1"))), ("message", JsonValue::Str(s("m")))]),
    )]);
    assert_eq!(reply_error_report(&text_code), None);
    assert_eq!(reply_error_report(&reply(vec![])), None);
}
