//! The exchange with the translation service: the request to send, and
//! how its reply is read.
use crate::error::JTranslateError;
use crate::key_info::{KeyInfo, KeyInfoView};
use crate::text::same_text;
use crate::{TranslationEntry, TranslationEntryView};
use vstd::prelude::*;
use vstd::string::*;

verus! {

/// A JSON value. Object members keep their order; numbers keep their
/// decimal text.
pub enum JsonValue {
    Null,
    Bool(bool),
    Number(String),
    Str(String),
    Array(Vec<JsonValue>),
    Object(Vec<(String, JsonValue)>),
}

/// The value of the first member of `fields` named `key`.
pub open spec fn json_get(fields: Seq<(String, JsonValue)>, key: Seq<char>) -> Option<JsonValue>
    decreases fields.len(),
{
    if fields.len() == 0 {
        None
    } else if fields[0].0@ == key {
        Some(fields[0].1)
    } else {
        json_get(fields.drop_first(), key)
    }
}

/// The text of a JSON string.
pub open spec fn json_str(v: JsonValue) -> Option<Seq<char>> {
    match v {
        JsonValue::Str(s) => Some(s@),
        _ => None,
    }
}

/// The `text` and `to` members of an object that has both.
pub open spec fn entry_fields(v: JsonValue) -> Option<(JsonValue, JsonValue)> {
    match v {
        JsonValue::Object(o) => match (json_get(o@, "text"@), json_get(o@, "to"@)) {
            (Some(t), Some(l)) => Some((t, l)),
            _ => None,
        },
        _ => None,
    }
}

/// An object with `text` and `to` where one of them is not a string: it
/// cannot be read as a translation.
pub open spec fn entry_unreadable(v: JsonValue) -> bool {
    entry_fields(v) matches Some((t, l)) && (json_str(t) is None || json_str(l) is None)
}

/// The translations that the objects of `ts` with `text` and `to` give, in order.
pub open spec fn entries_of(ts: Seq<JsonValue>) -> Seq<TranslationEntryView>
    decreases ts.len(),
{
    if ts.len() == 0 {
        Seq::empty()
    } else {
        let rest = entries_of(ts.drop_last());
        match entry_fields(ts.last()) {
            Some((t, l)) => rest.push(
                TranslationEntryView { text: json_str(t).unwrap(), to: json_str(l).unwrap() },
            ),
            None => rest,
        }
    }
}

/// The `translations` array of a reply: the member of that name of the last
/// element of the reply's array, when that element is an object and the
/// member an array.
pub open spec fn response_translations(v: JsonValue) -> Option<Seq<JsonValue>> {
    match v {
        JsonValue::Array(a) => if a@.len() > 0 {
            match a@.last() {
                JsonValue::Object(o) => match json_get(o@, "translations"@) {
                    Some(JsonValue::Array(ts)) => Some(ts@),
                    _ => None,
                },
                _ => None,
            }
        } else {
            None
        },
        _ => None,
    }
}

/// A reply whose translations hold one that cannot be read.
pub open spec fn response_unreadable(v: JsonValue) -> bool {
    response_translations(v) matches Some(ts) && exists|i: int|
        0 <= i < ts.len() && entry_unreadable(#[trigger] ts[i])
}

/// What a reply gives: its translations, when there are any; `InvalidData`
/// otherwise (an error reply among them).
pub open spec fn response_result(v: JsonValue) -> Result<Seq<TranslationEntryView>, JTranslateError> {
    match response_translations(v) {
        Some(ts) => if entries_of(ts).len() > 0 {
            Ok(entries_of(ts))
        } else {
            Err(JTranslateError::InvalidData)
        },
        None => Err(JTranslateError::InvalidData),
    }
}

/// What a sequence of translations holds.
pub open spec fn translations_view(v: Seq<TranslationEntry>) -> Seq<TranslationEntryView> {
    v.map_values(|e: TranslationEntry| e@)
}

/// The value of the first member of `fields` named `key`.
pub fn json_lookup<'a>(fields: &'a Vec<(String, JsonValue)>, key: &str) -> (r: Option<&'a JsonValue>)
    ensures
        match json_get(fields@, key@) {
            Some(v) => r matches Some(x) && *x == v,
            None => r is None,
        },
{
    let mut i: usize = 0;
    assert(fields@.skip(0) =~= fields@);
    while i < fields.len()
        invariant
            i <= fields.len(),
            json_get(fields@, key@) == json_get(fields@.skip(i as int), key@),
        decreases fields.len() - i,
    {
        assert(fields@.skip(i as int)[0] == fields@[i as int]);
        if same_text(fields[i].0.as_str(), key) {
            return Some(&fields[i].1);
        }
        assert(fields@.skip(i as int).drop_first() =~= fields@.skip(i + 1));
        i = i + 1;
    }
    None
}

/// Whether `v` cannot be read as a translation.
fn entry_is_unreadable(v: &JsonValue) -> (r: bool)
    ensures
        r == entry_unreadable(*v),
{
    match v {
        JsonValue::Object(o) => match (json_lookup(o, "text"), json_lookup(o, "to")) {
            (Some(t), Some(l)) => !(matches!(t, JsonValue::Str(_)) && matches!(l, JsonValue::Str(_))),
            _ => false,
        },
        _ => false,
    }
}

/// The `translations` array of a reply.
fn translations_array(v: &JsonValue) -> (r: Option<&Vec<JsonValue>>)
    ensures
        match response_translations(*v) {
            Some(ts) => r matches Some(x) && x@ == ts,
            None => r is None,
        },
{
    match v {
        JsonValue::Array(a) => {
            if a.len() > 0 {
                match &a[a.len() - 1] {
                    JsonValue::Object(o) => match json_lookup(o, "translations") {
                        Some(JsonValue::Array(ts)) => Some(ts),
                        _ => None,
                    },
                    _ => None,
                }
            } else {
                None
            }
        },
        _ => None,
    }
}

/// The translations that a reply gives, when each can be read.
pub fn translations_of(v: &JsonValue) -> (r: Result<Vec<TranslationEntry>, JTranslateError>)
    requires
        !response_unreadable(*v),
    ensures
        match response_result(*v) {
            Ok(es) => r matches Ok(x) && translations_view(x@) == es,
            Err(e) => r matches Err(x) && x == e,
        },
        r matches Ok(x) ==> x@.len() > 0,
{
    let ts = match translations_array(v) {
        Some(ts) => ts,
        None => return Err(JTranslateError::InvalidData),
    };
    let mut result: Vec<TranslationEntry> = Vec::new();
    let mut i: usize = 0;
    while i < ts.len()
        invariant
            i <= ts.len(),
            forall|k: int| 0 <= k < ts@.len() ==> !entry_unreadable(#[trigger] ts@[k]),
            translations_view(result@) == entries_of(ts@.take(i as int)),
        decreases ts.len() - i,
    {
        let ghost before = translations_view(result@);
        assert(ts@.take(i + 1).drop_last() =~= ts@.take(i as int));
        assert(ts@.take(i + 1).last() == ts@[i as int]);
        assert(!entry_unreadable(ts@[i as int]));
        match &ts[i] {
            JsonValue::Object(o) => match (json_lookup(o, "text"), json_lookup(o, "to")) {
                (Some(JsonValue::Str(t)), Some(JsonValue::Str(l))) => {
                    result.push(TranslationEntry::new(t.as_str(), l.as_str()));
                    assert(translations_view(result@) =~= before.push(result@.last()@));
                },
                _ => {},
            },
            _ => {},
        }
        i = i + 1;
    }
    assert(ts@.take(ts.len() as int) =~= ts@);
    if result.len() > 0 {
        Ok(result)
    } else {
        Err(JTranslateError::InvalidData)
    }
}

/// What a reply gives: `None` where one of its translations cannot be read,
/// its translations or the error otherwise.
pub fn translations_from_response(v: &JsonValue) -> (r: Option<
    Result<Vec<TranslationEntry>, JTranslateError>,
>)
    ensures
        response_unreadable(*v) ==> r is None,
        !response_unreadable(*v) ==> match response_result(*v) {
            Ok(es) => r matches Some(Ok(x)) && translations_view(x@) == es,
            Err(e) => r matches Some(Err(x)) && x == e,
        },
        r matches Some(Ok(x)) ==> x@.len() > 0,
{
    if let Some(ts) = translations_array(v) {
        let mut i: usize = 0;
        while i < ts.len()
            invariant
                i <= ts.len(),
                response_translations(*v) == Some(ts@),
                forall|k: int| 0 <= k < i ==> !entry_unreadable(#[trigger] ts@[k]),
            decreases ts.len() - i,
        {
            if entry_is_unreadable(&ts[i]) {
                assert(entry_unreadable(ts@[i as int]));
                return None;
            }
            i = i + 1;
        }
    }
    Some(translations_of(v))
}

/// A request to the translation service.
pub struct TranslationRequest {
    pub url: String,
    pub headers: Vec<(String, String)>,
    pub query: Vec<(String, String)>,
    pub body: JsonValue,
}

/// What a sequence of name and value pairs holds.
pub open spec fn pairs_view(v: Seq<(String, String)>) -> Seq<(Seq<char>, Seq<char>)> {
    v.map_values(|p: (String, String)| (p.0@, p.1@))
}

/// The headers of a request: the key, the region, and the type of the body.
pub open spec fn request_headers(info: KeyInfoView) -> Seq<(Seq<char>, Seq<char>)> {
    seq![
        ("Ocp-Apim-Subscription-Key"@, info.key),
        ("Ocp-Apim-Subscription-Region"@, info.region),
        ("Content-Type"@, "application/json"@),
    ]
}

/// The query of a request: the source language, then each target language.
pub open spec fn request_query(from: Seq<char>, to: Seq<Seq<char>>) -> Seq<(Seq<char>, Seq<char>)> {
    seq![("from"@, from)] + to.map_values(|t: Seq<char>| ("to"@, t))
}

/// The body of a request: `[{"text": text}]`.
pub open spec fn is_request_body(b: JsonValue, text: Seq<char>) -> bool {
    match b {
        JsonValue::Array(a) => a@.len() == 1 && match a@[0] {
            JsonValue::Object(o) => o@.len() == 1 && o@[0].0@ == "text"@ && json_str(o@[0].1)
                == Some(text),
            _ => false,
        },
        _ => false,
    }
}

/// The request that asks for `text`, in language `from`, in each language of `to`.
pub fn translation_request(info: &KeyInfo, text: &str, from: &str, to: &Vec<&str>) -> (r:
    TranslationRequest)
    ensures
        r.url@ == info@.endpoint + "/translate?api-version=3.0"@,
        pairs_view(r.headers@) == request_headers(info@),
        pairs_view(r.query@) == request_query(from@, to@.map_values(|t: &str| t@)),
        r.query@.len() == to@.len() + 1,
        pairs_view(r.query@)[0] == ("from"@, from@),
        forall|i: int|
            0 <= i < to@.len() ==> #[trigger] pairs_view(r.query@)[i + 1] == ("to"@, to@[i]@),
        is_request_body(r.body, text@),
{
    let mut url = String::new();
    url.append(info.endpoint());
    url.append("/translate?api-version=3.0");

    let mut headers: Vec<(String, String)> = Vec::new();
    headers.push(("Ocp-Apim-Subscription-Key".to_owned(), info.key().to_owned()));
    headers.push(("Ocp-Apim-Subscription-Region".to_owned(), info.region().to_owned()));
    headers.push(("Content-Type".to_owned(), "application/json".to_owned()));
    assert(pairs_view(headers@) =~= request_headers(info@));

    let mut query: Vec<(String, String)> = Vec::new();
    query.push(("from".to_owned(), from.to_owned()));
    let mut i: usize = 0;
    while i < to.len()
        invariant
            i <= to.len(),
            pairs_view(query@) == request_query(from@, to@.take(i as int).map_values(|t: &str| t@)),
        decreases to.len() - i,
    {
        let ghost old_query = query@;
        query.push(("to".to_owned(), to[i].to_owned()));
        proof {
            let f = |t: &str| t@;
            let before = to@.take(i as int).map_values(f);
            let after = to@.take(i + 1).map_values(f);
            assert(after =~= before.push(to@[i as int]@));
            let g = |t: Seq<char>| ("to"@, t);
            assert(after.map_values(g) =~= before.map_values(g).push(("to"@, to@[i as int]@)));
            assert(pairs_view(query@) =~= pairs_view(old_query).push(("to"@, to@[i as int]@)));
        }
        i = i + 1;
    }
    assert(to@.take(to.len() as int) =~= to@);
    proof {
        let m = to@.map_values(|t: &str| t@);
        lemma_request_query(from@, m);
        assert(pairs_view(query@).len() == query@.len());
        assert forall|i: int| 0 <= i < to@.len() implies #[trigger] pairs_view(query@)[i + 1] == (
        "to"@, to@[i]@) by {
            assert(request_query(from@, m)[i + 1] == ("to"@, m[i]));
        }
    }

    let mut member: Vec<(String, JsonValue)> = Vec::new();
    member.push(("text".to_owned(), JsonValue::Str(text.to_owned())));
    let mut body: Vec<JsonValue> = Vec::new();
    body.push(JsonValue::Object(member));
    TranslationRequest { url, headers, query, body: JsonValue::Array(body) }
}

/// The code and message of an error reply: an object whose `error` member is
/// an object with a number `code` and a string `message`.
pub open spec fn reply_error(v: JsonValue) -> Option<(Seq<char>, Seq<char>)> {
    match v {
        JsonValue::Object(o) => match json_get(o@, "error"@) {
            Some(JsonValue::Object(e)) => match (json_get(e@, "code"@), json_get(e@, "message"@)) {
                (Some(JsonValue::Number(c)), Some(JsonValue::Str(m))) => Some((c@, m@)),
                _ => None,
            },
            _ => None,
        },
        _ => None,
    }
}

/// The code and message of an error reply (its `InvalidData` error is
/// reported with them).
pub fn reply_error_details(v: &JsonValue) -> (r: Option<(String, String)>)
    ensures
        match reply_error(*v) {
            Some((c, m)) => r matches Some((x, y)) && x@ == c && y@ == m,
            None => r is None,
        },
{
    match v {
        JsonValue::Object(o) => match json_lookup(o, "error") {
            Some(JsonValue::Object(e)) => match (json_lookup(e, "code"), json_lookup(e, "message")) {
                (Some(JsonValue::Number(c)), Some(JsonValue::Str(m))) => Some(
                    (c.as_str().to_owned(), m.as_str().to_owned()),
                ),
                _ => None,
            },
            _ => None,
        },
        _ => None,
    }
}

/// The text that reports an error reply: `code: <code>, message: <message>`.
pub fn reply_error_report(v: &JsonValue) -> (r: Option<String>)
    ensures
        match reply_error(*v) {
            Some((c, m)) => r matches Some(x) && x@ == "code: "@ + c + ", message: "@ + m,
            None => r is None,
        },
{
    match reply_error_details(v) {
        Some((c, m)) => {
            let mut report = String::new();
            report.append("code: ");
            report.append(c.as_str());
            report.append(", message: ");
            report.append(m.as_str());
            Some(report)
        },
        None => None,
    }
}

/// An error reply gives no translations: reading it fails with `InvalidData`.
pub proof fn lemma_error_reply_is_invalid_data(v: JsonValue)
    requires
        reply_error(v) is Some,
    ensures
        !response_unreadable(v),
        response_result(v) == Err::<Seq<TranslationEntryView>, JTranslateError>(
            JTranslateError::InvalidData,
        ),
{
}

/// The query asks for each requested language once, in the order given,
/// after the source language: one pair more than there are languages.
pub proof fn lemma_request_query(from: Seq<char>, to: Seq<Seq<char>>)
    ensures
        request_query(from, to).len() == to.len() + 1,
        request_query(from, to)[0] == ("from"@, from),
        forall|i: int| 0 <= i < to.len() ==> #[trigger] request_query(from, to)[i + 1] == ("to"@, to[i]),
{
    assert forall|i: int| 0 <= i < to.len() implies #[trigger] request_query(from, to)[i + 1] == (
    "to"@, to[i]) by {
        assert(request_query(from, to)[i + 1] == to.map_values(|t: Seq<char>| ("to"@, t))[i]);
    }
}

} // verus!
