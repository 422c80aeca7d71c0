//! The key, region and endpoint of the translation service.
use crate::error::JTranslateError;
use crate::text::{chars_of, lemma_trim_idempotent, same_text, string_of, trim, trimmed_string};
use vstd::prelude::*;
use vstd::string::*;

verus! {

/// The key, region and endpoint of the translation service.
pub struct KeyInfo {
    key: String,
    region: String,
    endpoint: String,
}

/// What a `KeyInfo` holds.
pub struct KeyInfoView {
    pub key: Seq<char>,
    pub region: Seq<char>,
    pub endpoint: Seq<char>,
}

impl View for KeyInfo {
    type V = KeyInfoView;

    closed spec fn view(&self) -> KeyInfoView {
        KeyInfoView { key: self.key@, region: self.region@, endpoint: self.endpoint@ }
    }
}

/// A new string holding `s` without leading and trailing white space.
fn trimmed(s: &str) -> (r: String)
    ensures
        r@ == trim(s@),
{
    let v = chars_of(s);
    let r = trimmed_string(&v, 0, v.len());
    assert(v@.subrange(0, v.len() as int) =~= v@);
    r
}

impl KeyInfo {
    /// The three values, each without leading and trailing white space.
    pub fn new(key: &str, region: &str, endpoint: &str) -> (r: Self)
        ensures
            r@ == (KeyInfoView { key: trim(key@), region: trim(region@), endpoint: trim(endpoint@) }),
    {
        KeyInfo { key: trimmed(key), region: trimmed(region), endpoint: trimmed(endpoint) }
    }

    pub fn key(&self) -> (r: &str)
        ensures
            r@ == self@.key,
    {
        self.key.as_str()
    }

    pub fn region(&self) -> (r: &str)
        ensures
            r@ == self@.region,
    {
        self.region.as_str()
    }

    pub fn endpoint(&self) -> (r: &str)
        ensures
            r@ == self@.endpoint,
    {
        self.endpoint.as_str()
    }

    /// The service's values for a key read from the key file, or for a key
    /// that is known to be missing (`INVALID`) when the file could not be read.
    pub fn from_key_file(contents: Option<&str>) -> (r: Self)
        ensures
            r@ == (KeyInfoView {
                key: trim(
                    match contents {
                        Some(c) => c@,
                        None => "INVALID"@,
                    },
                ),
                region: trim("japaneast"@),
                endpoint: trim("https://api.cognitive.microsofttranslator.com/"@),
            }),
    {
        let key = match contents {
            Some(c) => c,
            None => "INVALID",
        };
        KeyInfo::new(key, "japaneast", "https://api.cognitive.microsofttranslator.com/")
    }
}

/// Where the key file is: the file that `key_file_var` names, with a leading
/// `~/` taken as the home directory; or `.jtranslator` in the home
/// directory when no file is named. Empty when the home directory is needed
/// and unknown.
pub open spec fn spec_key_file_path(key_file_var: Option<Seq<char>>, home: Option<Seq<char>>) -> Seq<
    char,
> {
    match key_file_var {
        Some(k) => if k.len() >= 2 && k[0] == '~' && k[1] == '/' {
            match home {
                Some(h) => h + seq!['/'] + k.skip(2),
                None => Seq::empty(),
            }
        } else {
            k
        },
        None => match home {
            Some(h) => h + "/.jtranslator"@,
            None => Seq::empty(),
        },
    }
}

/// The path of the key file, from the value of `JTRANSLATE_KEY_FILE` and
/// of `HOME` (each when it is set).
pub fn key_file_path(key_file_var: Option<&str>, home: Option<&str>) -> (r: String)
    ensures
        r@ == spec_key_file_path(
            match key_file_var {
                Some(k) => Some(k@),
                None => None,
            },
            match home {
                Some(h) => Some(h@),
                None => None,
            },
        ),
{
    let mut path = String::new();
    match key_file_var {
        Some(k) => {
            let v = chars_of(k);
            if v.len() >= 2 && v[0] == '~' && v[1] == '/' {
                if let Some(h) = home {
                    path.append(h);
                    crate::text::push_char(&mut path, '/');
                    let rest = string_of(&v, 2, v.len());
                    path.append(rest.as_str());
                    assert(v@.subrange(2, v.len() as int) =~= k@.skip(2));
                }
            } else {
                path.append(k);
            }
        },
        None => {
            if let Some(h) = home {
                path.append(h);
                path.append("/.jtranslator");
            }
        },
    }
    path
}

/// The key information when it holds a usable key: the key read is not the
/// `INVALID` that stands for a missing key file.
pub fn key_info(info: &KeyInfo) -> (r: Result<&KeyInfo, JTranslateError>)
    ensures
        info@.key == "INVALID"@ ==> r == Err::<&KeyInfo, JTranslateError>(JTranslateError::InvalidKey),
        info@.key != "INVALID"@ ==> r == Ok::<&KeyInfo, JTranslateError>(info),
{
    if same_text(info.key(), "INVALID") {
        Err(JTranslateError::InvalidKey)
    } else {
        Ok(info)
    }
}

/// The values that a `KeyInfo` holds have no white space around them:
/// building one from the values of another gives the same values.
pub proof fn lemma_key_info_values_trimmed(key: Seq<char>, region: Seq<char>, endpoint: Seq<char>)
    ensures
        ({
            let v = KeyInfoView { key: trim(key), region: trim(region), endpoint: trim(endpoint) };
            (KeyInfoView { key: trim(v.key), region: trim(v.region), endpoint: trim(v.endpoint) })
                == v
        }),
{
    lemma_trim_idempotent(key);
    lemma_trim_idempotent(region);
    lemma_trim_idempotent(endpoint);
}

/// The key file is the one `JTRANSLATE_KEY_FILE` names, exactly as named,
/// unless the name starts with `~/`, whatever the home directory is; a
/// leading `~/` stands for the home directory (and without one the path is
/// empty); with no name, the file is `.jtranslator` in the home directory.
pub proof fn lemma_key_file_path(k: Seq<char>, home: Option<Seq<char>>)
    ensures
        !(k.len() >= 2 && k[0] == '~' && k[1] == '/') ==> spec_key_file_path(Some(k), home) == k,
        k.len() >= 2 && k[0] == '~' && k[1] == '/' ==> match home {
            Some(h) => spec_key_file_path(Some(k), home) == h + seq!['/'] + k.skip(2),
            None => spec_key_file_path(Some(k), home).len() == 0,
        },
        match home {
            Some(h) => spec_key_file_path(None, home) == h + "/.jtranslator"@,
            None => spec_key_file_path(None, home).len() == 0,
        },
{
}

} // verus!
