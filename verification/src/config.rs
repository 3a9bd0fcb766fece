//! Settings file at `%APPDATA%\togglite\config.json`.
//!
//! The API token is stored encrypted with Windows DPAPI (bound to the current user
//! account), base64-encoded in `api_token_dpapi`. A legacy plaintext `api_token`
//! field is still read and migrated to the encrypted form on the next save; a token is
//! never written in clear, so a save without DPAPI writes nothing.
//!
//! `language` is an optional tag (`en`, `ja`); when absent the UI follows the
//! Windows display language. `workspace_id` caches the account's default workspace.
//!
//! Reading and writing the file and the DPAPI calls belong to the application; this
//! module decides what is stored and what is loaded.
use vstd::prelude::*;
use vstd::utf8::{decode_utf8, encode_utf8, valid_utf8};
use crate::text::{trim, trim_spec};
use crate::util::{base64, base64_decode, base64_decode_spec, base64_spec, lemma_base64_roundtrip};

verus! {

pub struct Config {
    pub api_token: String,
    pub popup_x: Option<i32>,
    pub popup_y: Option<i32>,
    pub language: Option<String>,
    /// True when the token was read from the legacy plaintext field.
    pub legacy_plaintext: bool,
    /// The default workspace of the account, once known.
    pub workspace_id: Option<i64>,
}

/// The record as it is written to the file; empty fields are left out of it.
pub struct Stored {
    pub api_token: String,
    pub api_token_dpapi: Option<String>,
    pub popup_x: Option<i32>,
    pub popup_y: Option<i32>,
    pub language: Option<String>,
    pub workspace_id: Option<i64>,
}

impl Default for Config {
    fn default() -> (c: Config)
        ensures
            c.api_token@.len() == 0,
            c.popup_x is None,
            c.popup_y is None,
            c.language is None,
            !c.legacy_plaintext,
            c.workspace_id is None,
    {
        Config {
            api_token: String::new(),
            popup_x: None,
            popup_y: None,
            language: None,
            legacy_plaintext: false,
            workspace_id: None,
        }
    }
}

impl Default for Stored {
    fn default() -> (s: Stored)
        ensures
            s.api_token@.len() == 0,
            s.api_token_dpapi is None,
            s.popup_x is None,
            s.popup_y is None,
            s.language is None,
            s.workspace_id is None,
    {
        Stored {
            api_token: String::new(),
            api_token_dpapi: None,
            popup_x: None,
            popup_y: None,
            language: None,
            workspace_id: None,
        }
    }
}

/// `String::from_utf8(bytes).ok()`: the text the bytes encode, when they are valid UTF-8.
#[verifier::external_body]
fn utf8_to_string(bytes: Vec<u8>) -> (r: Option<String>)
    ensures
        r is Some <==> valid_utf8(bytes@),
        r matches Some(s) ==> s@ == decode_utf8(bytes@),
{
    String::from_utf8(bytes).ok()
}

fn clone_opt(o: &Option<String>) -> (r: Option<String>)
    ensures
        r == *o,
{
    match o {
        Some(s) => Some(s.clone()),
        None => None,
    }
}

/// The token that DPAPI gave back, as text; empty when there was none or it is not UTF-8.
pub open spec fn token_of_plain_bytes(unprotected: Option<Seq<u8>>) -> Seq<char> {
    match unprotected {
        Some(b) => if valid_utf8(b) {
            decode_utf8(b)
        } else {
            Seq::empty()
        },
        None => Seq::empty(),
    }
}

/// A language setting is kept only when it is not blank.
pub open spec fn kept_language(l: Option<String>) -> Option<String> {
    match l {
        Some(s) => if trim_spec(s@).len() > 0 {
            Some(s)
        } else {
            None
        },
        None => None,
    }
}

/// `c` is the configuration loaded from `s`, where `unprotected` is what DPAPI
/// decrypted from the sealed token (None when there is none or it failed).
pub open spec fn loaded_from(s: Stored, unprotected: Option<Seq<u8>>, c: Config) -> bool {
    &&& match s.api_token_dpapi {
        Some(_) => c.api_token@ == token_of_plain_bytes(unprotected) && !c.legacy_plaintext,
        None => c.api_token@ == s.api_token@ && c.legacy_plaintext == (s.api_token@.len() > 0),
    }
    &&& c.popup_x == s.popup_x
    &&& c.popup_y == s.popup_y
    &&& c.workspace_id == s.workspace_id
    &&& c.language == kept_language(s.language)
}

/// The encrypted token that has to go through DPAPI before loading, if the record
/// holds a well-formed one.
pub open spec fn sealed_token_spec(s: Stored) -> Option<Seq<u8>> {
    match s.api_token_dpapi {
        Some(enc) => base64_decode_spec(enc@),
        None => None,
    }
}

/// The encrypted token of the record, base64-decoded (what DPAPI has to decrypt).
pub fn sealed_token(s: &Stored) -> (r: Option<Vec<u8>>)
    ensures
        match r {
            Some(b) => sealed_token_spec(*s) == Some(b@),
            None => sealed_token_spec(*s) is None,
        },
{
    match &s.api_token_dpapi {
        Some(enc) => base64_decode(enc.as_str()),
        None => None,
    }
}

/// The configuration held by a record; `unprotected` is DPAPI's decryption of
/// `sealed_token(&s)` (None when that is None or the decryption failed).
pub fn config_from_stored(s: Stored, unprotected: Option<Vec<u8>>) -> (c: Config)
    ensures
        loaded_from(
            s,
            match unprotected {
                Some(b) => Some(b@),
                None => None,
            },
            c,
        ),
{
    let (api_token, legacy_plaintext) = match &s.api_token_dpapi {
        Some(_) => {
            let tok = match unprotected {
                Some(bytes) => match utf8_to_string(bytes) {
                    Some(t) => t,
                    None => String::new(),
                },
                None => String::new(),
            };
            (tok, false)
        },
        None => {
            let nonempty = s.api_token.as_str().unicode_len() > 0;
            (s.api_token.clone(), nonempty)
        },
    };
    let language = match &s.language {
        Some(l) => {
            let t = trim(l.as_str());
            if t.as_str().unicode_len() > 0 {
                Some(l.clone())
            } else {
                None
            }
        },
        None => None,
    };
    Config {
        api_token,
        popup_x: s.popup_x,
        popup_y: s.popup_y,
        language,
        legacy_plaintext,
        workspace_id: s.workspace_id,
    }
}

/// The UTF-8 bytes of the trimmed token, which DPAPI encrypts on save; None when the
/// token is blank (nothing is stored then).
pub open spec fn token_to_seal_spec(c: Config) -> Option<Seq<u8>> {
    if trim_spec(c.api_token@).len() > 0 {
        Some(encode_utf8(trim_spec(c.api_token@)))
    } else {
        None
    }
}

pub fn token_to_seal(c: &Config) -> (r: Option<Vec<u8>>)
    ensures
        match r {
            Some(b) => token_to_seal_spec(*c) == Some(b@),
            None => token_to_seal_spec(*c) is None,
        },
{
    let t = trim(c.api_token.as_str());
    if t.as_str().unicode_len() > 0 {
        Some(t.as_str().as_bytes_vec())
    } else {
        None
    }
}

/// The record for `c` can be written: the token is blank (nothing is stored), or DPAPI
/// sealed it (`sealed` is its encryption of `token_to_seal(c)`). The token is never
/// written in clear.
pub open spec fn can_save(c: Config, sealed: Option<Seq<u8>>) -> bool {
    trim_spec(c.api_token@).len() == 0 || sealed is Some
}

/// `s` is the record saved for `c`, where `sealed` is DPAPI's encryption of
/// `token_to_seal(c)`: the plain field stays empty, and a non-blank token is stored only
/// encrypted, base64-encoded.
pub open spec fn saved_for(c: Config, sealed: Option<Seq<u8>>, s: Stored) -> bool {
    let token = trim_spec(c.api_token@);
    &&& s.popup_x == c.popup_x
    &&& s.popup_y == c.popup_y
    &&& s.language == c.language
    &&& s.workspace_id == c.workspace_id
    &&& s.api_token@.len() == 0
    &&& if token.len() == 0 {
        s.api_token_dpapi is None
    } else {
        sealed matches Some(b) && (s.api_token_dpapi matches Some(e) && e@ == base64_spec(b))
    }
}

/// The record to save for `c`, or None when the token is not blank and sealing it failed
/// (`sealed` is None): then nothing may be written.
pub fn stored_from_config(c: &Config, sealed: Option<Vec<u8>>) -> (r: Option<Stored>)
    ensures
        r is Some <==> can_save(
            *c,
            match sealed {
                Some(b) => Some(b@),
                None => None,
            },
        ),
        r matches Some(s) ==> saved_for(
            *c,
            match sealed {
                Some(b) => Some(b@),
                None => None,
            },
            s,
        ),
{
    let token = trim(c.api_token.as_str());
    let mut s = Stored {
        popup_x: c.popup_x,
        popup_y: c.popup_y,
        language: clone_opt(&c.language),
        ..Stored::default()
    };
    s.workspace_id = c.workspace_id;
    if token.as_str().unicode_len() > 0 {
        match sealed {
            Some(blob) => s.api_token_dpapi = Some(base64(blob.as_slice())),
            None => return None,
        }
    }
    Some(s)
}

/// What is saved loads back: when DPAPI decrypts what it encrypted, the loaded
/// configuration has the trimmed token (not flagged as plain text), the same popup
/// position and workspace, and the language unless it was blank.
pub proof fn lemma_save_load_roundtrip(c: Config, sealed: Option<Seq<u8>>, s: Stored, back: Config)
    requires
        saved_for(c, sealed, s),
        loaded_from(
            s,
            match sealed_token_spec(s) {
                Some(_) => token_to_seal_spec(c),
                None => None,
            },
            back,
        ),
    ensures
        back.api_token@ == trim_spec(c.api_token@),
        back.popup_x == c.popup_x,
        back.popup_y == c.popup_y,
        back.workspace_id == c.workspace_id,
        back.language == kept_language(c.language),
        !back.legacy_plaintext,
{
    let token = trim_spec(c.api_token@);
    if token.len() > 0 {
        let b = sealed->0;
        lemma_base64_roundtrip(b);
        assert(sealed_token_spec(s) == Some(b));
        vstd::utf8::encode_utf8_decode_utf8(token);
        vstd::utf8::encode_utf8_valid_utf8(token);
    }
}

/// What saving a typed API token does to the settings: a blank token is refused (None,
/// nothing changes); otherwise the trimmed token is kept, and when it differs from the
/// saved one (another account, which may have another default workspace) the cached
/// workspace is forgotten. The result tells whether the token changed.
pub fn accept_token(cfg: &mut Config, typed: &str) -> (r: Option<bool>)
    ensures
        trim_spec(typed@).len() == 0 <==> r is None,
        r is None ==> *final(cfg) == *old(cfg),
        r matches Some(changed) ==> {
            &&& changed == (trim_spec(old(cfg).api_token@) != trim_spec(typed@))
            &&& final(cfg).api_token@ == trim_spec(typed@)
            &&& final(cfg).workspace_id == (if changed {
                None
            } else {
                old(cfg).workspace_id
            })
            &&& final(cfg).popup_x == old(cfg).popup_x
            &&& final(cfg).popup_y == old(cfg).popup_y
            &&& final(cfg).language == old(cfg).language
            &&& final(cfg).legacy_plaintext == old(cfg).legacy_plaintext
        },
{
    let token = trim(typed);
    if token.as_str().is_empty() {
        return None;
    }
    let saved = trim(cfg.api_token.as_str());
    let changed = !(saved == token);
    if changed {
        cfg.workspace_id = None;
    }
    cfg.api_token = token;
    Some(changed)
}

} // verus!
