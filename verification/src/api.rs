//! The Toggl Track API v9 data and everything the client computes around a request:
//! the credentials header, paths, request bodies, and the messages for failures.
//! The requests themselves are sent by the application.
use vstd::prelude::*;
use crate::i18n::Strings;
use crate::text::{push_int, push_str, push_uint, fmt_int, pad_digits, trim, trim_spec, chars_of, string_of};
use crate::util::{base64, base64_spec, base64_decode_spec, lemma_base64_roundtrip, parse_rfc3339, parse_rfc3339_spec, rfc3339_spec, rfc3339_utc};

verus! {

pub const BASE: &'static str = "https://api.track.toggl.com/api/v9";

#[derive(Clone, Debug)]
pub struct Me {
    pub default_workspace_id: i64,
}

#[derive(Clone, Debug)]
pub struct TimeEntry {
    pub id: i64,
    pub workspace_id: i64,
    pub description: Option<String>,
    pub project_id: Option<i64>,
    pub start: String,
    pub stop: Option<String>,
    pub duration: i64,
    /// Set on entries that were deleted; `since=` listings include them.
    pub server_deleted_at: Option<String>,
}

#[derive(Clone, Debug)]
pub struct Project {
    pub id: i64,
    pub name: String,
    pub color: Option<String>,
    pub active: Option<bool>,
}

pub fn clone_opt_string(o: &Option<String>) -> (r: Option<String>)
    ensures
        r == *o,
{
    match o {
        Some(s) => Some(s.clone()),
        None => None,
    }
}

/// The start of a running entry as the API reports it, if it parses.
pub open spec fn start_secs(e: TimeEntry) -> Option<int> {
    parse_rfc3339_spec(e.start@)
}

pub open spec fn max0(v: int) -> int {
    if v > 0 {
        v
    } else {
        0
    }
}

/// Seconds elapsed: the stored duration of a stopped entry; for a running one, the time
/// since its start, or (v8 style, `duration` = -start) since `-duration`; 0 if neither is known.
pub open spec fn elapsed_spec(e: TimeEntry, now: int) -> int {
    if e.duration >= 0 {
        e.duration as int
    } else {
        match start_secs(e) {
            Some(start) => max0(now - start),
            None => if e.duration < -1 {
                max0(now + e.duration)
            } else {
                0
            },
        }
    }
}

/// `elapsed` stays within `i64` for this entry at `now`.
pub open spec fn elapsed_in_range(e: TimeEntry, now: int) -> bool {
    e.duration < 0 ==> match start_secs(e) {
        Some(start) => i64::MIN <= now - start <= i64::MAX,
        None => i64::MIN <= now + e.duration,
    }
}

pub open spec fn desc_spec(e: TimeEntry) -> Seq<char> {
    match e.description {
        Some(d) => d@,
        None => Seq::empty(),
    }
}

impl TimeEntry {
    pub fn is_running(&self) -> (b: bool)
        ensures
            b == (self.duration < 0),
    {
        self.duration < 0
    }

    /// Seconds elapsed. API v9 reports running entries with `duration: -1`, so the
    /// elapsed time comes from `start`; `-start_unix` (v8 style) is accepted as a fallback.
    pub fn elapsed(&self, now: i64) -> (r: i64)
        requires
            elapsed_in_range(*self, now as int),
        ensures
            r == elapsed_spec(*self, now as int),
    {
        if !self.is_running() {
            return self.duration;
        }
        match parse_rfc3339(self.start.as_str()) {
            Some(start) => {
                let d = now - start;
                if d > 0 {
                    d
                } else {
                    0
                }
            },
            None => if self.duration < -1 {
                let d = now + self.duration;
                if d > 0 {
                    d
                } else {
                    0
                }
            } else {
                0
            },
        }
    }

    /// The description, empty when there is none.
    pub fn desc(&self) -> (r: &str)
        ensures
            r@ == desc_spec(*self),
    {
        match &self.description {
            Some(d) => d.as_str(),
            None => {
                proof {
                    reveal_strlit("");
                }
                ""
            },
        }
    }

    /// A field-by-field copy.
    pub fn duplicate(&self) -> (r: TimeEntry)
        ensures
            r == *self,
    {
        TimeEntry {
            id: self.id,
            workspace_id: self.workspace_id,
            description: clone_opt_string(&self.description),
            project_id: self.project_id,
            start: self.start.clone(),
            stop: clone_opt_string(&self.stop),
            duration: self.duration,
            server_deleted_at: clone_opt_string(&self.server_deleted_at),
        }
    }
}

impl Project {
    /// A field-by-field copy.
    pub fn duplicate(&self) -> (r: Project)
        ensures
            r == *self,
    {
        Project {
            id: self.id,
            name: self.name.clone(),
            color: clone_opt_string(&self.color),
            active: self.active,
        }
    }
}

// ---------------------------------------------------------------- requests

/// The value of the `Authorization` header for an API token: HTTP basic auth with the
/// trimmed token as user name and `api_token` as password.
pub open spec fn basic_auth_spec(token: Seq<char>) -> Seq<char> {
    "Basic "@ + base64_spec(vstd::utf8::encode_utf8(trim_spec(token) + ":api_token"@))
}

pub fn basic_auth(token: &str) -> (r: String)
    ensures
        r@ == basic_auth_spec(token@),
{
    let mut cred = trim(token);
    push_str(&mut cred, ":api_token");
    let encoded = base64(cred.as_str().as_bytes());
    let mut r = String::new();
    push_str(&mut r, "Basic ");
    push_str(&mut r, encoded.as_str());
    r
}

/// The `Authorization` header carries the token: after `Basic `, its base64 decodes to
/// the UTF-8 of the trimmed token, a colon and `api_token`.
pub proof fn lemma_basic_auth_decodes(token: Seq<char>)
    ensures
        basic_auth_spec(token).take(6) == "Basic "@,
        base64_decode_spec(basic_auth_spec(token).skip(6)) == Some(
            vstd::utf8::encode_utf8(trim_spec(token) + ":api_token"@),
        ),
{
    let creds = vstd::utf8::encode_utf8(trim_spec(token) + ":api_token"@);
    reveal_strlit("Basic ");
    assert(basic_auth_spec(token).take(6) =~= "Basic "@);
    assert(basic_auth_spec(token).skip(6) =~= base64_spec(creds));
    lemma_base64_roundtrip(creds);
}

/// The full URL of an API path.
pub fn url(path: &str) -> (r: String)
    ensures
        r@ == BASE@ + path@,
{
    let mut r = String::new();
    push_str(&mut r, BASE);
    push_str(&mut r, path);
    r
}

/// How far back `recent` lists entries: 30 days.
pub const RECENT_WINDOW: i64 = 2592000;

/// Path of the entries modified since 30 days before `now`, deleted ones included.
pub fn recent_path(now: i64) -> (r: String)
    requires
        now >= i64::MIN + RECENT_WINDOW,
    ensures
        r@ == "/me/time_entries?since="@ + fmt_int(now - 30 * 86400, 0),
{
    let since = now - 30 * 86400;
    let mut r = String::new();
    push_str(&mut r, "/me/time_entries?since=");
    push_int(&mut r, since, 0);
    r
}

/// Path where new entries of workspace `wid` are created.
pub fn entries_path(wid: i64) -> (r: String)
    ensures
        r@ == "/workspaces/"@ + fmt_int(wid as int, 0) + "/time_entries"@,
{
    let mut r = String::new();
    push_str(&mut r, "/workspaces/");
    push_int(&mut r, wid, 0);
    push_str(&mut r, "/time_entries");
    r
}

/// Path of entry `id` of workspace `wid`.
pub fn entry_path(wid: i64, id: i64) -> (r: String)
    ensures
        r@ == "/workspaces/"@ + fmt_int(wid as int, 0) + "/time_entries/"@ + fmt_int(id as int, 0),
{
    let mut r = String::new();
    push_str(&mut r, "/workspaces/");
    push_int(&mut r, wid, 0);
    push_str(&mut r, "/time_entries/");
    push_int(&mut r, id, 0);
    r
}

/// Path that stops entry `id` of workspace `wid`.
pub fn stop_path(wid: i64, id: i64) -> (r: String)
    ensures
        r@ == "/workspaces/"@ + fmt_int(wid as int, 0) + "/time_entries/"@ + fmt_int(id as int, 0)
            + "/stop"@,
{
    let mut r = entry_path(wid, id);
    push_str(&mut r, "/stop");
    r
}

/// The JSON body of a request that creates or rewrites an entry. `stop` is sent only
/// when present.
pub struct EntryBody {
    pub created_with: &'static str,
    pub workspace_id: i64,
    pub description: String,
    pub project_id: Option<i64>,
    pub start: String,
    pub duration: i64,
    pub stop: Option<String>,
}

pub open spec fn created_with_spec() -> Seq<char> {
    "togglite"@
}

/// A running entry started at `now`.
pub fn start_body(wid: i64, description: &str, project_id: Option<i64>, now: i64) -> (b: EntryBody)
    ensures
        b.created_with@ == created_with_spec(),
        b.workspace_id == wid,
        b.description@ == description@,
        b.project_id == project_id,
        b.start@ == rfc3339_spec(now as int),
        b.duration == -1,
        b.stop is None,
{
    EntryBody {
        created_with: "togglite",
        workspace_id: wid,
        description: description.to_owned(),
        project_id,
        start: rfc3339_utc(now),
        duration: -1,
        stop: None,
    }
}

/// An entry rewritten to run from `start` to `stop`; `stop: None` keeps it running
/// (duration -1) with the new start.
pub fn update_body(wid: i64, description: &str, project_id: Option<i64>, start: i64, stop: Option<i64>) -> (b: EntryBody)
    requires
        stop matches Some(s) ==> i64::MIN <= s - start <= i64::MAX,
    ensures
        b.created_with@ == created_with_spec(),
        b.workspace_id == wid,
        b.description@ == description@,
        b.project_id == project_id,
        b.start@ == rfc3339_spec(start as int),
        b.duration == (match stop {
            Some(s) => s - start,
            None => -1,
        }),
        match stop {
            Some(s) => b.stop matches Some(t) && t@ == rfc3339_spec(s as int),
            None => b.stop is None,
        },
{
    EntryBody {
        created_with: "togglite",
        workspace_id: wid,
        description: description.to_owned(),
        project_id,
        start: rfc3339_utc(start),
        duration: match stop {
            Some(s) => s - start,
            None => -1,
        },
        stop: match stop {
            Some(s) => Some(rfc3339_utc(s)),
            None => None,
        },
    }
}

/// The entries of a listing that are not deleted, in order.
pub open spec fn live_spec(s: Seq<TimeEntry>) -> Seq<TimeEntry>
    decreases s.len(),
{
    if s.len() == 0 {
        Seq::empty()
    } else if s.last().server_deleted_at is None {
        live_spec(s.drop_last()).push(s.last())
    } else {
        live_spec(s.drop_last())
    }
}

/// A listing loses exactly its deleted entries: what is kept is the listing's entries
/// without `server_deleted_at`, all of them, in their order.
pub proof fn lemma_live_is_filter(s: Seq<TimeEntry>)
    ensures
        live_spec(s) == s.filter(|e: TimeEntry| e.server_deleted_at is None),
    decreases s.len(),
{
    reveal(Seq::filter);
    if s.len() > 0 {
        lemma_live_is_filter(s.drop_last());
    }
}

/// Drops the entries flagged with `server_deleted_at`.
pub fn live_entries(entries: &Vec<TimeEntry>) -> (r: Vec<TimeEntry>)
    ensures
        r@ == live_spec(entries@),
{
    let mut r: Vec<TimeEntry> = Vec::new();
    let mut i: usize = 0;
    while i < entries.len()
        invariant
            i <= entries@.len(),
            r@ == live_spec(entries@.take(i as int)),
        decreases entries@.len() - i,
    {
        proof {
            assert(entries@.take(i + 1).drop_last() =~= entries@.take(i as int));
            assert(entries@.take(i + 1).last() == entries@[i as int]);
        }
        if entries[i].server_deleted_at.is_none() {
            r.push(entries[i].duplicate());
        }
        i = i + 1;
    }
    proof {
        assert(entries@.take(entries@.len() as int) =~= entries@);
    }
    r
}

// ---------------------------------------------------------------- failures

/// `prefix: detail`, the form of every error message with a cause attached.
pub open spec fn with_detail_spec(prefix: Seq<char>, detail: Seq<char>) -> Seq<char> {
    prefix + seq![':', ' '] + detail
}

pub fn with_detail(prefix: &str, detail: &str) -> (r: String)
    ensures
        r@ == with_detail_spec(prefix@, detail@),
{
    let mut r = String::new();
    push_str(&mut r, prefix);
    r.push(':');
    r.push(' ');
    push_str(&mut r, detail);
    r
}

/// The message for an HTTP error status: authentication (401, 403), the plan's hourly
/// quota (402, 429), or else the status with the first 200 characters of the body.
pub open spec fn http_error_spec(s: Strings, code: u16, body: Seq<char>) -> Seq<char> {
    if code == 401 || code == 403 {
        s.err_auth@
    } else if code == 402 || code == 429 {
        s.err_rate_limit@
    } else {
        "HTTP "@ + pad_digits(code as nat, 0) + seq![':', ' '] + body.take(
            if body.len() < 200 {
                body.len() as int
            } else {
                200
            },
        )
    }
}

/// Maps an HTTP error status to a user-facing message.
pub fn http_error(s: &Strings, code: u16, body: &str) -> (r: String)
    ensures
        r@ == http_error_spec(*s, code, body@),
{
    if code == 401 || code == 403 {
        s.err_auth.to_owned()
    } else if code == 402 || code == 429 {
        s.err_rate_limit.to_owned()
    } else {
        let mut r = String::new();
        push_str(&mut r, "HTTP ");
        push_uint(&mut r, code as u64, 0);
        r.push(':');
        r.push(' ');
        let cs = chars_of(body);
        let n = if cs.len() < 200 {
            cs.len()
        } else {
            200
        };
        let head = string_of(&cs, 0, n);
        push_str(&mut r, head.as_str());
        assert(cs@.subrange(0, n as int) =~= cs@.take(n as int));
        r
    }
}

/// A request that fails with 404 when deleting means the entry is already gone, which
/// counts as deleted.
pub fn delete_succeeded(status: u16) -> (b: bool)
    ensures
        b == (status == 404),
{
    status == 404
}

} // verus!
