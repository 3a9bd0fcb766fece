//! UI strings. The language follows the Windows display language unless the user
//! picks one on the settings page (stored as `language` in config.json).
//! The setting is a pair of small numbers (`LangState`) that the application keeps
//! where every thread can read it; the functions here decide what it holds.
use vstd::prelude::*;
use crate::text::{chars_of, fmt_int, push_str, push_uint, trim_bounds, trim_spec};

verus! {

#[derive(Clone, Copy, PartialEq, Eq, Debug, Structural)]
pub enum Lang {
    En,
    Ja,
}

/// The ASCII lowercase of a character (`u8::to_ascii_lowercase` on its byte).
pub open spec fn ascii_lower(c: char) -> char {
    if 'A' <= c && c <= 'Z' {
        ((c as u32) + 32) as char
    } else {
        c
    }
}

/// The characters before the first `-` or `_`.
pub open spec fn primary_subtag(cs: Seq<char>) -> Seq<char>
    decreases cs.len(),
{
    if cs.len() == 0 || cs[0] == '-' || cs[0] == '_' {
        Seq::empty()
    } else {
        seq![cs[0]] + primary_subtag(cs.drop_first())
    }
}

/// The language a tag such as `ja`, `ja-JP` or ` en_US ` names, if it is supported.
pub open spec fn lang_of_tag(tag: Seq<char>) -> Option<Lang> {
    let p = primary_subtag(trim_spec(tag)).map_values(|c: char| ascii_lower(c));
    if p == seq!['e', 'n'] {
        Some(Lang::En)
    } else if p == seq!['j', 'a'] {
        Some(Lang::Ja)
    } else {
        None
    }
}

pub open spec fn tag_spec(lang: Lang) -> Seq<char> {
    match lang {
        Lang::En => seq!['e', 'n'],
        Lang::Ja => seq!['j', 'a'],
    }
}

/// The byte that stands for a language in a `LangState`.
pub open spec fn lang_code(lang: Lang) -> u8 {
    match lang {
        Lang::En => 0,
        Lang::Ja => 1,
    }
}

pub open spec fn lang_of_code(v: u8) -> Option<Lang> {
    if v == 0 {
        Some(Lang::En)
    } else if v == 1 {
        Some(Lang::Ja)
    } else {
        None
    }
}

proof fn lemma_primary_subtag_prefix(cs: Seq<char>, k: int)
    requires
        0 <= k <= cs.len(),
        forall|i: int| 0 <= i < k ==> cs[i] != '-' && cs[i] != '_',
        k == cs.len() || cs[k] == '-' || cs[k] == '_',
    ensures
        primary_subtag(cs) == cs.take(k),
    decreases k,
{
    if k > 0 {
        lemma_primary_subtag_prefix(cs.drop_first(), k - 1);
        assert(cs.take(k) =~= seq![cs[0]] + cs.drop_first().take(k - 1));
    } else {
        assert(cs.take(0) =~= Seq::<char>::empty());
    }
}

impl Lang {
    /// Accepts BCP 47 style tags such as `ja`, `ja-JP`, `en_US`; returns None for
    /// anything unsupported so the caller can fall back to auto-detection.
    pub fn from_tag(tag: &str) -> (r: Option<Lang>)
        ensures
            r == lang_of_tag(tag@),
    {
        let cs = chars_of(tag);
        let (a, b) = trim_bounds(&cs);
        let ghost t = cs@.subrange(a as int, b as int);
        let mut k = a;
        while k < b && cs[k] != '-' && cs[k] != '_'
            invariant
                a <= k <= b <= cs@.len(),
                forall|i: int| a <= i < k ==> cs@[i] != '-' && cs@[i] != '_',
            decreases b - k,
        {
            k = k + 1;
        }
        proof {
            assert forall|i: int| 0 <= i < k - a implies t[i] != '-' && t[i] != '_' by {
                assert(t[i] == cs@[i + a]);
            }
            if k < b {
                assert(t[k - a] == cs@[k as int]);
            }
            lemma_primary_subtag_prefix(t, k - a);
        }
        let ghost p = t.take(k - a).map_values(|c: char| ascii_lower(c));
        if k - a != 2 {
            proof {
                assert(p.len() != 2);
                assert(p != seq!['e', 'n']);
                assert(p != seq!['j', 'a']);
            }
            return None;
        }
        let c0 = lower(cs[a]);
        let c1 = lower(cs[a + 1]);
        proof {
            assert(p[0] == c0 && p[1] == c1);
            assert(p.len() == 2);
        }
        if c0 == 'e' && c1 == 'n' {
            assert(p =~= seq!['e', 'n']);
            Some(Lang::En)
        } else if c0 == 'j' && c1 == 'a' {
            assert(p =~= seq!['j', 'a']);
            Some(Lang::Ja)
        } else {
            proof {
                if p == seq!['e', 'n'] {
                    assert(p[0] == 'e');
                }
                if p == seq!['j', 'a'] {
                    assert(p[0] == 'j');
                }
            }
            None
        }
    }

    pub fn tag(self) -> (r: &'static str)
        ensures
            r@ == tag_spec(self),
    {
        proof {
            reveal_strlit("en");
            reveal_strlit("ja");
        }
        match self {
            Lang::En => "en",
            Lang::Ja => "ja",
        }
    }

    /// The language's name in itself, as shown in the language picker.
    pub fn native_name(self) -> (r: &'static str)
        ensures
            r@ == native_name_spec(self)@,
    {
        match self {
            Lang::En => "English",
            Lang::Ja => "日本語",
        }
    }

    /// The texts of this language.
    pub fn strings(self) -> (s: Strings)
        ensures
            s == strings_spec(self),
    {
        match self {
            Lang::En => en_strings(),
            Lang::Ja => ja_strings(),
        }
    }

    /// The byte that stands for this language in a `LangState`.
    pub fn code(self) -> (v: u8)
        ensures
            v == lang_code(self),
    {
        match self {
            Lang::En => 0,
            Lang::Ja => 1,
        }
    }

    /// The language a `LangState` byte stands for, if any.
    pub fn from_u8(v: u8) -> (r: Option<Lang>)
        ensures
            r == lang_of_code(v),
    {
        if v == 0 {
            Some(Lang::En)
        } else if v == 1 {
            Some(Lang::Ja)
        } else {
            None
        }
    }
}

/// Every supported language, in the order the settings page lists them.
pub fn all_langs() -> (r: [Lang; 2])
    ensures
        r@ == seq![Lang::En, Lang::Ja],
{
    [Lang::En, Lang::Ja]
}

/// The language at position `i` of the settings page's list; None past its end (the
/// "automatic" choice).
pub fn lang_at(i: Option<usize>) -> (r: Option<Lang>)
    ensures
        r == (match i {
            Some(k) => if k < 2 {
                Some(seq![Lang::En, Lang::Ja][k as int])
            } else {
                None
            },
            None => None,
        }),
{
    match i {
        Some(0) => Some(Lang::En),
        Some(1) => Some(Lang::Ja),
        _ => None,
    }
}

/// The position of `pref` in the settings page's list.
pub fn lang_index(pref: Option<Lang>) -> (r: Option<usize>)
    ensures
        match pref {
            Some(l) => r matches Some(k) && k < 2 && seq![Lang::En, Lang::Ja][k as int] == l,
            None => r is None,
        },
{
    match pref {
        Some(Lang::En) => Some(0),
        Some(Lang::Ja) => Some(1),
        None => None,
    }
}

fn lower(c: char) -> (r: char)
    ensures
        r == ascii_lower(c),
{
    if 'A' <= c && c <= 'Z' {
        ((c as u32 + 32) as u8) as char
    } else {
        c
    }
}

/// Tags round-trip: every language is read back from its own tag.
pub proof fn lemma_tag_round_trip(lang: Lang)
    ensures
        lang_of_tag(tag_spec(lang)) == Some(lang),
{
    let t = tag_spec(lang);
    assert(trim_spec(t) == t) by {
        assert(!crate::text::is_white_space(t[0]));
        assert(!crate::text::is_white_space(t.last()));
        assert(crate::text::trim_start_spec(t) == t);
        assert(crate::text::trim_end_spec(t) == t);
    }
    lemma_primary_subtag_prefix(t, 2);
    assert(t.take(2) =~= t);
    let p = t.map_values(|c: char| ascii_lower(c));
    assert(p =~= t);
}

/// Windows LANGID primary language for Japanese.
pub const LANG_JAPANESE: u16 = 0x11;

/// The language of the system: a supported tag in `env_override` (the `TOGGLITE_LANG`
/// variable) wins; otherwise Japanese when the Windows display language `ui_language`
/// (a LANGID) is Japanese, and English for any other.
pub fn system_lang(env_override: Option<&str>, ui_language: u16) -> (r: Lang)
    ensures
        r == (match env_override {
            Some(tag) if lang_of_tag(tag@) is Some => lang_of_tag(tag@)->0,
            _ => if ui_language & 0x3FF == 0x11 {
                Lang::Ja
            } else {
                Lang::En
            },
        }),
{
    if let Some(tag) = env_override {
        if let Some(l) = Lang::from_tag(tag) {
            return l;
        }
    }
    if ui_language & 0x3FF == LANG_JAPANESE {
        Lang::Ja
    } else {
        Lang::En
    }
}

/// Sentinel for "no explicit preference, follow the system".
pub const AUTO: u8 = 255;

/// The language setting: the user's explicit choice (`AUTO` for none) and the
/// language actually in effect, each as the byte of `Lang::code`.
pub struct LangState {
    pub preference: u8,
    pub current: u8,
}

impl LangState {
    /// The setting before any preference is applied: automatic, English in effect.
    pub fn new() -> (s: LangState)
        ensures
            s.preference == AUTO,
            s.current == lang_code(Lang::En),
    {
        LangState { preference: AUTO, current: 0 }
    }
}

/// Applies the saved preference (a language tag, or None for automatic) at startup;
/// `system` is the system language, used when there is no valid preference.
pub fn init(state: &mut LangState, config_lang: Option<&str>, system: Lang)
    ensures
        ({
            let pref = match config_lang {
                Some(tag) => lang_of_tag(tag@),
                None => None,
            };
            &&& preference_of(*final(state)) == pref
            &&& current_of(*final(state)) == (match pref {
                Some(l) => l,
                None => system,
            })
        }),
{
    let pref = match config_lang {
        Some(tag) => Lang::from_tag(tag),
        None => None,
    };
    set_preference(state, pref, system);
}

pub open spec fn preference_of(state: LangState) -> Option<Lang> {
    lang_of_code(state.preference)
}

pub open spec fn current_of(state: LangState) -> Lang {
    match lang_of_code(state.current) {
        Some(l) => l,
        None => Lang::En,
    }
}

/// Switches the UI language. `None` follows the system language `system`.
pub fn set_preference(state: &mut LangState, pref: Option<Lang>, system: Lang)
    ensures
        preference_of(*final(state)) == pref,
        current_of(*final(state)) == (match pref {
            Some(l) => l,
            None => system,
        }),
        final(state).preference == (match pref {
            Some(l) => lang_code(l),
            None => AUTO,
        }),
{
    state.preference = match pref {
        Some(l) => l.code(),
        None => AUTO,
    };
    state.current = match pref {
        Some(l) => l.code(),
        None => system.code(),
    };
}

/// The user's explicit choice, if any.
pub fn preference(state: &LangState) -> (r: Option<Lang>)
    ensures
        r == preference_of(*state),
{
    Lang::from_u8(state.preference)
}

/// The language in effect.
pub fn current(state: &LangState) -> (r: Lang)
    ensures
        r == current_of(*state),
{
    match Lang::from_u8(state.current) {
        Some(l) => l,
        None => Lang::En,
    }
}

/// Strings for the language in effect.
pub fn t(state: &LangState) -> (s: Strings)
    ensures
        s == strings_spec(current_of(*state)),
{
    current(state).strings()
}

/// A short calendar date, e.g. "Wed, Sep 17" / "9月17日 (水)". `weekday` is 0 for Sunday.
pub open spec fn date_label_spec(lang: Lang, month: int, day: int, weekday: int) -> Seq<char> {
    let s = strings_spec(lang);
    let wd = s.weekdays@[weekday % 7]@;
    match lang {
        Lang::En => {
            let mi = if month < 1 {
                1
            } else if month > 12 {
                12
            } else {
                month
            };
            wd + seq![',', ' '] + s.months@[mi - 1]@ + seq![' '] + fmt_int(day, 0)
        },
        Lang::Ja => fmt_int(month, 0) + "月"@ + fmt_int(day, 0) + "日 ("@ + wd + seq![')'],
    }
}

/// A short calendar date in the language in effect.
pub fn date_label(state: &LangState, month: u32, day: u32, weekday: u32) -> (r: String)
    ensures
        r@ == date_label_spec(current_of(*state), month as int, day as int, weekday as int),
{
    date_label_in(current(state), month, day, weekday)
}

/// A short calendar date in `lang`.
pub fn date_label_in(lang: Lang, month: u32, day: u32, weekday: u32) -> (r: String)
    ensures
        r@ == date_label_spec(lang, month as int, day as int, weekday as int),
{
    let s = lang.strings();
    let wd = s.weekdays[(weekday % 7) as usize];
    let mut out = String::new();
    match lang {
        Lang::En => {
            let mi: usize = if month < 1 {
                1
            } else if month > 12 {
                12
            } else {
                month as usize
            };
            push_str(&mut out, wd);
            push_str(&mut out, ", ");
            push_str(&mut out, s.months[mi - 1]);
            push_str(&mut out, " ");
            push_uint(&mut out, day as u64, 0);
            proof {
                reveal_strlit(", ");
                reveal_strlit(" ");
            }
        },
        Lang::Ja => {
            push_uint(&mut out, month as u64, 0);
            push_str(&mut out, "月");
            push_uint(&mut out, day as u64, 0);
            push_str(&mut out, "日 (");
            push_str(&mut out, wd);
            push_str(&mut out, ")");
            proof {
                reveal_strlit(")");
            }
        },
    }
    assert(out@ =~= date_label_spec(lang, month as int, day as int, weekday as int));
    out
}

pub open spec fn native_name_spec(lang: Lang) -> &'static str {
    match lang {
        Lang::En => "English",
        Lang::Ja => "日本語",
    }
}

/// The user-facing texts of one language.
pub struct Strings {
    // tray menu
    pub menu_start: &'static str,
    pub menu_open: &'static str,
    pub menu_reload: &'static str,
    pub menu_settings: &'static str,
    pub menu_quit: &'static str,
    /// Menu label while a timer runs: "{stop}: {description} ({elapsed})".
    pub menu_stop: &'static str,
    pub tip_stopped: &'static str,

    // main page
    pub cue_description: &'static str,
    pub status_syncing: &'static str,
    pub status_tracking: &'static str,
    pub status_stopped: &'static str,
    pub no_project: &'static str,
    pub no_description: &'static str,
    pub start: &'static str,
    pub stop: &'static str,
    pub recent_entries: &'static str,
    pub no_entries: &'static str,
    pub need_token: &'static str,

    // history and editor pages
    pub history: &'static str,
    pub today: &'static str,
    pub yesterday: &'static str,
    pub edit_entry: &'static str,
    pub delete: &'static str,
    /// Label of the delete button once armed; the next click deletes.
    pub delete_confirm: &'static str,
    pub saving: &'static str,
    pub weekdays: [&'static str; 7],
    pub months: [&'static str; 12],

    // settings page
    pub settings: &'static str,
    pub cue_token: &'static str,
    pub token_label: &'static str,
    pub token_hint: &'static str,
    pub open_profile: &'static str,
    pub language: &'static str,
    /// Picker entry that follows the Windows display language.
    pub language_auto: &'static str,
    pub checking: &'static str,
    pub save: &'static str,

    // errors (the ": detail" suffix is appended by the caller)
    pub err_token_empty: &'static str,
    pub err_save_failed: &'static str,
    pub err_init_failed: &'static str,
    pub err_not_synced: &'static str,
    pub err_rate_limit: &'static str,
    pub err_bad_time: &'static str,
    pub err_parse: &'static str,
    pub err_auth: &'static str,
    pub err_network: &'static str,
}


pub open spec fn strings_spec(lang: Lang) -> Strings {
    match lang {
        Lang::En => en_strings_spec(),
        Lang::Ja => ja_strings_spec(),
    }
}

pub open spec fn en_strings_spec() -> Strings {
    Strings {
        menu_start: "Start",
        menu_open: "Open",
        menu_reload: "Reload",
        menu_settings: "Settings...",
        menu_quit: "Quit",
        menu_stop: "Stop",
        tip_stopped: "Togglite (stopped)",

        cue_description: "What are you working on?",
        status_syncing: "Syncing…",
        status_tracking: "Tracking",
        status_stopped: "Stopped",
        no_project: "No project",
        no_description: "(no description)",
        start: "Start",
        stop: "Stop",
        recent_entries: "Recent entries",
        no_entries: "No entries yet",
        need_token: "Add your API token in Settings",

        history: "History",
        today: "Today",
        yesterday: "Yesterday",
        edit_entry: "Edit entry",
        delete: "Delete entry",
        delete_confirm: "Click again to delete",
        saving: "Saving…",
        weekdays: ["Sun", "Mon", "Tue", "Wed", "Thu", "Fri", "Sat"],
        months: ["Jan", "Feb", "Mar", "Apr", "May", "Jun", "Jul", "Aug", "Sep", "Oct", "Nov", "Dec"],

        settings: "Settings",
        cue_token: "Paste your API token",
        token_label: "Toggl API token",
        token_hint: "Copy the API token from the bottom of your Toggl Profile settings page and paste it here.",
        open_profile: "Open track.toggl.com/profile ↗",
        language: "Language",
        language_auto: "Automatic",
        checking: "Checking…",
        save: "Save",

        err_token_empty: "Enter your API token",
        err_save_failed: "Failed to save settings",
        err_init_failed: "Failed to initialize",
        err_not_synced: "Not synced yet",
        err_rate_limit: "Toggl API hourly limit reached; try again later",
        err_bad_time: "Enter times as HH:MM",
        err_parse: "Failed to parse the response",
        err_auth: "Authentication failed: check your API token",
        err_network: "Network error",
    }
}

pub open spec fn ja_strings_spec() -> Strings {
    Strings {
        menu_start: "開始",
        menu_open: "開く",
        menu_reload: "再読み込み",
        menu_settings: "設定...",
        menu_quit: "終了",
        menu_stop: "停止",
        tip_stopped: "Togglite (停止中)",

        cue_description: "何をしていますか？",
        status_syncing: "同期中…",
        status_tracking: "計測中",
        status_stopped: "停止中",
        no_project: "プロジェクトなし",
        no_description: "(説明なし)",
        start: "開始",
        stop: "停止",
        recent_entries: "最近のエントリ",
        no_entries: "エントリがありません",
        need_token: "設定から API トークンを登録してください",

        history: "履歴",
        today: "今日",
        yesterday: "昨日",
        edit_entry: "エントリを編集",
        delete: "エントリを削除",
        delete_confirm: "もう一度クリックで削除",
        saving: "保存中…",
        weekdays: ["日", "月", "火", "水", "木", "金", "土"],
        months: ["1月", "2月", "3月", "4月", "5月", "6月", "7月", "8月", "9月", "10月", "11月", "12月"],

        settings: "設定",
        cue_token: "API トークンを貼り付け",
        token_label: "Toggl API トークン",
        token_hint: "Toggl の Profile settings ページ下部にある API Token をコピーして貼り付けてください。",
        open_profile: "track.toggl.com/profile を開く ↗",
        language: "言語",
        language_auto: "自動",
        checking: "確認中…",
        save: "保存",

        err_token_empty: "API トークンを入力してください",
        err_save_failed: "設定の保存に失敗",
        err_init_failed: "初期化に失敗",
        err_not_synced: "まだ同期されていません",
        err_rate_limit: "Toggl API の 1 時間あたりの上限に達しました。しばらく待ってください",
        err_bad_time: "時刻は HH:MM 形式で入力してください",
        err_parse: "応答の解析に失敗",
        err_auth: "認証エラー: API トークンを確認してください",
        err_network: "通信エラー",
    }
}

fn en_strings() -> (s: Strings)
    ensures
        s == en_strings_spec(),
{
    Strings {
        menu_start: "Start",
        menu_open: "Open",
        menu_reload: "Reload",
        menu_settings: "Settings...",
        menu_quit: "Quit",
        menu_stop: "Stop",
        tip_stopped: "Togglite (stopped)",

        cue_description: "What are you working on?",
        status_syncing: "Syncing…",
        status_tracking: "Tracking",
        status_stopped: "Stopped",
        no_project: "No project",
        no_description: "(no description)",
        start: "Start",
        stop: "Stop",
        recent_entries: "Recent entries",
        no_entries: "No entries yet",
        need_token: "Add your API token in Settings",

        history: "History",
        today: "Today",
        yesterday: "Yesterday",
        edit_entry: "Edit entry",
        delete: "Delete entry",
        delete_confirm: "Click again to delete",
        saving: "Saving…",
        weekdays: ["Sun", "Mon", "Tue", "Wed", "Thu", "Fri", "Sat"],
        months: ["Jan", "Feb", "Mar", "Apr", "May", "Jun", "Jul", "Aug", "Sep", "Oct", "Nov", "Dec"],

        settings: "Settings",
        cue_token: "Paste your API token",
        token_label: "Toggl API token",
        token_hint: "Copy the API token from the bottom of your Toggl Profile settings page and paste it here.",
        open_profile: "Open track.toggl.com/profile ↗",
        language: "Language",
        language_auto: "Automatic",
        checking: "Checking…",
        save: "Save",

        err_token_empty: "Enter your API token",
        err_save_failed: "Failed to save settings",
        err_init_failed: "Failed to initialize",
        err_not_synced: "Not synced yet",
        err_rate_limit: "Toggl API hourly limit reached; try again later",
        err_bad_time: "Enter times as HH:MM",
        err_parse: "Failed to parse the response",
        err_auth: "Authentication failed: check your API token",
        err_network: "Network error",
    }
}

fn ja_strings() -> (s: Strings)
    ensures
        s == ja_strings_spec(),
{
    Strings {
        menu_start: "開始",
        menu_open: "開く",
        menu_reload: "再読み込み",
        menu_settings: "設定...",
        menu_quit: "終了",
        menu_stop: "停止",
        tip_stopped: "Togglite (停止中)",

        cue_description: "何をしていますか？",
        status_syncing: "同期中…",
        status_tracking: "計測中",
        status_stopped: "停止中",
        no_project: "プロジェクトなし",
        no_description: "(説明なし)",
        start: "開始",
        stop: "停止",
        recent_entries: "最近のエントリ",
        no_entries: "エントリがありません",
        need_token: "設定から API トークンを登録してください",

        history: "履歴",
        today: "今日",
        yesterday: "昨日",
        edit_entry: "エントリを編集",
        delete: "エントリを削除",
        delete_confirm: "もう一度クリックで削除",
        saving: "保存中…",
        weekdays: ["日", "月", "火", "水", "木", "金", "土"],
        months: ["1月", "2月", "3月", "4月", "5月", "6月", "7月", "8月", "9月", "10月", "11月", "12月"],

        settings: "設定",
        cue_token: "API トークンを貼り付け",
        token_label: "Toggl API トークン",
        token_hint: "Toggl の Profile settings ページ下部にある API Token をコピーして貼り付けてください。",
        open_profile: "track.toggl.com/profile を開く ↗",
        language: "言語",
        language_auto: "自動",
        checking: "確認中…",
        save: "保存",

        err_token_empty: "API トークンを入力してください",
        err_save_failed: "設定の保存に失敗",
        err_init_failed: "初期化に失敗",
        err_not_synced: "まだ同期されていません",
        err_rate_limit: "Toggl API の 1 時間あたりの上限に達しました。しばらく待ってください",
        err_bad_time: "時刻は HH:MM 形式で入力してください",
        err_parse: "応答の解析に失敗",
        err_auth: "認証エラー: API トークンを確認してください",
        err_network: "通信エラー",
    }
}

} // verus!
