//! What the popup shows, as plain data: its pages, colours (project colours from the
//! API and the light and dark palettes), and the project chip. Drawing is left to the
//! application.
use vstd::prelude::*;
use crate::text::{chars_of, trim_bounds, trim_spec};

verus! {

#[derive(Clone, Copy, PartialEq, Eq, Debug, Structural)]
pub enum Page {
    Main,
    Settings,
    History,
    Edit,
}

#[derive(Clone, Copy, PartialEq, Eq, Debug, Structural)]
pub struct Rgb(pub u8, pub u8, pub u8);

/// Drops every leading `#`.
pub open spec fn strip_hashes(cs: Seq<char>) -> Seq<char>
    decreases cs.len(),
{
    if cs.len() > 0 && cs[0] == '#' {
        strip_hashes(cs.drop_first())
    } else {
        cs
    }
}

pub open spec fn hex_digit_value(c: char) -> Option<int> {
    if '0' <= c && c <= '9' {
        Some(c as int - 48)
    } else if 'a' <= c && c <= 'f' {
        Some(c as int - 97 + 10)
    } else if 'A' <= c && c <= 'F' {
        Some(c as int - 65 + 10)
    } else {
        None
    }
}

pub open spec fn all_hex(cs: Seq<char>) -> bool {
    forall|i: int| 0 <= i < cs.len() ==> hex_digit_value(#[trigger] cs[i]) is Some
}

pub open spec fn hex_value(cs: Seq<char>) -> int
    decreases cs.len(),
{
    if cs.len() == 0 {
        0
    } else {
        hex_value(cs.drop_last()) * 16 + hex_digit_value(cs.last())->0
    }
}

/// `u32::from_str_radix(cs, 16)` on a short string: an optional `+`, then hex digits.
pub open spec fn hex_number(cs: Seq<char>) -> Option<int> {
    let ds = if cs.len() > 0 && cs[0] == '+' {
        cs.drop_first()
    } else {
        cs
    };
    if ds.len() > 0 && all_hex(ds) {
        Some(hex_value(ds))
    } else {
        None
    }
}

/// The colour written as `#RRGGBB` (any number of leading `#`, surrounding white space
/// allowed).
pub open spec fn rgb_of_hex(cs: Seq<char>) -> Option<Rgb> {
    let t = strip_hashes(trim_spec(cs));
    if t.len() != 6 {
        None
    } else {
        match hex_number(t) {
            Some(v) => Some(rgb_of_value(v)),
            None => None,
        }
    }
}

pub open spec fn rgb_of_value(v: int) -> Rgb {
    Rgb((v / 65536 % 256) as u8, (v / 256 % 256) as u8, (v % 256) as u8)
}

proof fn lemma_hex_value_bound(cs: Seq<char>)
    requires
        all_hex(cs),
    ensures
        0 <= hex_value(cs),
        cs.len() <= 6 ==> hex_value(cs) < pow16(cs.len()),
    decreases cs.len(),
{
    if cs.len() > 0 {
        assert(hex_digit_value(cs[cs.len() - 1]) is Some);
        lemma_hex_value_bound(cs.drop_last());
    }
}

pub open spec fn pow16(n: nat) -> int
    decreases n,
{
    if n == 0 {
        1
    } else {
        16 * pow16((n - 1) as nat)
    }
}

fn hex_digit(c: char) -> (r: u32)
    ensures
        r <= 16,
        r < 16 <==> hex_digit_value(c) is Some,
        r < 16 ==> hex_digit_value(c) == Some(r as int),
{
    if '0' <= c && c <= '9' {
        c as u32 - 48
    } else if 'a' <= c && c <= 'f' {
        c as u32 - 97 + 10
    } else if 'A' <= c && c <= 'F' {
        c as u32 - 65 + 10
    } else {
        16
    }
}

impl Rgb {
    /// Parses `#RRGGBB`, as project colours come from the API.
    pub fn from_hex(s: &str) -> (r: Option<Rgb>)
        ensures
            r == rgb_of_hex(s@),
    {
        let cs = chars_of(s);
        let (a, b) = trim_bounds(&cs);
        let ghost t0 = cs@.subrange(a as int, b as int);
        let mut i = a;
        while i < b && cs[i] == '#'
            invariant
                a <= i <= b <= cs@.len(),
                t0 == cs@.subrange(a as int, b as int),
                strip_hashes(t0) == strip_hashes(cs@.subrange(i as int, b as int)),
            decreases b - i,
        {
            proof {
                let u = cs@.subrange(i as int, b as int);
                assert(u[0] == '#');
                assert(u.drop_first() =~= cs@.subrange(i + 1, b as int));
            }
            i = i + 1;
        }
        let ghost t = cs@.subrange(i as int, b as int);
        proof {
            if i < b {
                assert(t[0] == cs@[i as int]);
            }
            assert(strip_hashes(t) == t);
        }
        if b - i != 6 {
            return None;
        }
        let mut j = i;
        if cs[i] == '+' {
            j = i + 1;
        }
        let ghost ds = cs@.subrange(j as int, b as int);
        let ghost target = rgb_of_hex(s@);
        proof {
            if j == i + 1 {
                assert(t.drop_first() =~= ds);
            } else {
                assert(t =~= ds);
            }
            assert(target == (if ds.len() > 0 && all_hex(ds) {
                Some(rgb_of_value(hex_value(ds)))
            } else {
                None
            }));
        }
        let mut v: u32 = 0;
        let mut k = j;
        while k < b
            invariant
                j <= k <= b,
                b - j <= 6,
                ds == cs@.subrange(j as int, b as int),
                b <= cs@.len(),
                all_hex(cs@.subrange(j as int, k as int)),
                v == hex_value(cs@.subrange(j as int, k as int)),
                target == (if ds.len() > 0 && all_hex(ds) {
                    Some(rgb_of_value(hex_value(ds)))
                } else {
                    None
                }),
                target == rgb_of_hex(s@),
            decreases b - k,
        {
            let d = hex_digit(cs[k]);
            if d == 16 {
                proof {
                    assert(ds[k - j] == cs@[k as int]);
                    assert(!all_hex(ds));
                }
                return None;
            }
            proof {
                let w = cs@.subrange(j as int, k as int);
                lemma_hex_value_bound(w);
                assert(w.len() <= 5);
                assert(pow16(w.len()) <= 0x100000) by {
                    reveal_with_fuel(pow16, 7);
                }
                assert(cs@.subrange(j as int, k + 1).drop_last() =~= w);
            }
            v = v * 16 + d;
            k = k + 1;
        }
        if j == b {
            proof {
                assert(ds.len() == 0);
            }
            return None;
        }
        proof {
            assert(cs@.subrange(j as int, k as int) =~= ds);
            lemma_hex_value_bound(ds);
            assert(pow16(6) == 0x1000000) by {
                reveal_with_fuel(pow16, 7);
            }
            assert(v < 0x1000000u32 ==> (v >> 16u32) == v / 65536 && ((v >> 8u32) & 0xFFu32) == (v
                / 256) % 256 && (v & 0xFFu32) == v % 256) by (bit_vector);
        }
        Some(Rgb((v >> 16u32) as u8, ((v >> 8u32) & 0xFFu32) as u8, (v & 0xFFu32) as u8))
    }
}

/// The colours of the popup.
#[derive(Clone, Copy)]
pub struct Palette {
    pub bg: Rgb,
    pub surface: Rgb,
    pub surface2: Rgb,
    pub border: Rgb,
    pub text: Rgb,
    pub muted: Rgb,
    pub accent: Rgb,
    pub accent_hover: Rgb,
    pub on_accent: Rgb,
    pub success: Rgb,
    pub danger: Rgb,
}

pub open spec fn palette_spec(dark: bool) -> Palette {
    if dark {
        Palette {
            bg: Rgb(0x1C, 0x1C, 0x21),
            surface: Rgb(0x26, 0x26, 0x2D),
            surface2: Rgb(0x30, 0x30, 0x39),
            border: Rgb(0x3B, 0x3B, 0x46),
            text: Rgb(0xF2, 0xF2, 0xF5),
            muted: Rgb(0x9A, 0x9A, 0xA8),
            accent: Rgb(0xE5, 0x5C, 0xA8),
            accent_hover: Rgb(0xF0, 0x74, 0xB8),
            on_accent: Rgb(0xFF, 0xFF, 0xFF),
            success: Rgb(0x3D, 0xD6, 0x8C),
            danger: Rgb(0xF2, 0x6B, 0x66),
        }
    } else {
        Palette {
            bg: Rgb(0xFF, 0xFF, 0xFF),
            surface: Rgb(0xF4, 0xF4, 0xF7),
            surface2: Rgb(0xEC, 0xEC, 0xF1),
            border: Rgb(0xE1, 0xE1, 0xE8),
            text: Rgb(0x1B, 0x1B, 0x1F),
            muted: Rgb(0x6E, 0x6E, 0x7C),
            accent: Rgb(0xDF, 0x3E, 0x98),
            accent_hover: Rgb(0xE9, 0x56, 0xA8),
            on_accent: Rgb(0xFF, 0xFF, 0xFF),
            success: Rgb(0x1D, 0xB3, 0x6B),
            danger: Rgb(0xDE, 0x45, 0x40),
        }
    }
}

/// Whether the popup is drawn dark: an override of `dark` or `light` decides; otherwise the
/// Windows "apps" theme, dark when its `AppsUseLightTheme` value reads as 0.
pub open spec fn dark_theme_spec(theme_override: Option<Seq<char>>, apps_use_light: Option<u32>) -> bool {
    match theme_override {
        Some(o) if o == "dark"@ => true,
        Some(o) if o == "light"@ => false,
        _ => apps_use_light == Some(0u32),
    }
}

pub fn dark_theme(theme_override: Option<&str>, apps_use_light: Option<u32>) -> (b: bool)
    ensures
        b == dark_theme_spec(
            match theme_override {
                Some(o) => Some(o@),
                None => None,
            },
            apps_use_light,
        ),
{
    match theme_override {
        Some(o) => {
            let given = o.to_owned();
            if given == "dark".to_owned() {
                return true;
            }
            if given == "light".to_owned() {
                return false;
            }
        },
        None => {},
    }
    match apps_use_light {
        Some(v) => v == 0,
        None => false,
    }
}

/// The dark or the light palette.
pub fn palette(dark: bool) -> (p: Palette)
    ensures
        p == palette_spec(dark),
{
    if dark {
        Palette {
            bg: Rgb(0x1C, 0x1C, 0x21),
            surface: Rgb(0x26, 0x26, 0x2D),
            surface2: Rgb(0x30, 0x30, 0x39),
            border: Rgb(0x3B, 0x3B, 0x46),
            text: Rgb(0xF2, 0xF2, 0xF5),
            muted: Rgb(0x9A, 0x9A, 0xA8),
            accent: Rgb(0xE5, 0x5C, 0xA8),
            accent_hover: Rgb(0xF0, 0x74, 0xB8),
            on_accent: Rgb(0xFF, 0xFF, 0xFF),
            success: Rgb(0x3D, 0xD6, 0x8C),
            danger: Rgb(0xF2, 0x6B, 0x66),
        }
    } else {
        Palette {
            bg: Rgb(0xFF, 0xFF, 0xFF),
            surface: Rgb(0xF4, 0xF4, 0xF7),
            surface2: Rgb(0xEC, 0xEC, 0xF1),
            border: Rgb(0xE1, 0xE1, 0xE8),
            text: Rgb(0x1B, 0x1B, 0x1F),
            muted: Rgb(0x6E, 0x6E, 0x7C),
            accent: Rgb(0xDF, 0x3E, 0x98),
            accent_hover: Rgb(0xE9, 0x56, 0xA8),
            on_accent: Rgb(0xFF, 0xFF, 0xFF),
            success: Rgb(0x1D, 0xB3, 0x6B),
            danger: Rgb(0xDE, 0x45, 0x40),
        }
    }
}

/// A project as the popup shows it: its name and colour.
#[derive(Clone)]
pub struct ProjectView {
    pub name: String,
    pub color: Option<Rgb>,
}

/// A project as a view shows it, for contracts: its name and colour.
pub open spec fn project_view_of(v: Option<ProjectView>) -> Option<(Seq<char>, Option<Rgb>)> {
    match v {
        Some(p) => Some((p.name@, p.color)),
        None => None,
    }
}

/// The text of an optional string.
pub open spec fn text_of(o: Option<String>) -> Option<Seq<char>> {
    match o {
        Some(s) => Some(s@),
        None => None,
    }
}

/// What a click or a key in the popup asks for.
#[derive(Clone, Copy, PartialEq, Eq, Debug, Structural)]
pub enum Action {
    Start,
    Stop,
    Refresh,
    OpenSettings,
    CloseSettings,
    OpenHistory,
    CloseHistory,
    /// Open the editor on the entry with this id.
    EditEntry(i64),
    CloseEditor,
    SaveEntry,
    DeleteEntry,
    PickProject,
    PickLanguage,
    Recent(usize),
    Save,
    OpenTokenPage,
    /// Another instance was launched: bring the popup up.
    Activate,
    /// The installer asked us to exit.
    Quit,
}

impl Action {
    /// Anything but the confirming click disarms the delete button.
    pub fn disarms_delete(self) -> (b: bool)
        ensures
            b == !(self is DeleteEntry),
    {
        match self {
            Action::DeleteEntry => false,
            _ => true,
        }
    }
}

/// The running entry on the main page.
pub struct RunningView {
    pub id: i64,
    pub desc: String,
    pub project: Option<ProjectView>,
    pub elapsed: String,
}

/// A quick-restart row on the main page.
pub struct RecentView {
    pub desc: String,
    pub project: Option<ProjectView>,
}

/// Everything the main and settings pages show.
pub struct MainView {
    pub busy: bool,
    pub error: Option<String>,
    pub has_token: bool,
    pub running: Option<RunningView>,
    pub project: Option<ProjectView>,
    pub recent: Vec<RecentView>,
    /// Label of the language chip on the settings page.
    pub language: String,
}

/// A row of the history page: a day header with the day's total, or an entry.
pub enum HistoryRow {
    Day { label: String, total: String },
    Entry {
        id: i64,
        desc: String,
        project: Option<ProjectView>,
        /// `HH:MM – HH:MM`, or `HH:MM –` while running.
        range: String,
        duration: String,
        running: bool,
    },
}

/// A history row for contracts.
pub enum RowView {
    Day { label: Seq<char>, total: Seq<char> },
    Entry {
        id: i64,
        desc: Seq<char>,
        project: Option<(Seq<char>, Option<Rgb>)>,
        range: Seq<char>,
        duration: Seq<char>,
        running: bool,
    },
}

pub open spec fn row_view(r: HistoryRow) -> RowView {
    match r {
        HistoryRow::Day { label, total } => RowView::Day { label: label@, total: total@ },
        HistoryRow::Entry { id, desc, project, range, duration, running } => RowView::Entry {
            id,
            desc: desc@,
            project: project_view_of(project),
            range: range@,
            duration: duration@,
            running,
        },
    }
}

/// Everything the history page shows.
pub struct HistoryView {
    pub busy: bool,
    pub error: Option<String>,
    pub has_token: bool,
    pub rows: Vec<HistoryRow>,
}

/// Everything the entry editor shows besides its text fields.
pub struct EditorView {
    pub busy: bool,
    pub error: Option<String>,
    pub project: Option<ProjectView>,
    pub running: bool,
    /// The entry's local date.
    pub date: String,
    /// The duration the time fields imply, None while they don't read.
    pub duration: Option<String>,
    pub delete_armed: bool,
}

} // verus!
