//! How the popup behaves, apart from drawing: its layout at a given DPI, where it opens,
//! which region a point hits, what a click, a key or the wheel does, and what the header
//! says.
use vstd::prelude::*;
use crate::i18n::Strings;
use crate::ui::{Action, Page};

verus! {

/// Window width at 96 DPI.
pub const WIN_W: i32 = 340;
/// Window height of the main page at 96 DPI.
pub const WIN_H_MAIN: i32 = 534;
/// Window height of the settings page at 96 DPI.
pub const WIN_H_SETTINGS: i32 = 386;
pub const PAD: i32 = 16;
pub const HEADER_Y: i32 = 14;
pub const ICON_BTN: i32 = 28;
pub const CONTENT_Y: i32 = 54;
pub const ROW_H: i32 = 40;
pub const RECENT_CAPTION_Y: i32 = 210;
pub const RECENT_ROWS_Y: i32 = 238;

/// A rectangle in client pixels; `right` and `bottom` are exclusive.
#[derive(Clone, Copy, PartialEq, Eq, Debug, Structural)]
pub struct Rect {
    pub left: i32,
    pub top: i32,
    pub right: i32,
    pub bottom: i32,
}

/// The DPI to lay out at: the window's (taken as an `i32` the way `as` converts it), or
/// 96 when the system reports none.
pub fn effective_dpi(raw: u32) -> (d: i32)
    ensures
        d == (if raw == 0 {
            96
        } else {
            raw as i32
        }),
{
    if raw == 0 {
        96
    } else {
        raw as i32
    }
}

/// `v` can be scaled at `dpi` without leaving `i32`.
pub open spec fn scalable(v: int, dpi: int) -> bool {
    i32::MIN <= v * dpi && v * dpi + 48 <= i32::MAX
}

/// A positive DPI at which every coordinate of the layouts (at most 366 pixels at 96 DPI)
/// scales within `i32`.
pub open spec fn valid_dpi(dpi: int) -> bool {
    0 < dpi && scalable(366, dpi)
}

/// `v` 96-DPI pixels at `dpi`, rounded to the nearest pixel (half up, and toward zero
/// below it, as integer division does).
pub open spec fn scale_spec(v: int, dpi: int) -> int {
    div_trunc(v * dpi + 48, 96)
}

pub fn scale(v: i32, dpi: i32) -> (r: i32)
    requires
        scalable(v as int, dpi as int),
    ensures
        r == scale_spec(v as int, dpi as int),
{
    let x: i32 = v * dpi + 48;
    if x >= 0 {
        x / 96
    } else {
        (-((-(x as i64)) / 96)) as i32
    }
}

/// Every coordinate from 0 to `m` scales within `i32` when `m` does.
proof fn lemma_scalable_below(m: int, dpi: int)
    requires
        0 < dpi,
        scalable(m, dpi),
    ensures
        forall|v: int| 0 <= v <= m ==> #[trigger] scalable(v, dpi),
{
    assert forall|v: int| 0 <= v <= m implies #[trigger] scalable(v, dpi) by {
        assert(0 <= v * dpi <= m * dpi) by (nonlinear_arith)
            requires
                0 <= v <= m,
                0 < dpi,
        ;
    }
}

/// The rectangle at (`x`, `y`) of size `w` x `h` in 96-DPI pixels, at `dpi`.
pub open spec fn rect_spec(x: int, y: int, w: int, h: int, dpi: int) -> Rect {
    Rect {
        left: scale_spec(x, dpi) as i32,
        top: scale_spec(y, dpi) as i32,
        right: scale_spec(x + w, dpi) as i32,
        bottom: scale_spec(y + h, dpi) as i32,
    }
}

pub fn rect_at(x: i32, y: i32, w: i32, h: i32, dpi: i32) -> (r: Rect)
    requires
        i32::MIN <= x + w <= i32::MAX,
        i32::MIN <= y + h <= i32::MAX,
        scalable(x as int, dpi as int),
        scalable(y as int, dpi as int),
        scalable(x + w, dpi as int),
        scalable(y + h, dpi as int),
    ensures
        r == rect_spec(x as int, y as int, w as int, h as int, dpi as int),
{
    Rect { left: scale(x, dpi), top: scale(y, dpi), right: scale(x + w, dpi), bottom: scale(y + h, dpi) }
}

/// Where everything sits on the main page.
pub struct MainLayout {
    pub dot: Rect,
    pub caption: Rect,
    pub icon_a: Rect,
    pub icon_b: Rect,
    pub pill: Rect,
    pub chip: Rect,
    pub card: Rect,
    pub button: Rect,
    pub recent_caption: Rect,
    /// The button that opens the history page, at the end of the quick-restart caption.
    pub history: Rect,
    pub divider_y: i32,
    pub rows_y: i32,
    pub row_h: i32,
    /// How many quick-restart rows fit.
    pub rows: usize,
    pub running: bool,
}

/// How many rows of `row_h` fit between `rows_y` and `pad` above the bottom of a client
/// area `ch` high.
pub open spec fn rows_fitting(ch: int, rows_y: int, pad: int, row_h: int) -> int {
    if ch - rows_y - pad <= 0 {
        0
    } else {
        (ch - rows_y - pad) / row_h
    }
}

/// The main page's layout at `dpi` for a client area `ch` pixels high.
pub open spec fn main_layout_spec(dpi: int, ch: int, running: bool) -> MainLayout {
    let inner_w = WIN_W - 2 * PAD;
    MainLayout {
        dot: rect_spec(PAD as int, HEADER_Y + 9, 10, 10, dpi),
        caption: rect_spec(PAD + 18, HEADER_Y as int, inner_w - 18 - 2 * (ICON_BTN + 6), ICON_BTN as int, dpi),
        icon_a: rect_spec(WIN_W - PAD - ICON_BTN, HEADER_Y as int, ICON_BTN as int, ICON_BTN as int, dpi),
        icon_b: rect_spec(WIN_W - PAD - 2 * ICON_BTN - 6, HEADER_Y as int, ICON_BTN as int, ICON_BTN as int, dpi),
        pill: rect_spec(PAD as int, CONTENT_Y as int, inner_w, 44, dpi),
        chip: rect_spec(PAD as int, CONTENT_Y + 52, inner_w, 34, dpi),
        card: rect_spec(PAD as int, CONTENT_Y as int, inner_w, 86, dpi),
        button: rect_spec(PAD as int, CONTENT_Y + 98, inner_w, 44, dpi),
        recent_caption: rect_spec(PAD as int, RECENT_CAPTION_Y as int, inner_w, 16, dpi),
        history: rect_spec(WIN_W - PAD - ICON_BTN, RECENT_CAPTION_Y - 6, ICON_BTN as int, ICON_BTN as int, dpi),
        divider_y: scale_spec(RECENT_CAPTION_Y + 22, dpi) as i32,
        rows_y: scale_spec(RECENT_ROWS_Y as int, dpi) as i32,
        row_h: scale_spec(ROW_H as int, dpi) as i32,
        rows: rows_fitting(
            ch,
            scale_spec(RECENT_ROWS_Y as int, dpi),
            scale_spec(PAD as int, dpi),
            scale_spec(ROW_H as int, dpi),
        ) as usize,
        running,
    }
}

/// How many rows fit (see `rows_fitting`).
pub fn rows_fit(ch: i32, rows_y: i32, pad: i32, row_h: i32) -> (n: usize)
    requires
        0 <= ch,
        0 <= rows_y,
        0 <= pad,
        row_h > 0,
    ensures
        n == rows_fitting(ch as int, rows_y as int, pad as int, row_h as int),
{
    let avail = ch as i64 - rows_y as i64 - pad as i64;
    if avail <= 0 {
        0
    } else {
        (avail / row_h as i64) as usize
    }
}

/// The main page's layout (see `main_layout_spec`).
pub fn layout_main(dpi: i32, ch: i32, running: bool) -> (l: MainLayout)
    requires
        valid_dpi(dpi as int),
        dpi >= 2,
        0 <= ch,
    ensures
        l == main_layout_spec(dpi as int, ch as int, running),
{
    proof {
        lemma_scalable_below(366, dpi as int);
    }
    let inner_w = WIN_W - 2 * PAD;
    let rows_y = scale(RECENT_ROWS_Y, dpi);
    let row_h = scale(ROW_H, dpi);
    let pad = scale(PAD, dpi);
    assert(row_h > 0);
    let rows = rows_fit(ch, rows_y, pad, row_h);
    MainLayout {
        dot: rect_at(PAD, HEADER_Y + 9, 10, 10, dpi),
        caption: rect_at(PAD + 18, HEADER_Y, inner_w - 18 - 2 * (ICON_BTN + 6), ICON_BTN, dpi),
        icon_a: rect_at(WIN_W - PAD - ICON_BTN, HEADER_Y, ICON_BTN, ICON_BTN, dpi),
        icon_b: rect_at(WIN_W - PAD - 2 * ICON_BTN - 6, HEADER_Y, ICON_BTN, ICON_BTN, dpi),
        pill: rect_at(PAD, CONTENT_Y, inner_w, 44, dpi),
        chip: rect_at(PAD, CONTENT_Y + 52, inner_w, 34, dpi),
        card: rect_at(PAD, CONTENT_Y, inner_w, 86, dpi),
        button: rect_at(PAD, CONTENT_Y + 98, inner_w, 44, dpi),
        recent_caption: rect_at(PAD, RECENT_CAPTION_Y, inner_w, 16, dpi),
        history: rect_at(WIN_W - PAD - ICON_BTN, RECENT_CAPTION_Y - 6, ICON_BTN, ICON_BTN, dpi),
        divider_y: scale(RECENT_CAPTION_Y + 22, dpi),
        rows_y,
        row_h,
        rows,
        running,
    }
}

/// The quick-restart row shown `row` rows below the top of the list.
pub open spec fn recent_row_rect(l: MainLayout, dpi: int, row: int) -> Rect {
    Rect {
        left: scale_spec(PAD as int, dpi) as i32,
        top: (l.rows_y + row * l.row_h) as i32,
        right: scale_spec(WIN_W - PAD, dpi) as i32,
        bottom: (l.rows_y + (row + 1) * l.row_h) as i32,
    }
}

/// How many of `n` quick-restart items show from item `scroll` on, `rows` fitting.
pub open spec fn shown_rows(scroll: int, rows: int, n: int) -> int {
    if scroll >= n {
        0
    } else if n - scroll < rows {
        n - scroll
    } else {
        rows
    }
}

/// The main page's clickable regions, in the order a point is tested against them: the
/// settings and refresh buttons; the running entry's card (which opens it in the editor)
/// and the stop button, or the project chip and the start button; the history button;
/// then the rows of quick-restart items `scroll`, `scroll + 1`, ... that fit.
pub open spec fn main_regions_spec(l: MainLayout, dpi: int, running: Option<i64>, scroll: int, n: int) -> Seq<
    (Rect, Action),
> {
    seq![(l.icon_a, Action::OpenSettings), (l.icon_b, Action::Refresh)] + match running {
        Some(id) => seq![(l.card, Action::EditEntry(id)), (l.button, Action::Stop)],
        None => seq![(l.chip, Action::PickProject), (l.button, Action::Start)],
    } + seq![(l.history, Action::OpenHistory)] + Seq::new(
        shown_rows(scroll, l.rows as int, n) as nat,
        |k: int| (recent_row_rect(l, dpi, k), Action::Recent((scroll + k) as usize)),
    )
}

/// The main page's clickable regions at `dpi` for a client area `ch` high, with the
/// running entry's id if one runs, the list scrolled to item `scroll`, and `n_recent`
/// quick-restart items (see `main_regions_spec`).
pub fn main_regions(dpi: i32, ch: i32, running: Option<i64>, scroll: usize, n_recent: usize) -> (r: Vec<
    (Rect, Action),
>)
    requires
        valid_dpi(dpi as int),
        dpi >= 2,
        0 <= ch,
    ensures
        r@ == main_regions_spec(
            main_layout_spec(dpi as int, ch as int, running is Some),
            dpi as int,
            running,
            scroll as int,
            n_recent as int,
        ),
{
    proof {
        lemma_scalable_below(366, dpi as int);
    }
    let l = layout_main(dpi, ch, running.is_some());
    let mut r: Vec<(Rect, Action)> = Vec::new();
    r.push((l.icon_a, Action::OpenSettings));
    r.push((l.icon_b, Action::Refresh));
    match running {
        Some(id) => {
            r.push((l.card, Action::EditEntry(id)));
            r.push((l.button, Action::Stop));
        },
        None => {
            r.push((l.chip, Action::PickProject));
            r.push((l.button, Action::Start));
        },
    }
    r.push((l.history, Action::OpenHistory));
    let ghost head = r@;
    let count: usize = if scroll >= n_recent {
        0
    } else if n_recent - scroll < l.rows {
        n_recent - scroll
    } else {
        l.rows
    };
    let left = scale(PAD, dpi);
    let right = scale(WIN_W - PAD, dpi);
    let pad = scale(PAD, dpi);
    proof {
        let avail = ch - l.rows_y - pad;
        if l.rows > 0 {
            assert(l.rows as int * l.row_h <= avail) by (nonlinear_arith)
                requires
                    l.rows as int == avail / (l.row_h as int),
                    l.row_h > 0,
                    avail > 0,
            ;
        }
    }
    let ghost f = |k: int| (recent_row_rect(l, dpi as int, k), Action::Recent((scroll + k) as usize));
    let mut k: usize = 0;
    while k < count
        invariant
            k <= count <= l.rows,
            count == shown_rows(scroll as int, l.rows as int, n_recent as int),
            l == main_layout_spec(dpi as int, ch as int, running is Some),
            l.row_h > 0,
            l.rows_y >= 0,
            count > 0 ==> l.rows as int * l.row_h <= ch - l.rows_y - pad,
            pad >= 0,
            left == scale_spec(PAD as int, dpi as int),
            right == scale_spec(WIN_W - PAD, dpi as int),
            r@ == head + Seq::new(k as nat, f),
            f == (|k: int| (recent_row_rect(l, dpi as int, k), Action::Recent((scroll + k) as usize))),
        decreases count - k,
    {
        proof {
            assert((k + 1) * l.row_h <= l.rows as int * l.row_h) by (nonlinear_arith)
                requires
                    k < l.rows,
                    l.row_h > 0,
            ;
            assert(0 <= k * l.row_h && k * l.row_h + l.row_h == (k + 1) * l.row_h) by (nonlinear_arith)
                requires
                    l.row_h > 0,
            ;
            assert(l.rows_y + (k + 1) * l.row_h <= ch);
        }
        let top: i64 = l.rows_y as i64 + k as i64 * l.row_h as i64;
        let bottom: i64 = top + l.row_h as i64;
        r.push((Rect { left, top: top as i32, right, bottom: bottom as i32 }, Action::Recent(scroll + k)));
        proof {
            assert(r@ =~= head + Seq::new((k + 1) as nat, f));
        }
        k = k + 1;
    }
    r
}

/// Where everything sits on the settings page.
pub struct SettingsLayout {
    pub caption: Rect,
    pub back: Rect,
    pub label: Rect,
    pub pill: Rect,
    pub hint: Rect,
    pub link: Rect,
    pub divider_y: i32,
    pub lang_label: Rect,
    pub lang_chip: Rect,
    pub error: Rect,
    pub button: Rect,
}

/// The settings page's layout at `dpi`.
pub open spec fn settings_layout_spec(dpi: int) -> SettingsLayout {
    let inner_w = WIN_W - 2 * PAD;
    SettingsLayout {
        caption: rect_spec(PAD + 18, HEADER_Y as int, inner_w - 18 - ICON_BTN - 6, ICON_BTN as int, dpi),
        back: rect_spec(PAD - 6, HEADER_Y as int, ICON_BTN as int, ICON_BTN as int, dpi),
        label: rect_spec(PAD as int, CONTENT_Y as int, inner_w, 20, dpi),
        pill: rect_spec(PAD as int, CONTENT_Y + 26, inner_w, 44, dpi),
        hint: rect_spec(PAD as int, CONTENT_Y + 80, inner_w, 40, dpi),
        link: rect_spec(PAD as int, CONTENT_Y + 122, inner_w, 18, dpi),
        divider_y: scale_spec(CONTENT_Y + 156, dpi) as i32,
        lang_label: rect_spec(PAD as int, CONTENT_Y + 170, inner_w, 20, dpi),
        lang_chip: rect_spec(PAD as int, CONTENT_Y + 196, inner_w, 34, dpi),
        error: rect_spec(PAD as int, CONTENT_Y + 244, inner_w, 18, dpi),
        button: rect_spec(PAD as int, CONTENT_Y + 268, inner_w, 44, dpi),
    }
}

/// The settings page's layout (see `settings_layout_spec`).
pub fn layout_settings(dpi: i32) -> (l: SettingsLayout)
    requires
        valid_dpi(dpi as int),
    ensures
        l == settings_layout_spec(dpi as int),
{
    proof {
        lemma_scalable_below(366, dpi as int);
    }
    let inner_w = WIN_W - 2 * PAD;
    SettingsLayout {
        caption: rect_at(PAD + 18, HEADER_Y, inner_w - 18 - ICON_BTN - 6, ICON_BTN, dpi),
        back: rect_at(PAD - 6, HEADER_Y, ICON_BTN, ICON_BTN, dpi),
        label: rect_at(PAD, CONTENT_Y, inner_w, 20, dpi),
        pill: rect_at(PAD, CONTENT_Y + 26, inner_w, 44, dpi),
        hint: rect_at(PAD, CONTENT_Y + 80, inner_w, 40, dpi),
        link: rect_at(PAD, CONTENT_Y + 122, inner_w, 18, dpi),
        divider_y: scale(CONTENT_Y + 156, dpi),
        lang_label: rect_at(PAD, CONTENT_Y + 170, inner_w, 20, dpi),
        lang_chip: rect_at(PAD, CONTENT_Y + 196, inner_w, 34, dpi),
        error: rect_at(PAD, CONTENT_Y + 244, inner_w, 18, dpi),
        button: rect_at(PAD, CONTENT_Y + 268, inner_w, 44, dpi),
    }
}

/// Window height of the history page at 96 DPI.
pub const WIN_H_HISTORY: i32 = 534;
/// Window height of the entry editor at 96 DPI.
pub const WIN_H_EDIT: i32 = 356;

/// Where everything sits on the history page.
pub struct HistoryLayout {
    pub back: Rect,
    pub caption: Rect,
    pub rows_y: i32,
    pub row_h: i32,
    /// How many rows fit.
    pub rows: usize,
}

/// The history page's layout at `dpi` for a client area `ch` pixels high: a header like
/// the settings page's, then rows of the main page's row height.
pub open spec fn history_layout_spec(dpi: int, ch: int) -> HistoryLayout {
    HistoryLayout {
        back: rect_spec(PAD - 6, HEADER_Y as int, ICON_BTN as int, ICON_BTN as int, dpi),
        caption: rect_spec(PAD + 28, HEADER_Y as int, WIN_W - 2 * PAD - 28, ICON_BTN as int, dpi),
        rows_y: scale_spec(CONTENT_Y as int, dpi) as i32,
        row_h: scale_spec(ROW_H as int, dpi) as i32,
        rows: rows_fitting(
            ch,
            scale_spec(CONTENT_Y as int, dpi),
            scale_spec(PAD as int, dpi),
            scale_spec(ROW_H as int, dpi),
        ) as usize,
    }
}

pub fn layout_history(dpi: i32, ch: i32) -> (l: HistoryLayout)
    requires
        valid_dpi(dpi as int),
        dpi >= 2,
        0 <= ch,
    ensures
        l == history_layout_spec(dpi as int, ch as int),
{
    proof {
        lemma_scalable_below(366, dpi as int);
    }
    let rows_y = scale(CONTENT_Y, dpi);
    let row_h = scale(ROW_H, dpi);
    let pad = scale(PAD, dpi);
    HistoryLayout {
        back: rect_at(PAD - 6, HEADER_Y, ICON_BTN, ICON_BTN, dpi),
        caption: rect_at(PAD + 28, HEADER_Y, WIN_W - 2 * PAD - 28, ICON_BTN, dpi),
        rows_y,
        row_h,
        rows: rows_fit(ch, rows_y, pad, row_h),
    }
}

/// Where everything sits in the entry editor.
pub struct EditLayout {
    pub back: Rect,
    pub caption: Rect,
    pub date: Rect,
    pub pill: Rect,
    pub start_pill: Rect,
    pub stop_pill: Rect,
    pub duration: Rect,
    pub chip: Rect,
    pub error: Rect,
    pub delete: Rect,
    pub save: Rect,
}

/// The editor's layout at `dpi`: the description, the start and stop fields side by side,
/// the duration they imply, the project chip, and the delete and save buttons side by side.
pub open spec fn edit_layout_spec(dpi: int) -> EditLayout {
    let inner_w = WIN_W - 2 * PAD;
    let half = (inner_w - 8) / 2;
    EditLayout {
        back: rect_spec(PAD - 6, HEADER_Y as int, ICON_BTN as int, ICON_BTN as int, dpi),
        caption: rect_spec(PAD + 28, HEADER_Y as int, inner_w - 28, ICON_BTN as int, dpi),
        date: rect_spec(PAD as int, CONTENT_Y as int, inner_w, 20, dpi),
        pill: rect_spec(PAD as int, CONTENT_Y + 24, inner_w, 44, dpi),
        start_pill: rect_spec(PAD as int, CONTENT_Y + 78, half, 40, dpi),
        stop_pill: rect_spec(PAD + half + 8, CONTENT_Y + 78, half, 40, dpi),
        duration: rect_spec(PAD as int, CONTENT_Y + 122, inner_w, 20, dpi),
        chip: rect_spec(PAD as int, CONTENT_Y + 148, inner_w, 34, dpi),
        error: rect_spec(PAD as int, CONTENT_Y + 188, inner_w, 18, dpi),
        delete: rect_spec(PAD as int, CONTENT_Y + 212, half, 44, dpi),
        save: rect_spec(PAD + half + 8, CONTENT_Y + 212, half, 44, dpi),
    }
}

pub fn layout_edit(dpi: i32) -> (l: EditLayout)
    requires
        valid_dpi(dpi as int),
    ensures
        l == edit_layout_spec(dpi as int),
{
    proof {
        lemma_scalable_below(366, dpi as int);
    }
    let inner_w = WIN_W - 2 * PAD;
    let half = (inner_w - 8) / 2;
    EditLayout {
        back: rect_at(PAD - 6, HEADER_Y, ICON_BTN, ICON_BTN, dpi),
        caption: rect_at(PAD + 28, HEADER_Y, inner_w - 28, ICON_BTN, dpi),
        date: rect_at(PAD, CONTENT_Y, inner_w, 20, dpi),
        pill: rect_at(PAD, CONTENT_Y + 24, inner_w, 44, dpi),
        start_pill: rect_at(PAD, CONTENT_Y + 78, half, 40, dpi),
        stop_pill: rect_at(PAD + half + 8, CONTENT_Y + 78, half, 40, dpi),
        duration: rect_at(PAD, CONTENT_Y + 122, inner_w, 20, dpi),
        chip: rect_at(PAD, CONTENT_Y + 148, inner_w, 34, dpi),
        error: rect_at(PAD, CONTENT_Y + 188, inner_w, 18, dpi),
        delete: rect_at(PAD, CONTENT_Y + 212, half, 44, dpi),
        save: rect_at(PAD + half + 8, CONTENT_Y + 212, half, 44, dpi),
    }
}

/// `a / b` rounded toward zero, as Rust divides, for `b > 0`.
pub open spec fn div_trunc(a: int, b: int) -> int {
    if a >= 0 {
        a / b
    } else {
        -((-a) / b)
    }
}

fn half(a: i32) -> (r: i32)
    ensures
        r == div_trunc(a as int, 2),
{
    if a >= 0 {
        a / 2
    } else {
        -((-(a as i64)) / 2) as i32
    }
}

/// The text field inside `pill`: 20 pixels high (at 96 DPI), centred vertically, 14 pixels
/// in from each side.
pub open spec fn edit_rect_spec(pill: Rect, dpi: int) -> Rect {
    let edit_h = scale_spec(20, dpi);
    let pad = scale_spec(14, dpi);
    let top = pill.top + div_trunc(pill.bottom - pill.top - edit_h, 2);
    Rect { left: (pill.left + pad) as i32, top: top as i32, right: (pill.right - pad) as i32, bottom: (top + edit_h) as i32 }
}

/// The rectangle stays well inside `i32`.
pub open spec fn moderate(r: Rect) -> bool {
    &&& -1_000_000_000 <= r.left <= 1_000_000_000
    &&& -1_000_000_000 <= r.top <= 1_000_000_000
    &&& -1_000_000_000 <= r.right <= 1_000_000_000
    &&& -1_000_000_000 <= r.bottom <= 1_000_000_000
}

/// The text field of `pill` can be computed within `i32`.
pub open spec fn edit_rect_fits(pill: Rect, dpi: int) -> bool {
    let edit_h = scale_spec(20, dpi);
    let pad = scale_spec(14, dpi);
    let gap = pill.bottom - pill.top - edit_h;
    let top = pill.top + div_trunc(gap, 2);
    &&& i32::MIN <= pill.bottom - pill.top <= i32::MAX
    &&& i32::MIN <= gap <= i32::MAX
    &&& i32::MIN <= top <= i32::MAX
    &&& i32::MIN <= pill.left + pad <= i32::MAX
    &&& i32::MIN <= pill.right - pad <= i32::MAX
    &&& i32::MIN <= top + edit_h <= i32::MAX
}

pub fn edit_rect_in(pill: &Rect, dpi: i32) -> (r: Rect)
    requires
        valid_dpi(dpi as int),
        edit_rect_fits(*pill, dpi as int),
    ensures
        r == edit_rect_spec(*pill, dpi as int),
{
    proof {
        lemma_scalable_below(366, dpi as int);
    }
    let edit_h = scale(20, dpi);
    let pad = scale(14, dpi);
    let top = pill.top + half(pill.bottom - pill.top - edit_h);
    Rect { left: pill.left + pad, top, right: pill.right - pad, bottom: top + edit_h }
}

// ---------------------------------------------------------------- input

/// The point lies in `r`.
pub open spec fn contains(r: Rect, x: int, y: int) -> bool {
    r.left <= x < r.right && r.top <= y < r.bottom
}

/// The first of `regions` that contains (`x`, `y`).
pub fn hit(regions: &Vec<(Rect, Action)>, x: i32, y: i32) -> (r: Option<usize>)
    ensures
        match r {
            Some(i) => i < regions@.len() && contains(regions@[i as int].0, x as int, y as int)
                && forall|j: int| 0 <= j < i ==> !contains(#[trigger] regions@[j].0, x as int, y as int),
            None => forall|j: int|
                0 <= j < regions@.len() ==> !contains(#[trigger] regions@[j].0, x as int, y as int),
        },
{
    let mut i: usize = 0;
    while i < regions.len()
        invariant
            i <= regions@.len(),
            forall|j: int| 0 <= j < i ==> !contains(#[trigger] regions@[j].0, x as int, y as int),
        decreases regions@.len() - i,
    {
        let r = regions[i].0;
        if x >= r.left && x < r.right && y >= r.top && y < r.bottom {
            return Some(i);
        }
        i = i + 1;
    }
    None
}

/// The action of region `i`, if there is one.
pub fn action_at(regions: &Vec<(Rect, Action)>, i: usize) -> (r: Option<Action>)
    ensures
        r == (if i < regions@.len() {
            Some(regions@[i as int].1)
        } else {
            None
        }),
{
    if i < regions.len() {
        Some(regions[i].1)
    } else {
        None
    }
}

/// The region under the pointer shows the hover look for `action`.
pub fn hovered(regions: &Vec<(Rect, Action)>, hover: Option<usize>, action: Action) -> (b: bool)
    ensures
        b == (hover matches Some(i) && i < regions@.len() && regions@[i as int].1 == action),
{
    match hover {
        Some(i) => i < regions.len() && regions[i].1 == action,
        None => false,
    }
}

/// A click: the button went down and came up on the same region, whose action it asks for.
pub fn click(regions: &Vec<(Rect, Action)>, down: Option<usize>, up: Option<usize>) -> (r: Option<Action>)
    ensures
        r == (match (down, up) {
            (Some(d), Some(u)) => if d == u && u < regions@.len() {
                Some(regions@[u as int].1)
            } else {
                None
            },
            _ => None,
        }),
{
    match (down, up) {
        (Some(d), Some(u)) => if d == u {
            action_at(regions, u)
        } else {
            None
        },
        _ => None,
    }
}

/// The quick-restart list's scroll position after a wheel notch: up (`delta > 0`) one row
/// toward the top, stopping there; down one row.
pub fn wheel_scroll(cur: usize, delta: i32) -> (r: usize)
    requires
        delta > 0 || cur < usize::MAX,
    ensures
        r == (if delta > 0 {
            if cur > 0 {
                cur - 1
            } else {
                0
            }
        } else {
            cur + 1
        }),
{
    if delta > 0 {
        cur.saturating_sub(1)
    } else {
        cur + 1
    }
}

/// The scroll position kept within the list: at most `len - rows` (0 when all fit), so
/// the visible rows `scroll .. scroll + rows` end no later than the list.
pub fn clamp_scroll(scroll: usize, len: usize, rows: usize) -> (r: usize)
    ensures
        r == (if len > rows {
            if scroll < len - rows {
                scroll
            } else {
                (len - rows) as usize
            }
        } else {
            0
        }),
        r <= scroll,
        len >= rows ==> r + rows <= len,
{
    let max_scroll = len.saturating_sub(rows);
    if scroll < max_scroll {
        scroll
    } else {
        max_scroll
    }
}

/// What the header's status line says.
#[derive(Clone, Copy, PartialEq, Eq, Debug, Structural)]
pub enum Status {
    Syncing,
    /// The last request failed; the caption is its message.
    Failed,
    /// A timer runs: the only state with a filled dot.
    Tracking,
    Stopped,
}

/// A request in flight wins over an error, which wins over the timer.
pub fn header_status(busy: bool, has_error: bool, running: bool) -> (s: Status)
    ensures
        s == (if busy {
            Status::Syncing
        } else if has_error {
            Status::Failed
        } else if running {
            Status::Tracking
        } else {
            Status::Stopped
        }),
{
    if busy {
        Status::Syncing
    } else if has_error {
        Status::Failed
    } else if running {
        Status::Tracking
    } else {
        Status::Stopped
    }
}

/// The two keys the text field passes on.
#[derive(Clone, Copy, PartialEq, Eq, Debug, Structural)]
pub enum Key {
    Enter,
    Escape,
}

/// What a key does.
#[derive(Clone, Copy, PartialEq, Eq, Debug, Structural)]
pub enum KeyOutcome {
    Perform(Action),
    /// Close the popup.
    Hide,
    Ignore,
}

/// Enter confirms the page (start, save the token, save the entry); Escape backs out of
/// it, or hides the popup from the main page.
pub open spec fn key_outcome_spec(page: Page, key: Key) -> KeyOutcome {
    match (page, key) {
        (Page::Main, Key::Enter) => KeyOutcome::Perform(Action::Start),
        (Page::Main, Key::Escape) => KeyOutcome::Hide,
        (Page::Settings, Key::Enter) => KeyOutcome::Perform(Action::Save),
        (Page::Settings, Key::Escape) => KeyOutcome::Perform(Action::CloseSettings),
        (Page::History, Key::Enter) => KeyOutcome::Ignore,
        (Page::History, Key::Escape) => KeyOutcome::Perform(Action::CloseHistory),
        (Page::Edit, Key::Enter) => KeyOutcome::Perform(Action::SaveEntry),
        (Page::Edit, Key::Escape) => KeyOutcome::Perform(Action::CloseEditor),
    }
}

pub fn key_outcome(page: Page, key: Key) -> (r: KeyOutcome)
    ensures
        r == key_outcome_spec(page, key),
{
    match (page, key) {
        (Page::Main, Key::Enter) => KeyOutcome::Perform(Action::Start),
        (Page::Main, Key::Escape) => KeyOutcome::Hide,
        (Page::Settings, Key::Enter) => KeyOutcome::Perform(Action::Save),
        (Page::Settings, Key::Escape) => KeyOutcome::Perform(Action::CloseSettings),
        (Page::History, Key::Enter) => KeyOutcome::Ignore,
        (Page::History, Key::Escape) => KeyOutcome::Perform(Action::CloseHistory),
        (Page::Edit, Key::Enter) => KeyOutcome::Perform(Action::SaveEntry),
        (Page::Edit, Key::Escape) => KeyOutcome::Perform(Action::CloseEditor),
    }
}

/// The line under the quick-restart caption when the list is empty.
pub fn recent_placeholder(has_token: bool, s: &Strings) -> (r: &'static str)
    ensures
        r == (if has_token {
            s.no_entries
        } else {
            s.need_token
        }),
{
    if has_token {
        s.no_entries
    } else {
        s.need_token
    }
}

// ---------------------------------------------------------------- placement

pub open spec fn clamp_spec(v: int, lo: int, hi: int) -> int {
    if v < lo {
        lo
    } else if v > hi {
        hi
    } else {
        v
    }
}

pub open spec fn max_spec(a: int, b: int) -> int {
    if a > b {
        a
    } else {
        b
    }
}

/// Where the popup would go before it is kept on screen: where the user last dragged it,
/// else centred above the pointer, `gap` away, or below it when there is no room above.
pub open spec fn wanted_spot(pinned: Option<(i32, i32)>, cursor: (i32, i32), w: int, h: int, work: Rect, gap: int) -> (int, int) {
    match pinned {
        Some((px, py)) => (px as int, py as int),
        None => {
            let y = cursor.1 - h - gap;
            (cursor.0 - div_trunc(w, 2), if y < work.top {
                cursor.1 + gap
            } else {
                y
            })
        },
    }
}

/// The popup's top-left corner: the wanted spot moved as little as needed to keep the
/// window inside the work area (its top-left corner, when it is larger than the area).
pub open spec fn popup_position_spec(pinned: Option<(i32, i32)>, cursor: (i32, i32), w: int, h: int, work: Rect, gap: int) -> (int, int) {
    let (x, y) = wanted_spot(pinned, cursor, w, h, work, gap);
    (
        clamp_spec(x, work.left as int, max_spec(work.right - w, work.left as int)),
        clamp_spec(y, work.top as int, max_spec(work.bottom - h, work.top as int)),
    )
}

/// Screen coordinates and sizes stay well inside `i32`.
pub open spec fn placeable(cursor: (i32, i32), w: int, h: int, work: Rect, gap: int) -> bool {
    &&& moderate(work)
    &&& -1_000_000_000 <= cursor.0 <= 1_000_000_000
    &&& -1_000_000_000 <= cursor.1 <= 1_000_000_000
    &&& 0 <= w <= 1_000_000_000
    &&& 0 <= h <= 1_000_000_000
    &&& 0 <= gap <= 100_000_000
}

/// Where the popup opens (see `popup_position_spec`); when it fits in the work area it lies
/// wholly inside it.
pub fn popup_position(pinned: Option<(i32, i32)>, cursor: (i32, i32), w: i32, h: i32, work: Rect, gap: i32) -> (r: (i32, i32))
    requires
        placeable(cursor, w as int, h as int, work, gap as int),
    ensures
        (r.0 as int, r.1 as int) == popup_position_spec(pinned, cursor, w as int, h as int, work, gap as int),
        w <= work.right - work.left ==> work.left <= r.0 && r.0 + w <= work.right,
        h <= work.bottom - work.top ==> work.top <= r.1 && r.1 + h <= work.bottom,
        pinned matches Some((px, py)) ==> (work.left <= px && px + w <= work.right && work.top
            <= py && py + h <= work.bottom ==> r == (px, py)),
{
    let (x, y) = match pinned {
        Some((px, py)) => (px, py),
        None => {
            let y = cursor.1 - h - gap;
            (cursor.0 - half(w), if y < work.top {
                cursor.1 + gap
            } else {
                y
            })
        },
    };
    let x_max = if work.right - w > work.left {
        work.right - w
    } else {
        work.left
    };
    let y_max = if work.bottom - h > work.top {
        work.bottom - h
    } else {
        work.top
    };
    let x = if x < work.left {
        work.left
    } else if x > x_max {
        x_max
    } else {
        x
    };
    let y = if y < work.top {
        work.top
    } else if y > y_max {
        y_max
    } else {
        y
    };
    (x, y)
}

// ---------------------------------------------------------------- pickers

/// The command id of a picker entry: 1 for the "none" entry, `2 + i` for name `i`.
pub open spec fn menu_id_spec(item: Option<usize>) -> int {
    match item {
        Some(i) => 2 + i,
        None => 1,
    }
}

pub fn menu_id(item: Option<usize>) -> (id: usize)
    requires
        item matches Some(i) ==> i < usize::MAX - 2,
    ensures
        id == menu_id_spec(item),
{
    match item {
        Some(i) => 2 + i,
        None => 1,
    }
}

/// What the picker's answer means: 0 is a cancel (None), 1 the "none" entry (Some(None)),
/// `n` name `n - 2`.
pub fn menu_choice(id: usize) -> (r: Option<Option<usize>>)
    ensures
        id == 0 ==> r is None,
        id == 1 ==> r == Some(None::<usize>),
        id >= 2 ==> r == Some(Some((id - 2) as usize)),
        r matches Some(item) ==> menu_id_spec(item) == id,
{
    if id == 0 {
        None
    } else if id == 1 {
        Some(None)
    } else {
        Some(Some(id - 2))
    }
}

} // verus!
