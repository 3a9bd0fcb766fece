//! What the popup and the tray show, computed from the state: the main page, the history
//! page, the entry editor, and the tray's tooltip and menu text.
use vstd::prelude::*;
use crate::api::{clone_opt_string, desc_spec, elapsed_in_range, elapsed_spec, start_secs, Project, TimeEntry};
use crate::calendar::civil_from_days_spec;
use crate::edit::{clock_hm, edited_times, edited_times_spec, lemma_same_day, orig_stop, stop_in_range, stop_secs};
use crate::i18n::{
    current, current_of, date_label, date_label_spec, native_name_spec, preference, preference_of,
    strings_spec, t, Lang, LangState, Strings,
};
use crate::state::{project_spec, project_view_spec, State};
use crate::text::push_str;
use crate::ui::{
    project_view_of, row_view, text_of, EditorView, HistoryRow, HistoryView, MainView, RecentView,
    RowView, RunningView,
};
use crate::util::{
    fmt_hms, fmt_hms_spec, is_local_time, lemma_parsed_range, local_day, parse_rfc3339, shiftable,
    to_local, truncate, truncate_spec, valid_offset, LocalTime,
};

verus! {

// ---------------------------------------------------------------- main page

/// The label of the language chip: the chosen language, or "automatic (language in effect)".
pub open spec fn language_label_spec(st: LangState) -> Seq<char> {
    match preference_of(st) {
        Some(l) => native_name_spec(l)@,
        None => strings_spec(current_of(st)).language_auto@ + seq![' ', '('] + native_name_spec(
            current_of(st),
        )@ + seq![')'],
    }
}

pub fn language_label(st: &LangState) -> (r: String)
    ensures
        r@ == language_label_spec(*st),
{
    let mut out = String::new();
    match preference(st) {
        Some(l) => push_str(&mut out, l.native_name()),
        None => {
            let cur = current(st);
            push_str(&mut out, cur.strings().language_auto);
            out.push(' ');
            out.push('(');
            push_str(&mut out, cur.native_name());
            out.push(')');
        },
    }
    out
}

/// The running entry's elapsed time can be computed at `now`.
pub open spec fn running_ok(st: State, now: int) -> bool {
    st.current matches Some(c) ==> elapsed_in_range(c, now)
}

/// The main page at `now`.
pub fn main_view(st: &State, now: i64, has_token: bool, lang: &LangState) -> (v: MainView)
    requires
        running_ok(*st, now as int),
    ensures
        v.busy == st.busy,
        text_of(v.error) == text_of(st.last_error),
        v.has_token == has_token,
        match st.current {
            Some(c) => v.running matches Some(r) && r.id == c.id && r.desc@ == desc_spec(c)
                && project_view_of(r.project) == project_view_spec(st.projects@, c.project_id)
                && r.elapsed@ == fmt_hms_spec(elapsed_spec(c, now as int)),
            None => v.running is None,
        },
        project_view_of(v.project) == project_view_spec(st.projects@, st.selected_project),
        v.recent@.len() == st.recent@.len(),
        forall|i: int|
            #![trigger v.recent@[i]]
            0 <= i < st.recent@.len() ==> v.recent@[i].desc@ == st.recent@[i].description@
                && project_view_of(v.recent@[i].project) == project_view_spec(
                st.projects@,
                st.recent@[i].project_id,
            ),
        v.language@ == language_label_spec(*lang),
{
    let running = match &st.current {
        Some(c) => {
            let mut desc = String::new();
            push_str(&mut desc, c.desc());
            Some(
                RunningView {
                    id: c.id,
                    desc,
                    project: st.project_view(c.project_id),
                    elapsed: fmt_hms(c.elapsed(now)),
                },
            )
        },
        None => None,
    };
    let mut recent: Vec<RecentView> = Vec::new();
    let mut i: usize = 0;
    while i < st.recent.len()
        invariant
            i <= st.recent@.len(),
            recent@.len() == i,
            forall|j: int|
                #![trigger recent@[j]]
                0 <= j < i ==> recent@[j].desc@ == st.recent@[j].description@ && project_view_of(
                    recent@[j].project,
                ) == project_view_spec(st.projects@, st.recent@[j].project_id),
        decreases st.recent@.len() - i,
    {
        let r = &st.recent[i];
        recent.push(RecentView { desc: r.description.clone(), project: st.project_view(r.project_id) });
        i = i + 1;
    }
    MainView {
        busy: st.busy,
        error: clone_opt_string(&st.last_error),
        has_token,
        running,
        project: st.project_view(st.selected_project),
        recent,
        language: language_label(lang),
    }
}

// ---------------------------------------------------------------- tray

/// The description a running entry is shown with.
pub open spec fn shown_desc(c: TimeEntry, s: Strings) -> Seq<char> {
    if desc_spec(c).len() == 0 {
        s.no_description@
    } else {
        desc_spec(c)
    }
}

/// The tray's tooltip and the text of its start/stop menu item.
pub open spec fn tray_spec(st: State, now: int, s: Strings) -> (Seq<char>, Seq<char>) {
    match st.current {
        Some(c) => {
            let elapsed = fmt_hms_spec(elapsed_spec(c, now));
            let d = shown_desc(c, s);
            let proj = match project_spec(st.projects@, c.project_id) {
                Some(p) => "  \u{b7}  "@ + p.name@,
                None => Seq::empty(),
            };
            (
                truncate_spec(
                    "Togglite \u{25b6} "@ + truncate_spec(d, 60) + seq![' ', '('] + elapsed + seq![')']
                        + proj,
                    120,
                ),
                s.menu_stop@ + seq![':', ' '] + truncate_spec(d, 40) + seq![' ', '('] + elapsed + seq![
                    ')',
                ],
            )
        },
        None => (truncate_spec(s.tip_stopped@, 120), s.menu_start@),
    }
}

/// The tray's tooltip and menu text at `now` (see `tray_spec`).
pub fn tray_texts(st: &State, now: i64, s: &Strings) -> (r: (String, String))
    requires
        running_ok(*st, now as int),
    ensures
        r.0@ == tray_spec(*st, now as int, *s).0,
        r.1@ == tray_spec(*st, now as int, *s).1,
{
    match &st.current {
        Some(c) => {
            let elapsed = fmt_hms(c.elapsed(now));
            let d: &str = if c.desc().is_empty() {
                s.no_description
            } else {
                c.desc()
            };
            let mut tip = String::new();
            push_str(&mut tip, "Togglite \u{25b6} ");
            let short = truncate(d, 60);
            push_str(&mut tip, short.as_str());
            tip.push(' ');
            tip.push('(');
            push_str(&mut tip, elapsed.as_str());
            tip.push(')');
            match st.project(c.project_id) {
                Some(p) => {
                    push_str(&mut tip, "  \u{b7}  ");
                    push_str(&mut tip, p.name.as_str());
                },
                None => {},
            }
            let mut menu = String::new();
            push_str(&mut menu, s.menu_stop);
            menu.push(':');
            menu.push(' ');
            let shorter = truncate(d, 40);
            push_str(&mut menu, shorter.as_str());
            menu.push(' ');
            menu.push('(');
            push_str(&mut menu, elapsed.as_str());
            menu.push(')');
            (truncate(tip.as_str(), 120), menu)
        },
        None => {
            let mut menu = String::new();
            push_str(&mut menu, s.menu_start);
            (truncate(s.tip_stopped, 120), menu)
        },
    }
}

// ---------------------------------------------------------------- history page

/// The start an entry is listed with: its own, or the epoch if it does not read.
pub open spec fn shown_start(e: TimeEntry) -> int {
    match start_secs(e) {
        Some(v) => v,
        None => 0,
    }
}

/// The local day an entry is listed under.
pub open spec fn day_of(e: TimeEntry, offset: int) -> int {
    local_day(shown_start(e), offset)
}

/// How many entries at the front of `es` fall on the local day `d`.
pub open spec fn run_len(es: Seq<TimeEntry>, d: int, offset: int) -> nat
    decreases es.len(),
{
    if es.len() > 0 && day_of(es[0], offset) == d {
        1 + run_len(es.drop_first(), d, offset)
    } else {
        0
    }
}

/// The seconds `es` add up to at `now`.
pub open spec fn elapsed_sum(es: Seq<TimeEntry>, now: int) -> int
    decreases es.len(),
{
    if es.len() == 0 {
        0
    } else {
        elapsed_sum(es.drop_last(), now) + elapsed_spec(es.last(), now)
    }
}

/// The header of local day `z` when today is local day `today`: "Today", "Yesterday",
/// or the date.
pub open spec fn day_label_spec(z: int, today: int, lang: Lang) -> Seq<char> {
    if today - z == 0 {
        strings_spec(lang).today@
    } else if today - z == 1 {
        strings_spec(lang).yesterday@
    } else {
        let d = civil_from_days_spec(z);
        date_label_spec(lang, d.1, d.2, (z + 4) % 7)
    }
}

/// `HH:MM – HH:MM` of an entry, or `HH:MM –` while it runs.
pub open spec fn range_spec(e: TimeEntry, offset: int) -> Seq<char> {
    let s = shown_start(e);
    if e.duration < 0 {
        clock_hm(s, offset) + seq![' ', '\u{2013}']
    } else {
        clock_hm(s, offset) + seq![' ', '\u{2013}', ' '] + clock_hm(orig_stop(e, s), offset)
    }
}

/// The history row of an entry.
pub open spec fn entry_row_spec(e: TimeEntry, projects: Seq<Project>, now: int, offset: int) -> RowView {
    RowView::Entry {
        id: e.id,
        desc: desc_spec(e),
        project: project_view_spec(projects, e.project_id),
        range: range_spec(e, offset),
        duration: fmt_hms_spec(elapsed_spec(e, now)),
        running: e.duration < 0,
    }
}

/// The rows of a list of history rows, for contracts.
pub open spec fn rows_of(v: Seq<HistoryRow>) -> Seq<RowView> {
    v.map_values(|r: HistoryRow| row_view(r))
}

/// The entry rows of `s`, in order.
pub open spec fn entry_rows(s: Seq<TimeEntry>, projects: Seq<Project>, now: int, offset: int) -> Seq<
    RowView,
> {
    s.map_values(|e: TimeEntry| entry_row_spec(e, projects, now, offset))
}

/// A run is no longer than the list, and a list that starts on day `d` has one.
pub proof fn lemma_run_len_bound(es: Seq<TimeEntry>, d: int, offset: int)
    ensures
        run_len(es, d, offset) <= es.len(),
        es.len() > 0 && day_of(es[0], offset) == d ==> run_len(es, d, offset) >= 1,
    decreases es.len(),
{
    if es.len() > 0 {
        lemma_run_len_bound(es.drop_first(), d, offset);
    }
}

/// The history page's rows for entries given newest first: each run of entries on one
/// local day under a header with the day's total, the day's entries after it.
pub open spec fn history_rows_spec(
    es: Seq<TimeEntry>,
    projects: Seq<Project>,
    now: int,
    offset: int,
    today: int,
    lang: Lang,
) -> Seq<RowView>
    decreases es.len(),
{
    if es.len() == 0 {
        Seq::empty()
    } else {
        let z = day_of(es[0], offset);
        let k = run_len(es, z, offset) as int;
        let group = es.take(k);
        proof {
            lemma_run_len_bound(es, z, offset);
        }
        seq![RowView::Day { label: day_label_spec(z, today, lang), total: fmt_hms_spec(elapsed_sum(group, now)) }]
            + entry_rows(group, projects, now, offset) + history_rows_spec(
            es.skip(k),
            projects,
            now,
            offset,
            today,
            lang,
        )
    }
}

/// An entry the history page can show at `now`: its elapsed time fits in `i64`, and a
/// stopped entry without a readable stop ends (start + duration) more than a day from
/// either end of the `i64` range.
pub open spec fn listable(e: TimeEntry, now: int) -> bool {
    &&& elapsed_in_range(e, now)
    &&& (e.duration >= 0 && stop_secs(e) is None ==> shiftable(shown_start(e) + e.duration))
}

/// The history page can be built at `now`: `now` and every entry can be placed on the
/// local calendar, and the entries' total time fits in `i64`.
pub open spec fn history_ok(st: State, now: int) -> bool {
    &&& shiftable(now)
    &&& forall|i: int| 0 <= i < st.entries@.len() ==> listable(#[trigger] st.entries@[i], now)
    &&& elapsed_sum(st.entries@, now) <= i64::MAX
}

proof fn lemma_elapsed_nonneg(e: TimeEntry, now: int)
    ensures
        elapsed_spec(e, now) >= 0,
{
}

proof fn lemma_elapsed_sum_concat(a: Seq<TimeEntry>, b: Seq<TimeEntry>, now: int)
    ensures
        elapsed_sum(a + b, now) == elapsed_sum(a, now) + elapsed_sum(b, now),
    decreases b.len(),
{
    if b.len() == 0 {
        assert(a + b =~= a);
    } else {
        lemma_elapsed_sum_concat(a, b.drop_last(), now);
        assert((a + b).drop_last() =~= a + b.drop_last());
    }
}

proof fn lemma_elapsed_sum_nonneg(es: Seq<TimeEntry>, now: int)
    ensures
        elapsed_sum(es, now) >= 0,
    decreases es.len(),
{
    if es.len() > 0 {
        lemma_elapsed_sum_nonneg(es.drop_last(), now);
        lemma_elapsed_nonneg(es.last(), now);
    }
}

/// A stretch of `es` adds up to no more than all of `es`.
proof fn lemma_elapsed_sum_part(es: Seq<TimeEntry>, a: int, b: int, now: int)
    requires
        0 <= a <= b <= es.len(),
    ensures
        elapsed_sum(es.subrange(a, b), now) <= elapsed_sum(es, now),
{
    let x = es.take(a);
    let y = es.subrange(a, b);
    let z = es.skip(b);
    assert(es =~= x + y + z);
    lemma_elapsed_sum_concat(x + y, z, now);
    lemma_elapsed_sum_concat(x, y, now);
    lemma_elapsed_sum_nonneg(x, now);
    lemma_elapsed_sum_nonneg(z, now);
}

proof fn lemma_run_len_exact(es: Seq<TimeEntry>, d: int, offset: int, k: int)
    requires
        0 <= k <= es.len(),
        forall|j: int| 0 <= j < k ==> day_of(#[trigger] es[j], offset) == d,
        k == es.len() || day_of(es[k], offset) != d,
    ensures
        run_len(es, d, offset) == k,
    decreases k,
{
    if k > 0 {
        let t = es.drop_first();
        assert forall|j: int| 0 <= j < k - 1 implies day_of(#[trigger] t[j], offset) == d by {
            assert(t[j] == es[j + 1]);
        }
        if k < es.len() {
            assert(t[k - 1] == es[k]);
        }
        lemma_run_len_exact(t, d, offset, k - 1);
    }
}

/// The history page goes day by day on the local calendar: when the first `m` entries
/// (newest first) start on one local day `z` and the next one does not, the page opens
/// with `z`'s header (labelled "Today" when `z` is the local day of `now`, "Yesterday"
/// the day before) carrying the total of exactly those `m` entries, then their rows in
/// order, then the page of the entries after them.
pub proof fn lemma_history_days(
    es: Seq<TimeEntry>,
    projects: Seq<Project>,
    now: int,
    offset: int,
    lang: Lang,
    m: int,
)
    requires
        0 < m <= es.len(),
        forall|j: int|
            0 <= j < m ==> local_day(shown_start(#[trigger] es[j]), offset) == local_day(
                shown_start(es[0]),
                offset,
            ),
        m < es.len() ==> local_day(shown_start(es[m]), offset) != local_day(
            shown_start(es[0]),
            offset,
        ),
    ensures
        ({
            let z = local_day(shown_start(es[0]), offset);
            let today = local_day(now, offset);
            let rows = history_rows_spec(es, projects, now, offset, today, lang);
            &&& rows.len() >= m + 1
            &&& rows[0] == (RowView::Day {
                label: day_label_spec(z, today, lang),
                total: fmt_hms_spec(elapsed_sum(es.take(m), now)),
            })
            &&& z == today ==> rows[0] == (RowView::Day {
                label: strings_spec(lang).today@,
                total: fmt_hms_spec(elapsed_sum(es.take(m), now)),
            })
            &&& z == today - 1 ==> rows[0] == (RowView::Day {
                label: strings_spec(lang).yesterday@,
                total: fmt_hms_spec(elapsed_sum(es.take(m), now)),
            })
            &&& forall|j: int|
                0 <= j < m ==> rows[1 + j] == entry_row_spec(#[trigger] es[j], projects, now, offset)
            &&& rows.skip(m + 1) == history_rows_spec(es.skip(m), projects, now, offset, today, lang)
        }),
{
    let z = local_day(shown_start(es[0]), offset);
    let today = local_day(now, offset);
    assert forall|j: int| 0 <= j < m implies day_of(#[trigger] es[j], offset) == z by {}
    lemma_run_len_exact(es, z, offset, m);
    let rows = history_rows_spec(es, projects, now, offset, today, lang);
    let head = seq![
        RowView::Day {
            label: day_label_spec(z, today, lang),
            total: fmt_hms_spec(elapsed_sum(es.take(m), now)),
        },
    ];
    let body = entry_rows(es.take(m), projects, now, offset);
    let rest = history_rows_spec(es.skip(m), projects, now, offset, today, lang);
    assert(rows == head + body + rest);
    assert forall|j: int| 0 <= j < m implies rows[1 + j] == entry_row_spec(
        #[trigger] es[j],
        projects,
        now,
        offset,
    ) by {
        assert(es.take(m)[j] == es[j]);
        assert(body[j] == entry_row_spec(es[j], projects, now, offset));
    }
    assert(rows.skip(m + 1) =~= rest);
}

/// The row of an entry that starts at `start`, shown at `lt`.
fn entry_row(st: &State, e: &TimeEntry, start: i64, lt: &LocalTime, now: i64, offset: i64) -> (r:
    HistoryRow)
    requires
        valid_offset(offset as int),
        listable(*e, now as int),
        start == shown_start(*e),
        shiftable(start as int),
        is_local_time(*lt, start as int, offset as int),
    ensures
        row_view(r) == entry_row_spec(*e, st.projects@, now as int, offset as int),
{
    let el = e.elapsed(now);
    let mut desc = String::new();
    push_str(&mut desc, e.desc());
    let mut range = lt.hm();
    proof {
        lemma_same_day(*lt, start as int, offset as int, 0, 0);
    }
    if e.is_running() {
        range.push(' ');
        range.push('\u{2013}');
    } else {
        let parsed = match &e.stop {
            Some(s) => parse_rfc3339(s.as_str()),
            None => None,
        };
        let stop = match parsed {
            Some(v) => {
                proof {
                    lemma_parsed_range(e.stop->0@);
                }
                v
            },
            None => start + e.duration,
        };
        let slt = to_local(stop, offset);
        proof {
            lemma_same_day(slt, stop as int, offset as int, 0, 0);
        }
        range.push(' ');
        range.push('\u{2013}');
        range.push(' ');
        let shown = slt.hm();
        push_str(&mut range, shown.as_str());
    }
    let project = st.project_view(e.project_id);
    let duration = fmt_hms(el);
    assert(range@ == range_spec(*e, offset as int));
    assert(desc@ == desc_spec(*e));
    assert(project_view_of(project) == project_view_spec(st.projects@, e.project_id));
    assert(duration@ == fmt_hms_spec(elapsed_spec(*e, now as int)));
    HistoryRow::Entry { id: e.id, desc, project, range, duration, running: e.is_running() }
}

/// The header text of local day `z`, whose date `lt` shows.
fn day_label(z: i64, today: i64, lt: &LocalTime, lang: &LangState) -> (r: String)
    requires
        -1_000_000_000_000_000 <= z <= 1_000_000_000_000_000,
        -1_000_000_000_000_000 <= today <= 1_000_000_000_000_000,
        lt.month == civil_from_days_spec(z as int).1,
        lt.day == civil_from_days_spec(z as int).2,
        lt.weekday == (z + 4) % 7,
    ensures
        r@ == day_label_spec(z as int, today as int, current_of(*lang)),
{
    let s = t(lang);
    let diff = today - z;
    if diff == 0 {
        let mut out = String::new();
        push_str(&mut out, s.today);
        out
    } else if diff == 1 {
        let mut out = String::new();
        push_str(&mut out, s.yesterday);
        out
    } else {
        date_label(lang, lt.month, lt.day, lt.weekday)
    }
}

/// Closes a day: its header, then its entries.
fn flush_day(rows: &mut Vec<HistoryRow>, group: &mut Vec<HistoryRow>, label: String, total: i64)
    ensures
        rows_of(final(rows)@) == rows_of(old(rows)@) + seq![
            RowView::Day { label: label@, total: fmt_hms_spec(total as int) },
        ] + rows_of(old(group)@),
        final(group)@.len() == 0,
{
    let ghost before = rows@;
    let ghost g = group@;
    rows.push(HistoryRow::Day { label, total: fmt_hms(total) });
    let ghost with_day = rows@;
    rows.append(group);
    proof {
        assert(rows_of(with_day) =~= rows_of(before).push(row_view(with_day.last())));
        assert(rows_of(rows@) =~= rows_of(with_day) + rows_of(g));
    }
}

/// One more entry row for the day being built.
fn add_row(group: &mut Vec<HistoryRow>, row: HistoryRow)
    ensures
        rows_of(final(group)@) == rows_of(old(group)@).push(row_view(row)),
{
    group.push(row);
    proof {
        assert(rows_of(group@) =~= rows_of(old(group)@).push(row_view(row)));
    }
}

proof fn lemma_entry_rows_step(es: Seq<TimeEntry>, projects: Seq<Project>, now: int, offset: int, g0: int, i: int)
    requires
        0 <= g0 <= i < es.len(),
    ensures
        entry_rows(es.subrange(g0, i + 1), projects, now, offset) == entry_rows(
            es.subrange(g0, i),
            projects,
            now,
            offset,
        ).push(entry_row_spec(es[i], projects, now, offset)),
        elapsed_sum(es.subrange(g0, i + 1), now) == elapsed_sum(es.subrange(g0, i), now)
            + elapsed_spec(es[i], now),
{
    assert(es.subrange(g0, i + 1).drop_last() =~= es.subrange(g0, i));
    assert(entry_rows(es.subrange(g0, i + 1), projects, now, offset) =~= entry_rows(
        es.subrange(g0, i),
        projects,
        now,
        offset,
    ).push(entry_row_spec(es[i], projects, now, offset)));
}

proof fn lemma_concat_assoc(a: Seq<RowView>, b: Seq<RowView>, c: Seq<RowView>, d: Seq<RowView>)
    ensures
        a + b + c + d == a + (b + c + d),
{
    assert(a + b + c + d =~= a + (b + c + d));
}

/// The history page at `now`, on a clock `offset` seconds east of UTC.
#[verifier::spinoff_prover]
#[verifier::rlimit(60)]
pub fn history_view(st: &State, now: i64, offset: i64, lang: &LangState, has_token: bool) -> (h:
    HistoryView)
    requires
        valid_offset(offset as int),
        history_ok(*st, now as int),
    ensures
        h.busy == st.busy,
        text_of(h.error) == text_of(st.last_error),
        h.has_token == has_token,
        rows_of(h.rows@) == history_rows_spec(
            st.entries@,
            st.projects@,
            now as int,
            offset as int,
            local_day(now as int, offset as int),
            current_of(*lang),
        ),
{
    let ghost es = st.entries@;
    let ghost projects = st.projects@;
    let ghost lg = current_of(*lang);
    let now_lt = to_local(now, offset);
    proof {
        lemma_same_day(now_lt, now as int, offset as int, 0, 0);
    }
    let today = now_lt.days();
    let ghost n = now as int;
    let ghost o = offset as int;
    let ghost td = today as int;
    let mut rows: Vec<HistoryRow> = Vec::new();
    let mut group: Vec<HistoryRow> = Vec::new();
    let mut label = String::new();
    let mut day: i64 = 0;
    let mut total: i64 = 0;
    let mut g0: usize = 0;
    let mut i: usize = 0;
    proof {
        assert(es.skip(0) =~= es);
        assert(entry_rows(es.subrange(0, 0), projects, n, o) =~= Seq::<RowView>::empty());
        assert(rows_of(group@) =~= Seq::<RowView>::empty());
        assert(rows_of(rows@) + history_rows_spec(es.skip(0), projects, n, o, td, lg) =~= history_rows_spec(es, projects, n, o, td, lg));
    }
    while i < st.entries.len()
        invariant
            es == st.entries@,
            projects == st.projects@,
            n == now,
            o == offset,
            td == today,
            valid_offset(o),
            history_ok(*st, n),
            td == local_day(n, o),
            -1_000_000_000_000_000 <= today <= 1_000_000_000_000_000,
            lg == current_of(*lang),
            i <= es.len(),
            g0 <= i,
            i == 0 ==> g0 == 0 && rows@.len() == 0,
            i > 0 ==> g0 < i,
            forall|j: int| g0 <= j < i ==> day_of(#[trigger] es[j], o) == day,
            i > 0 ==> label@ == day_label_spec(day as int, td, lg),
            total == elapsed_sum(es.subrange(g0 as int, i as int), n),
            rows_of(group@) == entry_rows(es.subrange(g0 as int, i as int), projects, n, o),
            rows_of(rows@) + history_rows_spec(es.skip(g0 as int), projects, n, o, td, lg)
                == history_rows_spec(es, projects, n, o, td, lg),
        decreases es.len() - i,
    {
        let e = &st.entries[i];
        let start = match parse_rfc3339(e.start.as_str()) {
            Some(v) => {
                proof {
                    lemma_parsed_range(e.start@);
                }
                v
            },
            None => 0,
        };
        let lt = to_local(start, offset);
        proof {
            lemma_same_day(lt, start as int, o, 0, 0);
        }
        let d = lt.days();
        if i == 0 || d != day {
            if i > 0 {
                let ghost old_rows = rows_of(rows@);
                let ghost day_row = RowView::Day { label: label@, total: fmt_hms_spec(total as int) };
                let ghost gv = rows_of(group@);
                proof {
                    lemma_close_day(es, projects, n, o, td, lg, g0 as int, i as int, day as int);
                }
                flush_day(&mut rows, &mut group, label, total);
                proof {
                    lemma_concat_assoc(old_rows, seq![day_row], gv, history_rows_spec(es.skip(i as int), projects, n, o, td, lg));
                }
            }
            label = day_label(d, today, &lt, lang);
            day = d;
            total = 0;
            g0 = i;
            proof {
                assert(entry_rows(es.subrange(g0 as int, i as int), projects, n, o) =~= Seq::<RowView>::empty());
                assert(rows_of(group@) =~= Seq::<RowView>::empty());
            }
        }
        let row = entry_row(st, e, start, &lt, now, offset);
        let el = e.elapsed(now);
        proof {
            lemma_entry_rows_step(es, projects, n, o, g0 as int, i as int);
            lemma_elapsed_sum_part(es, g0 as int, i + 1, n);
        }
        total = total + el;
        add_row(&mut group, row);
        i = i + 1;
    }
    if i > 0 {
        let ghost old_rows = rows_of(rows@);
        let ghost day_row = RowView::Day { label: label@, total: fmt_hms_spec(total as int) };
        let ghost gv = rows_of(group@);
        proof {
            lemma_close_day(es, projects, n, o, td, lg, g0 as int, i as int, day as int);
        }
        flush_day(&mut rows, &mut group, label, total);
        proof {
            lemma_concat_assoc(old_rows, seq![day_row], gv, history_rows_spec(es.skip(i as int), projects, n, o, td, lg));
        }
    }
    proof {
        assert(es.skip(i as int) =~= Seq::<TimeEntry>::empty());
        assert(rows_of(rows@) =~= history_rows_spec(es, projects, n, o, td, lg));
    }
    HistoryView {
        busy: st.busy,
        error: clone_opt_string(&st.last_error),
        has_token,
        rows,
    }
}

/// Unfolds the rows from `g0` on, where entries `g0..i` make up one day.
proof fn lemma_close_day(
    es: Seq<TimeEntry>,
    projects: Seq<Project>,
    now: int,
    offset: int,
    today: int,
    lang: Lang,
    g0: int,
    i: int,
    day: int,
)
    requires
        0 <= g0 < i <= es.len(),
        forall|j: int| g0 <= j < i ==> day_of(#[trigger] es[j], offset) == day,
        i == es.len() || day_of(es[i], offset) != day,
    ensures
        history_rows_spec(es.skip(g0), projects, now, offset, today, lang) == seq![
            RowView::Day {
                label: day_label_spec(day, today, lang),
                total: fmt_hms_spec(elapsed_sum(es.subrange(g0, i), now)),
            },
        ] + entry_rows(es.subrange(g0, i), projects, now, offset) + history_rows_spec(
            es.skip(i),
            projects,
            now,
            offset,
            today,
            lang,
        ),
{
    let t = es.skip(g0);
    let k = i - g0;
    assert forall|j: int| 0 <= j < k implies day_of(#[trigger] t[j], offset) == day by {
        assert(t[j] == es[g0 + j]);
    }
    if i < es.len() {
        assert(t[k] == es[i]);
    }
    lemma_run_len_exact(t, day, offset, k);
    assert(t[0] == es[g0]);
    assert(t.take(k) =~= es.subrange(g0, i));
    assert(t.skip(k) =~= es.skip(i));
}

// ---------------------------------------------------------------- entry editor

/// The start the editor reads an entry at: its own, or `now` if it does not read.
pub open spec fn editor_start(e: TimeEntry, now: int) -> int {
    match start_secs(e) {
        Some(v) => v,
        None => now,
    }
}

/// What the editor's time fields are filled with: the entry's start and stop as `HH:MM`;
/// the stop is empty while the entry runs.
pub open spec fn editor_texts_spec(e: TimeEntry, now: int, offset: int) -> (Seq<char>, Seq<char>) {
    let s = editor_start(e, now);
    (
        clock_hm(s, offset),
        if e.duration < 0 {
            Seq::empty()
        } else {
            clock_hm(orig_stop(e, s), offset)
        },
    )
}

/// The editor can place `e` on the local calendar at `now`.
pub open spec fn editor_fillable(e: TimeEntry, now: int) -> bool {
    &&& shiftable(editor_start(e, now))
    &&& (e.duration >= 0 && stop_secs(e) is None ==> shiftable(editor_start(e, now) + e.duration))
}

/// The text the editor's time fields start with (see `editor_texts_spec`).
pub fn editor_time_texts(e: &TimeEntry, now: i64, offset: i64) -> (r: (String, String))
    requires
        valid_offset(offset as int),
        editor_fillable(*e, now as int),
    ensures
        r.0@ == editor_texts_spec(*e, now as int, offset as int).0,
        r.1@ == editor_texts_spec(*e, now as int, offset as int).1,
{
    let start = match parse_rfc3339(e.start.as_str()) {
        Some(v) => v,
        None => now,
    };
    let lt = to_local(start, offset);
    proof {
        lemma_same_day(lt, start as int, offset as int, 0, 0);
    }
    let start_text = lt.hm();
    if e.is_running() {
        return (start_text, String::new());
    }
    let parsed = match &e.stop {
        Some(s) => parse_rfc3339(s.as_str()),
        None => None,
    };
    let stop = match parsed {
        Some(v) => {
            proof {
                lemma_parsed_range(e.stop->0@);
            }
            v
        },
        None => start + e.duration,
    };
    let slt = to_local(stop, offset);
    proof {
        lemma_same_day(slt, stop as int, offset as int, 0, 0);
    }
    (start_text, slt.hm())
}

/// The time fields of the entry being edited read, and the duration they imply at `now`
/// fits in `i64`; the entry can be placed on the local calendar.
pub open spec fn editor_ok(st: State, now: int, start_text: Seq<char>, stop_text: Seq<char>, offset: int) -> bool {
    st.editing matches Some(e) ==> {
        &&& stop_in_range(e)
        &&& shiftable(editor_start(e, now))
        &&& match edited_times_spec(e, start_text, stop_text, offset) {
            Some((s, stop)) => i64::MIN <= (match stop {
                Some(x) => x,
                None => now,
            }) - s <= i64::MAX,
            None => true,
        }
    }
}

/// The editor page at `now`, with the time fields as typed.
pub fn editor_view(
    st: &State,
    now: i64,
    offset: i64,
    start_text: &str,
    stop_text: &str,
    lang: &LangState,
) -> (v: EditorView)
    requires
        valid_offset(offset as int),
        editor_ok(*st, now as int, start_text@, stop_text@, offset as int),
    ensures
        v.busy == st.busy,
        text_of(v.error) == text_of(st.last_error),
        project_view_of(v.project) == project_view_spec(st.projects@, st.edit_project),
        v.delete_armed == st.delete_armed,
        match st.editing {
            Some(e) => {
                let z = local_day(editor_start(e, now as int), offset as int);
                let date = civil_from_days_spec(z);
                &&& v.running == (e.duration < 0)
                &&& v.date@ == date_label_spec(current_of(*lang), date.1, date.2, (z + 4) % 7)
                &&& match edited_times_spec(e, start_text@, stop_text@, offset as int) {
                    Some((s, stop)) => v.duration matches Some(d) && d@ == fmt_hms_spec(
                        (match stop {
                            Some(x) => x,
                            None => now as int,
                        }) - s,
                    ),
                    None => v.duration is None,
                }
            },
            None => !v.running && v.date@.len() == 0 && v.duration is None,
        },
{
    let (running, date, duration) = match &st.editing {
        Some(e) => {
            let start = match parse_rfc3339(e.start.as_str()) {
                Some(v) => v,
                None => now,
            };
            let lt = to_local(start, offset);
            let duration = match edited_times(e, start_text, stop_text, offset) {
                Some((s, stop)) => {
                    let end = match stop {
                        Some(x) => x,
                        None => now,
                    };
                    Some(fmt_hms(end - s))
                },
                None => None,
            };
            (e.is_running(), date_label(lang, lt.month, lt.day, lt.weekday), duration)
        },
        None => (false, String::new(), None),
    };
    EditorView {
        busy: st.busy,
        error: clone_opt_string(&st.last_error),
        project: st.project_view(st.edit_project),
        running,
        date,
        duration,
        delete_armed: st.delete_armed,
    }
}

} // verus!
