//! Sample data so the UI can be tried out without an account: four projects and ten
//! entries over three days, with a couple of repeats, optionally one of them running.
use vstd::prelude::*;
use crate::api::{Project, TimeEntry};
use crate::i18n::Lang;
use crate::state::{derived_ok, stable_newest_first, State};
use crate::util::{rfc3339_spec, rfc3339_utc};

verus! {

/// The sample projects' names, in the UI language so screenshots read naturally.
pub open spec fn demo_project_names(lang: Lang) -> Seq<Seq<char>> {
    match lang {
        Lang::Ja => seq!["Togglite"@, "社内ツール改善"@, "読書/学習"@, "Side project"@],
        Lang::En => seq!["Togglite"@, "Internal tools"@, "Reading / learning"@, "Side project"@],
    }
}

/// The sample projects' colours.
pub open spec fn demo_colors() -> Seq<Seq<char>> {
    seq!["#e55ca8"@, "#3d8bff"@, "#f5a623"@, "#2ec4b6"@]
}

/// The sample descriptions.
pub open spec fn demo_descriptions(lang: Lang) -> Seq<Seq<char>> {
    match lang {
        Lang::Ja => seq![
            "トレイ UI の再設計"@,
            "週次ミーティング"@,
            "API クライアントのテスト"@,
            "CI パイプラインの調査"@,
            "Rust の本を読む"@,
            "ブログ下書き"@,
            "メール返信"@,
            "デザインレビュー"@,
        ],
        Lang::En => seq![
            "Redesign the tray UI"@,
            "Weekly meeting"@,
            "API client tests"@,
            "Investigate CI pipeline"@,
            "Read the Rust book"@,
            "Blog post draft"@,
            "Reply to emails"@,
            "Design review"@,
        ],
    }
}

/// The sample entries: (description, project, hours ago, minutes long).
pub open spec fn demo_samples() -> Seq<(int, Option<i64>, int, int)> {
    seq![
        (0, Some(1i64), 2, 45),
        (1, None, 5, 30),
        (2, Some(1i64), 7, 80),
        (0, Some(1i64), 9, 50),
        (3, Some(2i64), 26, 40),
        (4, Some(3i64), 29, 65),
        (5, Some(4i64), 31, 25),
        (6, None, 50, 15),
        (7, Some(2i64), 53, 90),
        (1, None, 55, 20),
    ]
}

/// `e` is sample entry `i` at `now`.
pub open spec fn is_demo_entry(e: TimeEntry, i: int, lang: Lang, now: int) -> bool {
    let (d, p, ago, mins) = demo_samples()[i];
    let start = now - ago * 3600;
    &&& e.id == i + 1
    &&& e.workspace_id == 1
    &&& e.description matches Some(s) && s@ == demo_descriptions(lang)[d]
    &&& e.project_id == p
    &&& e.start@ == rfc3339_spec(start)
    &&& e.stop matches Some(s) && s@ == rfc3339_spec(start + mins * 60)
    &&& e.duration == mins * 60
    &&& e.server_deleted_at is None
}

/// `e` is the sample running entry: the first description, started 754 s before `now`.
pub open spec fn is_demo_running(e: TimeEntry, lang: Lang, now: int) -> bool {
    &&& e.id == 100
    &&& e.workspace_id == 1
    &&& e.description matches Some(s) && s@ == demo_descriptions(lang)[0]
    &&& e.project_id == Some(1i64)
    &&& e.start@ == rfc3339_spec(now - 754)
    &&& e.stop is None
    &&& e.duration == -1
    &&& e.server_deleted_at is None
}

/// The sample entries before sorting: the running one first, if any, then the ten others.
pub open spec fn is_demo_list(s: Seq<TimeEntry>, lang: Lang, now: int, running: bool) -> bool {
    let base: int = if running {
        1
    } else {
        0
    };
    &&& s.len() == 10 + base
    &&& running ==> is_demo_running(s[0], lang, now)
    &&& forall|i: int| 0 <= i < 10 ==> is_demo_entry(#[trigger] s[base + i], i, lang, now)
}

fn project_name(lang: Lang, i: usize) -> (r: &'static str)
    requires
        i < 4,
    ensures
        r@ == demo_project_names(lang)[i as int],
{
    match lang {
        Lang::Ja => match i {
            0 => "Togglite",
            1 => "社内ツール改善",
            2 => "読書/学習",
            _ => "Side project",
        },
        Lang::En => match i {
            0 => "Togglite",
            1 => "Internal tools",
            2 => "Reading / learning",
            _ => "Side project",
        },
    }
}

fn color(i: usize) -> (r: &'static str)
    requires
        i < 4,
    ensures
        r@ == demo_colors()[i as int],
{
    match i {
        0 => "#e55ca8",
        1 => "#3d8bff",
        2 => "#f5a623",
        _ => "#2ec4b6",
    }
}

fn description(lang: Lang, d: usize) -> (r: &'static str)
    requires
        d < 8,
    ensures
        r@ == demo_descriptions(lang)[d as int],
{
    match lang {
        Lang::Ja => match d {
            0 => "トレイ UI の再設計",
            1 => "週次ミーティング",
            2 => "API クライアントのテスト",
            3 => "CI パイプラインの調査",
            4 => "Rust の本を読む",
            5 => "ブログ下書き",
            6 => "メール返信",
            _ => "デザインレビュー",
        },
        Lang::En => match d {
            0 => "Redesign the tray UI",
            1 => "Weekly meeting",
            2 => "API client tests",
            3 => "Investigate CI pipeline",
            4 => "Read the Rust book",
            5 => "Blog post draft",
            6 => "Reply to emails",
            _ => "Design review",
        },
    }
}

fn sample(i: usize) -> (r: (usize, Option<i64>, i64, i64))
    requires
        i < 10,
    ensures
        (r.0 as int, r.1, r.2 as int, r.3 as int) == demo_samples()[i as int],
        r.0 < 8,
        0 <= r.2 <= 55,
        0 <= r.3 <= 90,
{
    match i {
        0 => (0, Some(1), 2, 45),
        1 => (1, None, 5, 30),
        2 => (2, Some(1), 7, 80),
        3 => (0, Some(1), 9, 50),
        4 => (3, Some(2), 26, 40),
        5 => (4, Some(3), 29, 65),
        6 => (5, Some(4), 31, 25),
        7 => (6, None, 50, 15),
        8 => (7, Some(2), 53, 90),
        _ => (1, None, 55, 20),
    }
}

/// Seeds `st` with the sample data in `lang` at `now`; `running` adds a running entry and
/// makes it the current one. The entries end up newest first.
pub fn seed_demo(st: &mut State, lang: Lang, now: i64, running: bool)
    requires
        i64::MIN + 55 * 3600 <= now,
    ensures
        final(st).workspace_id == 1,
        final(st).projects@.len() == 4,
        forall|i: int|
            #![trigger final(st).projects@[i]]
            0 <= i < 4 ==> {
                let p = final(st).projects@[i];
                &&& p.id == i + 1
                &&& p.name@ == demo_project_names(lang)[i]
                &&& p.color matches Some(c) && c@ == demo_colors()[i]
                &&& p.active == Some(true)
            },
        exists|s: Seq<TimeEntry>|
            is_demo_list(s, lang, now as int, running) && stable_newest_first(
                s,
                final(st).entries@,
            ),
        derived_ok(*final(st)),
        running ==> (final(st).current matches Some(c) && is_demo_running(c, lang, now as int)),
        !running ==> final(st).current == old(st).current,
        final(st).selected_project == old(st).selected_project,
        final(st).editing == old(st).editing,
        final(st).edit_project == old(st).edit_project,
        final(st).edit_from == old(st).edit_from,
        final(st).delete_armed == old(st).delete_armed,
        final(st).busy == old(st).busy,
        final(st).last_error == old(st).last_error,
{
    st.workspace_id = 1;
    let mut projects: Vec<Project> = Vec::new();
    let mut i: usize = 0;
    while i < 4
        invariant
            i <= 4,
            projects@.len() == i,
            forall|j: int|
                #![trigger projects@[j]]
                0 <= j < i ==> {
                    let p = projects@[j];
                    &&& p.id == j + 1
                    &&& p.name@ == demo_project_names(lang)[j]
                    &&& p.color matches Some(c) && c@ == demo_colors()[j]
                    &&& p.active == Some(true)
                },
        decreases 4 - i,
    {
        projects.push(
            Project {
                id: i as i64 + 1,
                name: project_name(lang, i).to_owned(),
                color: Some(color(i).to_owned()),
                active: Some(true),
            },
        );
        i = i + 1;
    }
    st.projects = projects;
    let mut entries: Vec<TimeEntry> = Vec::new();
    let ghost base: int = if running {
        1
    } else {
        0
    };
    if running {
        let current = TimeEntry {
            id: 100,
            workspace_id: 1,
            description: Some(description(lang, 0).to_owned()),
            project_id: Some(1),
            start: rfc3339_utc(now - 754),
            stop: None,
            duration: -1,
            server_deleted_at: None,
        };
        entries.push(current.duplicate());
        st.current = Some(current);
    }
    let mut k: usize = 0;
    while k < 10
        invariant
            k <= 10,
            base == (if running {
                1int
            } else {
                0
            }),
            entries@.len() == base + k,
            i64::MIN + 55 * 3600 <= now,
            running ==> is_demo_running(entries@[0], lang, now as int),
            forall|j: int| 0 <= j < k ==> is_demo_entry(#[trigger] entries@[base + j], j, lang, now as int),
        decreases 10 - k,
    {
        let (d, p, ago, mins) = sample(k);
        let start = now - ago * 3600;
        entries.push(
            TimeEntry {
                id: k as i64 + 1,
                workspace_id: 1,
                description: Some(description(lang, d).to_owned()),
                project_id: p,
                start: rfc3339_utc(start),
                stop: Some(rfc3339_utc(start + mins * 60)),
                duration: mins * 60,
                server_deleted_at: None,
            },
        );
        proof {
            assert(entries@[base + k] == entries@.last());
        }
        k = k + 1;
    }
    let ghost pre = entries@;
    st.entries = entries;
    st.entries_changed();
    assert(is_demo_list(pre, lang, now as int, running));
}

} // verus!
