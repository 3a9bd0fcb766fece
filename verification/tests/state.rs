use togglite::api::{Project, TimeEntry};
use togglite::i18n::Lang;
use togglite::state::{dedupe_recent, sort_newest_first, Msg, StartStep, State};
use togglite::ui::Page;
use togglite::util::rfc3339_utc;

fn entry(start: i64, duration: i64) -> TimeEntry {
    TimeEntry {
        id: 1,
        workspace_id: 1,
        description: None,
        project_id: None,
        start: rfc3339_utc(start),
        stop: (duration >= 0).then(|| rfc3339_utc(start + duration)),
        duration,
        server_deleted_at: None,
    }
}

fn with(id: i64, start: i64, desc: &str) -> TimeEntry {
    let mut e = entry(start, 60);
    e.id = id;
    e.description = Some(desc.into());
    e
}

#[test]
fn recent_list_dedupes_newest_first() {
    let mut e1 = entry(1000, 60);
    e1.description = Some("a".into());
    let mut e2 = entry(2000, 60);
    e2.description = Some("b".into());
    let mut e3 = entry(3000, 60);
    e3.description = Some("a".into());
    let blank = entry(4000, 60);
    let mut st = State { entries: vec![e1, blank, e3, e2], ..State::default() };
    st.entries_changed();
    let descs: Vec<&str> = st.recent.iter().map(|r| r.description.as_str()).collect();
    assert_eq!(descs, ["a", "b"]);
    assert_eq!(st.entries[0].start, rfc3339_utc(4000));
}

#[test]
fn sort_is_stable_and_unparsable_starts_count_as_epoch() {
    let mut bad = with(9, 0, "bad");
    bad.start = "??".into();
    let es = vec![with(1, 100, "x"), with(2, 300, "y"), with(3, 100, "z"), bad, with(4, -5, "w")];
    let sorted = sort_newest_first(&es);
    let ids: Vec<i64> = sorted.iter().map(|e| e.id).collect();
    assert_eq!(ids, vec![2, 1, 3, 9, 4]);
}

#[test]
fn recent_keeps_projects_apart_and_stops_at_thirty() {
    let mut a = with(1, 50, " a ");
    a.project_id = Some(7);
    let b = with(2, 40, "a");
    let mut c = entry(30, 60);
    c.project_id = Some(7);
    let items = dedupe_recent(&vec![a, b, c]);
    let got: Vec<(&str, Option<i64>)> = items.iter().map(|r| (r.description.as_str(), r.project_id)).collect();
    assert_eq!(got, vec![("a", Some(7)), ("a", None), ("", Some(7))]);
    let many: Vec<TimeEntry> = (0..40).map(|i| with(i, 1000 - i, &format!("task {i}"))).collect();
    let items = dedupe_recent(&many);
    assert_eq!(items.len(), 30);
    assert_eq!(items[29].description, "task 29");
}

fn project(id: i64, name: &str, active: Option<bool>) -> Project {
    Project { id, name: name.into(), color: Some("#3d8bff".into()), active }
}

#[test]
fn sync_reply_replaces_everything_and_finds_the_running_entry() {
    let mut st = State::default();
    st.busy = true;
    let mut running = entry(500, -1);
    running.id = 5;
    let fx = st.apply(Msg::Synced {
        workspace_id: Some(77),
        entries: vec![with(1, 100, "old"), running, with(2, 900, "new")],
        projects: vec![project(1, "A", None), project(2, "B", Some(false)), project(3, "C", Some(true))],
    });
    assert_eq!(fx.save_workspace, Some(77));
    assert!(!st.busy);
    assert_eq!(st.workspace_id, 77);
    assert_eq!(st.projects.iter().map(|p| p.id).collect::<Vec<_>>(), vec![1, 3]);
    assert_eq!(st.entries.iter().map(|e| e.id).collect::<Vec<_>>(), vec![2, 5, 1]);
    assert_eq!(st.current.as_ref().map(|c| c.id), Some(5));
    let pv = st.project_view(Some(3)).unwrap();
    assert_eq!(pv.name, "C");
    assert_eq!(pv.color.map(|c| (c.0, c.1, c.2)), Some((0x3d, 0x8b, 0xff)));
    assert!(st.project_view(Some(2)).is_none());
    assert!(st.project_view(None).is_none());
}

#[test]
fn start_stop_update_delete_replies() {
    let mut st = State::default();
    st.workspace_id = 1;
    st.selected_project = Some(3);
    let mut run = with(10, 1000, "run");
    run.duration = -1;
    let fx = st.apply(Msg::Started(run.clone()));
    assert!(fx.clear_description);
    assert_eq!(st.current.as_ref().map(|c| c.id), Some(10));
    assert_eq!(st.selected_project, None);
    assert_eq!(st.entries.len(), 1);

    // editing the running entry and saving it stopped
    st.begin_edit(run.clone(), Page::History);
    assert_eq!(st.edit_from, Page::History);
    let mut done = run.clone();
    done.duration = 120;
    let fx = st.apply(Msg::Updated(done));
    assert!(fx.editor_done);
    assert!(st.current.is_none());
    assert_eq!(st.entries.len(), 1);
    assert_eq!(st.entries[0].duration, 120);
    assert_eq!(st.leave_editor(), Page::History);
    assert!(st.editing.is_none());

    let fx = st.apply(Msg::Stopped(with(11, 2000, "other")));
    assert!(!fx.editor_done);
    assert_eq!(st.entries.iter().map(|e| e.id).collect::<Vec<_>>(), vec![11, 10]);

    let fx = st.apply(Msg::Deleted(10));
    assert!(!fx.editor_done);
    assert_eq!(st.entries.iter().map(|e| e.id).collect::<Vec<_>>(), vec![11]);

    let fx = st.apply(Msg::Error("boom".into()));
    assert_eq!(fx.error.as_deref(), Some("boom"));
    assert_eq!(st.last_error.as_deref(), Some("boom"));
}

#[test]
fn delete_button_needs_two_clicks() {
    let mut st = State::default();
    assert_eq!(st.delete_click(), None);
    let mut e = with(4, 100, "x");
    e.workspace_id = 9;
    st.begin_edit(e, Page::Main);
    assert_eq!(st.delete_click(), None);
    assert!(st.delete_armed);
    assert_eq!(st.delete_click(), Some((9, 4)));
    assert!(st.disarm());
    assert!(!st.disarm());
    st.busy = true;
    assert_eq!(st.delete_click(), None);
}

#[test]
fn starting_needs_a_workspace_and_stopping_uses_the_entry_one() {
    let en = Lang::En.strings();
    let mut st = State::default();
    assert!(st.start_check(&en) == StartStep::SyncFirst);
    assert_eq!(st.last_error.as_deref(), Some(en.err_not_synced));
    st.workspace_id = 4;
    assert!(st.start_check(&en) == StartStep::Start(4));
    st.busy = true;
    assert!(st.start_check(&en) == StartStep::Ignore);
    assert_eq!(st.stop_workspace(), 4);
    let mut run = with(1, 0, "r");
    run.workspace_id = 8;
    st.current = Some(run);
    assert_eq!(st.stop_workspace(), 8);
}

#[test]
fn lookups_by_id() {
    let mut st = State::default();
    st.entries = vec![with(1, 10, "a"), with(2, 20, "b")];
    assert_eq!(st.entry(2).map(|e| e.description.clone()), Some(Some("b".into())));
    assert!(st.entry(3).is_none());
    st.current = Some(with(3, 30, "c"));
    assert_eq!(st.entry(3).map(|e| e.id), Some(3));
    st.upsert(with(2, 5, "b2"));
    assert_eq!(st.entries.iter().map(|e| e.id).collect::<Vec<_>>(), vec![1, 2]);
    st.projects = vec![project(1, "A", None), project(2, "B", None)];
    st.choose_project(false, Some(1));
    assert_eq!(st.selected_project, Some(2));
    assert_eq!(st.chosen_index(false), Some(1));
    st.choose_project(true, Some(5));
    assert_eq!(st.edit_project, None);
    assert_eq!(st.chosen_index(true), None);
}

#[test]
fn sync_asks_for_the_workspace_only_while_unknown() {
    let mut st = State::default();
    assert!(st.needs_workspace());
    st.workspace_id = 7;
    assert!(!st.needs_workspace());
}

#[test]
fn an_upserted_entry_is_read_back_by_id() {
    let mut st = State::default();
    st.entries = vec![with(1, 1000, "a"), with(2, 2000, "b")];
    st.entries_changed();
    let mut changed = with(1, 5000, "a2");
    changed.project_id = Some(9);
    st.upsert(changed.clone());
    let got = st.entry(1).unwrap();
    assert_eq!((got.start.as_str(), got.description.as_deref(), got.project_id), (changed.start.as_str(), Some("a2"), Some(9)));
    assert_eq!(st.entries.len(), 2);
    st.upsert(with(3, 3000, "c"));
    assert_eq!(st.entry(3).unwrap().description.as_deref(), Some("c"));
    assert_eq!(st.entries.len(), 3);
}

#[test]
fn a_deleted_entry_is_gone() {
    let mut st = State::default();
    st.entries = vec![with(1, 1000, "a"), with(2, 2000, "b")];
    st.entries_changed();
    st.apply(Msg::Deleted(1));
    assert!(st.entry(1).is_none());
    assert!(st.entry(2).is_some());
}
