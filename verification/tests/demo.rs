use togglite::demo::seed_demo;
use togglite::i18n::Lang;
use togglite::state::State;
use togglite::util::rfc3339_utc;

const NOON: i64 = 1758024000;

#[test]
fn demo_data_idle() {
    let mut st = State::default();
    seed_demo(&mut st, Lang::En, NOON, false);
    assert_eq!(st.workspace_id, 1);
    let names: Vec<&str> = st.projects.iter().map(|p| p.name.as_str()).collect();
    assert_eq!(names, ["Togglite", "Internal tools", "Reading / learning", "Side project"]);
    assert_eq!(st.projects[3].color.as_deref(), Some("#2ec4b6"));
    assert_eq!(st.entries.len(), 10);
    assert!(st.current.is_none());
    // Newest first: the entry from two hours ago leads.
    assert_eq!(st.entries[0].id, 1);
    assert_eq!(st.entries[0].start, rfc3339_utc(NOON - 2 * 3600));
    assert_eq!(st.entries[0].stop.as_deref(), Some(rfc3339_utc(NOON - 2 * 3600 + 45 * 60).as_str()));
    assert_eq!(st.entries[9].id, 10);
    assert_eq!(st.entries[9].duration, 20 * 60);
    // Repeats collapse in the quick-restart list.
    assert_eq!(st.recent.len(), 8);
    assert_eq!(st.recent[0].description, "Redesign the tray UI");
    assert_eq!(st.recent[1].description, "Weekly meeting");
}

#[test]
fn demo_data_running_in_japanese() {
    let mut st = State::default();
    seed_demo(&mut st, Lang::Ja, NOON, true);
    assert_eq!(st.projects[1].name, "社内ツール改善");
    assert_eq!(st.entries.len(), 11);
    let c = st.current.as_ref().unwrap();
    assert_eq!((c.id, c.duration, c.project_id), (100, -1, Some(1)));
    assert_eq!(c.start, rfc3339_utc(NOON - 754));
    assert_eq!(st.entries[0].id, 100);
    assert_eq!(st.entries[0].description.as_deref(), Some("トレイ UI の再設計"));
}
