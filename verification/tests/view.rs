use togglite::api::{Project, TimeEntry};
use togglite::i18n::{set_preference, t, Lang, LangState};
use togglite::state::{RecentItem, State};
use togglite::ui::{Action, HistoryRow, Rgb};
use togglite::util::rfc3339_utc;
use togglite::view::{
    editor_time_texts, editor_view, history_view, language_label, main_view, tray_texts,
};

/// 2025-09-16 12:00 UTC, a Tuesday.
const NOON: i64 = 1758024000;

fn entry(id: i64, start: i64, duration: i64, desc: &str, project: Option<i64>) -> TimeEntry {
    TimeEntry {
        id,
        workspace_id: 1,
        description: if desc.is_empty() { None } else { Some(desc.to_string()) },
        project_id: project,
        start: rfc3339_utc(start),
        stop: if duration >= 0 { Some(rfc3339_utc(start + duration)) } else { None },
        duration,
        server_deleted_at: None,
    }
}

fn project(id: i64, name: &str, color: Option<&str>) -> Project {
    Project { id, name: name.to_string(), color: color.map(|c| c.to_string()), active: Some(true) }
}

fn english() -> LangState {
    let mut l = LangState::new();
    set_preference(&mut l, Some(Lang::En), Lang::En);
    l
}

fn sample_state() -> State {
    let mut st = State::default();
    st.projects = vec![project(1, "Togglite", Some("#e55ca8")), project(2, "Other", None)];
    st.entries = vec![
        entry(10, NOON - 754, -1, "Tray UI", Some(1)),
        entry(9, NOON - 3 * 3600, 45 * 60, "", None),
        entry(8, NOON - 26 * 3600, 30 * 60, "Planning", Some(2)),
        entry(7, NOON - 4 * 86400 + 3600, 3600, "Reading", None),
    ];
    st.current = Some(st.entries[0].clone());
    st
}

#[test]
fn history_groups_entries_by_local_day() {
    let st = sample_state();
    let h = history_view(&st, NOON, 0, &english(), true);
    assert!(h.has_token);
    let mut out: Vec<String> = Vec::new();
    for r in &h.rows {
        match r {
            HistoryRow::Day { label, total } => out.push(format!("# {label} {total}")),
            HistoryRow::Entry { id, desc, project, range, duration, running } => out.push(format!(
                "{id} {desc}|{}|{range}|{duration}|{running}",
                project.as_ref().map(|p| p.name.as_str()).unwrap_or("-")
            )),
        }
    }
    assert_eq!(
        out,
        vec![
            "# Today 0:57:34",
            "10 Tray UI|Togglite|11:47 \u{2013}|0:12:34|true",
            "9 |-|09:00 \u{2013} 09:45|0:45:00|false",
            "# Yesterday 0:30:00",
            "8 Planning|Other|10:00 \u{2013} 10:30|0:30:00|false",
            "# Fri, Sep 12 1:00:00",
            "7 Reading|-|13:00 \u{2013} 14:00|1:00:00|false",
        ]
    );
    // The same entries on a clock nine hours east: noon UTC is 21:00 there.
    let h = history_view(&st, NOON, 9 * 3600, &english(), false);
    match &h.rows[2] {
        HistoryRow::Entry { range, .. } => assert_eq!(range, "18:00 \u{2013} 18:45"),
        _ => panic!("expected an entry row"),
    }
    assert!(history_view(&State::default(), NOON, 0, &english(), true).rows.is_empty());
}

#[test]
fn main_view_shows_running_entry_and_recent_items() {
    let mut st = sample_state();
    st.selected_project = Some(2);
    st.recent = vec![RecentItem { description: "Tray UI".into(), project_id: Some(1) }];
    st.last_error = Some("offline".into());
    let v = main_view(&st, NOON, true, &english());
    let r = v.running.unwrap();
    assert_eq!((r.id, r.desc.as_str(), r.elapsed.as_str()), (10, "Tray UI", "0:12:34"));
    let p = r.project.unwrap();
    assert_eq!(p.name, "Togglite");
    assert_eq!(p.color, Some(Rgb(0xe5, 0x5c, 0xa8)));
    assert_eq!(v.project.unwrap().name, "Other");
    assert_eq!(v.recent.len(), 1);
    assert_eq!(v.recent[0].desc, "Tray UI");
    assert_eq!(v.error.as_deref(), Some("offline"));
    assert_eq!(v.language, "English");
    assert!(main_view(&State::default(), NOON, false, &english()).running.is_none());
}

#[test]
fn language_chip_names_automatic_choice() {
    let mut l = LangState::new();
    set_preference(&mut l, None, Lang::Ja);
    assert_eq!(language_label(&l), "自動 (日本語)");
    set_preference(&mut l, None, Lang::En);
    assert_eq!(language_label(&l), "Automatic (English)");
    set_preference(&mut l, Some(Lang::Ja), Lang::En);
    assert_eq!(language_label(&l), "日本語");
}

#[test]
fn tray_texts_follow_the_timer() {
    let st = sample_state();
    let s = t(&english());
    let (tip, menu) = tray_texts(&st, NOON, &s);
    assert_eq!(tip, "Togglite \u{25b6} Tray UI (0:12:34)  \u{b7}  Togglite");
    assert_eq!(menu, "Stop: Tray UI (0:12:34)");
    let (tip, menu) = tray_texts(&State::default(), NOON, &s);
    assert_eq!(tip, "Togglite (stopped)");
    assert_eq!(menu, "Start");
    // A blank running entry is shown as "(no description)"; long ones are cut.
    let mut st = State::default();
    st.current = Some(entry(1, NOON - 5, -1, "", None));
    assert_eq!(tray_texts(&st, NOON, &s).1, "Stop: (no description) (0:00:05)");
    let long = "x".repeat(80);
    st.current = Some(entry(1, NOON - 5, -1, &long, None));
    let (tip, menu) = tray_texts(&st, NOON, &s);
    assert_eq!(tip, format!("Togglite \u{25b6} {}\u{2026} (0:00:05)", "x".repeat(59)));
    assert_eq!(menu, format!("Stop: {}\u{2026} (0:00:05)", "x".repeat(39)));
}

#[test]
fn editor_fields_and_duration() {
    let e = entry(9, NOON - 3 * 3600 + 17, 45 * 60, "", None);
    let (start, stop) = editor_time_texts(&e, NOON, 0);
    assert_eq!((start.as_str(), stop.as_str()), ("09:00", "09:45"));
    let running = entry(10, NOON - 754, -1, "", None);
    let (start, stop) = editor_time_texts(&running, NOON, 0);
    assert_eq!((start.as_str(), stop.as_str()), ("11:47", ""));

    let mut st = sample_state();
    st.editing = Some(e);
    st.edit_project = Some(1);
    let v = editor_view(&st, NOON, 0, "09:00", "10:30", &english());
    assert_eq!(v.date, "Tue, Sep 16");
    assert!(!v.running);
    assert_eq!(v.duration.as_deref(), Some("1:29:43"));
    assert_eq!(v.project.unwrap().name, "Togglite");
    let v = editor_view(&st, NOON, 0, "9:xx", "10:30", &english());
    assert_eq!(v.duration, None);
    st.editing = Some(running);
    let v = editor_view(&st, NOON, 0, "11:00", "", &english());
    assert!(v.running);
    assert_eq!(v.duration.as_deref(), Some("1:00:00"));
    let v = editor_view(&State::default(), NOON, 0, "", "", &english());
    assert_eq!((v.date.as_str(), v.duration, v.running), ("", None, false));
}

#[test]
fn only_the_confirming_click_keeps_delete_armed() {
    assert!(!Action::DeleteEntry.disarms_delete());
    assert!(Action::SaveEntry.disarms_delete());
    assert!(Action::EditEntry(3).disarms_delete());
    assert!(Action::Recent(0).disarms_delete());
}
