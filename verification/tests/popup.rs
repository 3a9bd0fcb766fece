use togglite::i18n::{t, LangState};
use togglite::popup::{
    click, clamp_scroll, edit_rect_in, effective_dpi, header_status, hit, hovered, key_outcome,
    layout_main, layout_settings, popup_position, recent_placeholder, scale, wheel_scroll, Key,
    KeyOutcome, Rect, Status, menu_choice, menu_id, main_regions, layout_edit, layout_history, rows_fit,
};
use togglite::ui::{Action, Page};

fn r(left: i32, top: i32, right: i32, bottom: i32) -> Rect {
    Rect { left, top, right, bottom }
}

#[test]
fn scaling_rounds_to_the_nearest_pixel() {
    assert_eq!(scale(16, 96), 16);
    assert_eq!(scale(16, 144), 24);
    assert_eq!(scale(10, 120), 13);
    assert_eq!(scale(1, 144), 2);
    assert_eq!(scale(0, 192), 0);
    assert_eq!(effective_dpi(0), 96);
    assert_eq!(effective_dpi(144), 144);
    assert_eq!(effective_dpi(5_000_000), 5_000_000);
    assert_eq!(effective_dpi(u32::MAX), -1);
    // Below zero the division rounds toward zero, as integer division does.
    assert_eq!(scale(-10, 96), -9);
    assert_eq!(scale(-1, 96), 0);
    assert_eq!(scale(1000, 96), 1000);
}

#[test]
fn layouts_at_96_and_144_dpi() {
    let l = layout_main(96, 534, false);
    assert_eq!(l.icon_a, r(296, 14, 324, 42));
    assert_eq!(l.icon_b, r(262, 14, 290, 42));
    assert_eq!(l.pill, r(16, 54, 324, 98));
    assert_eq!(l.button, r(16, 152, 324, 196));
    assert_eq!((l.rows_y, l.row_h, l.rows, l.divider_y), (238, 40, 7, 232));
    assert!(!l.running);
    let l = layout_main(144, 801, true);
    assert_eq!(l.icon_a, r(444, 21, 486, 63));
    assert_eq!((l.rows_y, l.row_h, l.rows), (357, 60, 7));
    // A client area too short for any row.
    assert_eq!(layout_main(96, 100, false).rows, 0);
    let s = layout_settings(96);
    assert_eq!(s.back, r(10, 14, 38, 42));
    assert_eq!(s.button, r(16, 322, 324, 366));
    assert_eq!(s.divider_y, 210);
    assert_eq!(edit_rect_in(&r(16, 54, 324, 98), 96), r(30, 66, 310, 86));
    assert_eq!(edit_rect_in(&r(0, 0, 100, 10), 96), r(14, -5, 86, 15));
}

#[test]
fn clicks_need_press_and_release_on_one_region() {
    let regions = vec![(r(0, 0, 10, 10), Action::Start), (r(5, 5, 20, 20), Action::Stop)];
    assert_eq!(hit(&regions, 7, 7), Some(0));
    assert_eq!(hit(&regions, 15, 15), Some(1));
    assert_eq!(hit(&regions, 10, 3), None);
    assert_eq!(hit(&regions, 20, 20), None);
    assert_eq!(click(&regions, Some(1), Some(1)), Some(Action::Stop));
    assert_eq!(click(&regions, Some(0), Some(1)), None);
    assert_eq!(click(&regions, None, Some(1)), None);
    assert_eq!(click(&regions, Some(5), Some(5)), None);
    assert!(hovered(&regions, Some(1), Action::Stop));
    assert!(!hovered(&regions, Some(1), Action::Start));
    assert!(!hovered(&regions, None, Action::Start));
}

#[test]
fn wheel_and_scroll_limits() {
    assert_eq!(wheel_scroll(0, 120), 0);
    assert_eq!(wheel_scroll(3, 120), 2);
    assert_eq!(wheel_scroll(3, -120), 4);
    assert_eq!(clamp_scroll(10, 12, 5), 7);
    assert_eq!(clamp_scroll(3, 12, 5), 3);
    assert_eq!(clamp_scroll(3, 4, 5), 0);
}

#[test]
fn header_and_keys() {
    assert_eq!(header_status(true, true, true), Status::Syncing);
    assert_eq!(header_status(false, true, true), Status::Failed);
    assert_eq!(header_status(false, false, true), Status::Tracking);
    assert_eq!(header_status(false, false, false), Status::Stopped);
    assert_eq!(key_outcome(Page::Main, Key::Enter), KeyOutcome::Perform(Action::Start));
    assert_eq!(key_outcome(Page::Main, Key::Escape), KeyOutcome::Hide);
    assert_eq!(key_outcome(Page::Settings, Key::Enter), KeyOutcome::Perform(Action::Save));
    assert_eq!(key_outcome(Page::Settings, Key::Escape), KeyOutcome::Perform(Action::CloseSettings));
    assert_eq!(key_outcome(Page::Edit, Key::Enter), KeyOutcome::Perform(Action::SaveEntry));
    assert_eq!(key_outcome(Page::History, Key::Enter), KeyOutcome::Ignore);
    let s = t(&LangState::new());
    assert_eq!(recent_placeholder(true, &s), s.no_entries);
    assert_eq!(recent_placeholder(false, &s), s.need_token);
}

#[test]
fn popup_opens_near_the_pointer_and_stays_on_screen() {
    let work = r(0, 0, 1920, 1040);
    // Above the pointer, pushed left off the screen edge.
    assert_eq!(popup_position(None, (1800, 1030), 340, 534, work, 10), (1580, 486));
    // No room above: below the pointer, pushed right onto the screen.
    assert_eq!(popup_position(None, (100, 300), 340, 534, work, 10), (0, 310));
    // A remembered spot, kept on screen.
    assert_eq!(popup_position(Some((5000, 5000)), (0, 0), 340, 534, work, 10), (1580, 506));
    assert_eq!(popup_position(Some((40, 50)), (0, 0), 340, 534, work, 10), (40, 50));
    // Larger than the work area: its top-left corner.
    assert_eq!(popup_position(None, (500, 500), 3000, 2000, work, 10), (0, 0));
}

#[test]
fn picker_ids_and_answers() {
    assert_eq!(menu_id(None), 1);
    assert_eq!(menu_id(Some(0)), 2);
    assert_eq!(menu_id(Some(5)), 7);
    assert_eq!(menu_choice(0), None);
    assert_eq!(menu_choice(1), Some(None));
    assert_eq!(menu_choice(2), Some(Some(0)));
    assert_eq!(menu_choice(7), Some(Some(5)));
}

#[test]
fn history_and_editor_layouts() {
    let h = layout_history(96, 534);
    assert_eq!(h.back, r(10, 14, 38, 42));
    assert_eq!((h.rows_y, h.row_h, h.rows), (54, 40, 11));
    assert_eq!(layout_history(96, 60).rows, 0);
    let e = layout_edit(96);
    assert_eq!(e.start_pill, r(16, 132, 166, 172));
    assert_eq!(e.stop_pill, r(174, 132, 324, 172));
    assert_eq!(e.save, r(174, 266, 324, 310));
    assert_eq!(layout_main(96, 534, false).history, r(296, 204, 324, 232));
    assert_eq!(rows_fit(100, 20, 10, 30), 2);
    assert_eq!(rows_fit(10, 20, 10, 30), 0);
}

#[test]
fn main_page_regions_in_hit_order() {
    let acts = |rs: &Vec<(Rect, Action)>| rs.iter().map(|x| x.1).collect::<Vec<Action>>();
    let rs = main_regions(96, 534, None, 0, 3);
    assert_eq!(
        acts(&rs),
        vec![
            Action::OpenSettings,
            Action::Refresh,
            Action::PickProject,
            Action::Start,
            Action::OpenHistory,
            Action::Recent(0),
            Action::Recent(1),
            Action::Recent(2),
        ]
    );
    assert_eq!(rs[0].0, r(296, 14, 324, 42));
    assert_eq!(rs[5].0, r(16, 238, 324, 278));
    assert_eq!(rs[7].0, r(16, 318, 324, 358));
    // Running, scrolled: seven rows fit, items 5 to 11 show.
    let rs = main_regions(96, 534, Some(42), 5, 20);
    let a = acts(&rs);
    assert_eq!(&a[..5], &[Action::OpenSettings, Action::Refresh, Action::EditEntry(42), Action::Stop, Action::OpenHistory]);
    assert_eq!(&a[5..], &(5..12).map(Action::Recent).collect::<Vec<_>>()[..]);
    assert_eq!(main_regions(96, 534, None, 9, 3).len(), 5);
}
