use catalog_core::catalog::{Catalog, CategoryEntry, ScriptEntry};
use catalog_core::events::{Key, MouseKind};
use catalog_core::state::{App, AppMode, FocusedPanel, LogEvent};

fn entry(cat: &str, name: &str, path: &str) -> ScriptEntry {
    ScriptEntry {
        name: name.as_bytes().to_vec(),
        category: cat.as_bytes().to_vec(),
        path: path.as_bytes().to_vec(),
    }
}

fn demo_catalog() -> Catalog {
    Catalog {
        categories: vec![
            CategoryEntry {
                name: b"db".to_vec(),
                scripts: vec![
                    entry("db", "backup.sh", "/s/db/backup.sh"),
                    entry("db", "restore.sh", "/s/db/restore.sh"),
                ],
            },
            CategoryEntry {
                name: b"net".to_vec(),
                scripts: vec![entry("net", "ping.sh", "/s/net/ping.sh")],
            },
        ],
    }
}

fn empty_catalog() -> Catalog {
    Catalog { categories: Vec::new() }
}

#[test]
fn multi_select_queue_drains_fifo() {
    // Scenario: A and B toggled in that order, confirmed; the queue
    // snapshots [A, B], launches A, then drains B; the multi-select set
    // is unaffected by the draining.
    let mut app = App::new(demo_catalog(), false, true);
    app.handle_key(Key::Char(b'm'));
    assert!(app.multi_select.enabled);
    app.handle_key(Key::Char(b'l'));
    assert_eq!(app.focused_panel, FocusedPanel::Scripts);
    assert_eq!(app.scripts.selected, Some(0));
    app.handle_key(Key::Char(b' '));
    app.handle_key(Key::Char(b'j'));
    app.handle_key(Key::Char(b' '));
    let a = b"/s/db/backup.sh".to_vec();
    let b = b"/s/db/restore.sh".to_vec();
    assert_eq!(app.multi_select.scripts, vec![a.clone(), b.clone()]);
    app.handle_key(Key::Enter);
    assert_eq!(app.mode, AppMode::Confirm);
    app.handle_key(Key::Char(b'y'));
    assert_eq!(app.mode, AppMode::RunScript);
    assert_eq!(app.pending_launch, Some(a.clone()));
    assert_eq!(app.script_execution_queue, vec![b.clone()]);
    assert_eq!(app.multi_select.scripts, vec![a.clone(), b.clone()]);
    app.launch_finished();
    assert_eq!(app.mode, AppMode::RunScript);
    assert_eq!(app.pending_launch, Some(b.clone()));
    assert_eq!(app.script_execution_queue.len(), 0);
    assert_eq!(app.multi_select.scripts, vec![a.clone(), b.clone()]);
    app.launch_finished();
    assert_eq!(app.mode, AppMode::Normal);
    assert_eq!(app.pending_launch, None);
}

#[test]
fn single_confirm_launches_targeted_script() {
    let mut app = App::new(demo_catalog(), true, true);
    app.handle_key(Key::Char(b'l'));
    app.handle_key(Key::Char(b'j'));
    app.handle_key(Key::Enter);
    assert_eq!(app.mode, AppMode::Confirm);
    app.handle_key(Key::Char(b'y'));
    assert_eq!(app.mode, AppMode::RunScript);
    assert_eq!(app.pending_launch, Some(b"/s/db/restore.sh".to_vec()));
    assert_eq!(app.script_execution_queue.len(), 0);
    assert_eq!(app.log, vec![LogEvent::ConfirmedSingle]);
}

#[test]
fn confirm_negative_cancels() {
    let mut app = App::new(demo_catalog(), true, true);
    app.handle_key(Key::Char(b'l'));
    app.handle_key(Key::Enter);
    app.handle_key(Key::Char(b'n'));
    assert_eq!(app.mode, AppMode::Normal);
    assert_eq!(app.pending_launch, None);
    assert_eq!(app.script_execution_queue.len(), 0);
    assert_eq!(app.log, vec![LogEvent::Cancelled]);
}

#[test]
fn confirm_multi_logs_count() {
    let mut app = App::new(demo_catalog(), true, true);
    app.handle_key(Key::Char(b'm'));
    app.handle_key(Key::Char(b'l'));
    app.handle_key(Key::Char(b' '));
    app.handle_key(Key::Char(b'j'));
    app.handle_key(Key::Char(b' '));
    app.handle_key(Key::Enter);
    app.handle_key(Key::Char(b'y'));
    assert_eq!(app.log, vec![LogEvent::ConfirmedMulti { count: 2 }]);
}

#[test]
fn confirm_not_targetable_when_multi_set_empty() {
    let mut app = App::new(demo_catalog(), false, true);
    app.handle_key(Key::Char(b'm'));
    app.handle_key(Key::Char(b'l'));
    // multi-select on with an empty set: Enter must not confirm
    app.handle_key(Key::Enter);
    assert_eq!(app.mode, AppMode::Normal);
}

#[test]
fn multi_toggle_is_own_inverse() {
    let mut app = App::new(demo_catalog(), false, true);
    app.handle_key(Key::Char(b'm'));
    app.handle_key(Key::Char(b'l'));
    app.handle_key(Key::Char(b' '));
    app.handle_key(Key::Char(b'j'));
    app.handle_key(Key::Char(b' '));
    let a = b"/s/db/backup.sh".to_vec();
    let b = b"/s/db/restore.sh".to_vec();
    assert_eq!(app.multi_select.scripts, vec![a.clone(), b.clone()]);
    // toggling A again removes it, order of the rest untouched
    app.handle_key(Key::Char(b'k'));
    app.handle_key(Key::Char(b' '));
    assert_eq!(app.multi_select.scripts, vec![b.clone()]);
    // toggling it once more restores membership (at the end)
    app.handle_key(Key::Char(b' '));
    assert_eq!(app.multi_select.scripts, vec![b.clone(), a.clone()]);
}

#[test]
fn disabling_multi_select_clears_set() {
    let mut app = App::new(demo_catalog(), false, true);
    app.handle_key(Key::Char(b'm'));
    app.handle_key(Key::Char(b'l'));
    app.handle_key(Key::Char(b' '));
    assert_eq!(app.multi_select.scripts.len(), 1);
    app.handle_key(Key::Esc);
    assert!(!app.multi_select.enabled);
    assert_eq!(app.multi_select.scripts.len(), 0);
    // re-enabling starts empty
    app.handle_key(Key::Char(b'm'));
    assert!(app.multi_select.enabled);
    assert_eq!(app.multi_select.scripts.len(), 0);
}

#[test]
fn help_scroll_is_clamped() {
    // Scenario: max_scroll 20, scroll 19, PageDown clamps to 20, not 29.
    let mut app = App::new(demo_catalog(), false, true);
    app.set_help_max_scroll(20);
    app.handle_key(Key::Char(b'?'));
    assert_eq!(app.mode, AppMode::Help);
    app.handle_key(Key::End);
    assert_eq!(app.help.scroll, 20);
    app.handle_key(Key::Up);
    assert_eq!(app.help.scroll, 19);
    app.handle_key(Key::PageDown);
    assert_eq!(app.help.scroll, 20);
    app.handle_key(Key::PageUp);
    assert_eq!(app.help.scroll, 10);
    app.handle_key(Key::PageUp);
    assert_eq!(app.help.scroll, 0);
    app.handle_key(Key::Up);
    assert_eq!(app.help.scroll, 0);
    // leaving help resets the scroll
    app.handle_key(Key::Esc);
    assert_eq!(app.mode, AppMode::Normal);
    assert_eq!(app.help.scroll, 0);
}

#[test]
fn preview_scroll_clamped_and_wheel_steps() {
    let mut app = App::new(demo_catalog(), false, true);
    app.set_preview_content(b"text".to_vec(), 3);
    app.handle_key(Key::Char(b'p'));
    assert_eq!(app.mode, AppMode::Preview);
    assert_eq!(app.preview.scroll, 0);
    app.handle_mouse(MouseKind::ScrollDown);
    assert_eq!(app.preview.scroll, 2);
    app.handle_mouse(MouseKind::ScrollDown);
    assert_eq!(app.preview.scroll, 3);
    app.handle_mouse(MouseKind::ScrollUp);
    assert_eq!(app.preview.scroll, 1);
    app.handle_key(Key::PageUp);
    assert_eq!(app.preview.scroll, 0);
    app.handle_key(Key::End);
    assert_eq!(app.preview.scroll, 3);
    app.handle_key(Key::Char(b'q'));
    assert_eq!(app.mode, AppMode::Normal);
}

#[test]
fn description_mode_keys_and_no_wheel() {
    let mut app = App::new(demo_catalog(), false, true);
    app.set_description_content(b"about".to_vec(), 2);
    app.handle_key(Key::Char(b'd'));
    assert_eq!(app.mode, AppMode::Description);
    app.handle_key(Key::Down);
    assert_eq!(app.description.scroll, 1);
    // the wheel is not bound in description mode
    app.handle_mouse(MouseKind::ScrollDown);
    assert_eq!(app.description.scroll, 1);
    app.handle_key(Key::Char(b'd'));
    assert_eq!(app.mode, AppMode::Normal);
    assert_eq!(app.description.scroll, 0);
    assert_eq!(app.description_content, None);
}

#[test]
fn category_navigation_repopulates_scripts() {
    let mut app = App::new(demo_catalog(), false, true);
    assert_eq!(app.categories.selected, Some(0));
    assert_eq!(app.scripts.items.len(), 2);
    app.handle_key(Key::Char(b'j'));
    assert_eq!(app.categories.selected, Some(1));
    assert_eq!(app.scripts.items.len(), 1);
    assert_eq!(app.scripts.selected, None);
    // wraps past the end
    app.handle_key(Key::Char(b'j'));
    assert_eq!(app.categories.selected, Some(0));
    assert_eq!(app.scripts.items.len(), 2);
    app.handle_key(Key::Char(b'k'));
    assert_eq!(app.categories.selected, Some(1));
    app.handle_key(Key::Home);
    assert_eq!(app.categories.selected, Some(0));
    app.handle_key(Key::End);
    assert_eq!(app.categories.selected, Some(1));
}

#[test]
fn focus_moves_between_panels() {
    let mut app = App::new(demo_catalog(), false, true);
    assert_eq!(app.focused_panel, FocusedPanel::Categories);
    app.handle_key(Key::Char(b'l'));
    assert_eq!(app.focused_panel, FocusedPanel::Scripts);
    assert_eq!(app.scripts.selected, Some(0));
    app.handle_key(Key::Char(b'j'));
    assert_eq!(app.scripts.selected, Some(1));
    app.handle_key(Key::Char(b'h'));
    assert_eq!(app.focused_panel, FocusedPanel::Categories);
    assert_eq!(app.scripts.selected, None);
}

#[test]
fn quit_only_without_multi_select() {
    let mut app = App::new(demo_catalog(), false, true);
    app.handle_key(Key::Char(b'm'));
    app.handle_key(Key::Char(b'q'));
    // first q only leaves multi-select mode
    assert!(!app.quit);
    assert!(!app.multi_select.enabled);
    app.handle_key(Key::Char(b'q'));
    assert!(app.quit);
}

#[test]
fn empty_catalog_is_inert() {
    let mut app = App::new(empty_catalog(), false, true);
    assert_eq!(app.categories.selected, None);
    assert_eq!(app.scripts.items.len(), 0);
    app.handle_key(Key::Char(b'j'));
    app.handle_key(Key::Char(b'l'));
    app.handle_key(Key::Enter);
    assert_eq!(app.mode, AppMode::Normal);
    app.handle_key(Key::Char(b'/'));
    assert_eq!(app.mode, AppMode::Search);
    assert_eq!(app.search.results.len(), 0);
    app.handle_search_input(Key::Enter);
    assert_eq!(app.mode, AppMode::Search);
}

#[test]
fn replaying_events_is_deterministic() {
    let keys = [
        Key::Char(b'/'),
        Key::Char(b'd'),
        Key::Char(b'b'),
        Key::Down,
        Key::Enter,
        Key::Char(b'm'),
        Key::Char(b' '),
        Key::Enter,
        Key::Char(b'y'),
    ];
    let mut app1 = App::new(demo_catalog(), true, true);
    let mut app2 = App::new(demo_catalog(), true, true);
    for k in keys {
        app1.handle_key(k);
        app2.handle_key(k);
    }
    assert_eq!(app1.mode, app2.mode);
    assert_eq!(app1.focused_panel, app2.focused_panel);
    assert_eq!(app1.categories.selected, app2.categories.selected);
    assert_eq!(app1.scripts.selected, app2.scripts.selected);
    assert_eq!(app1.search.input, app2.search.input);
    assert_eq!(app1.search.selected_idx, app2.search.selected_idx);
    assert_eq!(app1.search.results.len(), app2.search.results.len());
    assert_eq!(app1.multi_select.scripts, app2.multi_select.scripts);
    assert_eq!(app1.script_execution_queue, app2.script_execution_queue);
    assert_eq!(app1.pending_launch, app2.pending_launch);
    assert_eq!(app1.log, app2.log);
}

#[test]
fn theme_cycles_unless_locked() {
    let mut app = App::new(demo_catalog(), false, false);
    assert_eq!(app.theme_index, 0);
    app.handle_key(Key::Char(b't'));
    assert_eq!(app.theme_index, 1);
    for _ in 0..3 {
        app.handle_key(Key::Char(b't'));
    }
    assert_eq!(app.theme_index, 0);
    let mut locked = App::new(demo_catalog(), false, true);
    locked.handle_key(Key::Char(b't'));
    assert_eq!(locked.theme_index, 0);
}

#[test]
fn root_warning_dismissed_by_key() {
    let mut app = App::new(demo_catalog(), false, true);
    app.show_root_warning();
    assert_eq!(app.mode, AppMode::RootWarning);
    app.handle_key(Key::Char(b'x'));
    assert_eq!(app.mode, AppMode::RootWarning);
    app.handle_key(Key::Enter);
    assert_eq!(app.mode, AppMode::Normal);
}

#[test]
fn search_selection_logged_when_enabled() {
    let mut app = App::new(demo_catalog(), true, true);
    app.handle_key(Key::Char(b'/'));
    app.handle_search_input(Key::Enter);
    assert_eq!(app.log, vec![LogEvent::SearchSelected]);
    let mut silent = App::new(demo_catalog(), false, true);
    silent.handle_key(Key::Char(b'/'));
    silent.handle_search_input(Key::Enter);
    assert_eq!(silent.log.len(), 0);
}
