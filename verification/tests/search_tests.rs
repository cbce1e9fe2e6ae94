use catalog_core::catalog::{Catalog, CategoryEntry, ScriptEntry};
use catalog_core::events::Key;
use catalog_core::search::{fuzzy_match, search_entries};
use catalog_core::state::{App, AppMode, FocusedPanel};

fn entry(cat: &str, name: &str, path: &str) -> ScriptEntry {
    ScriptEntry {
        name: name.as_bytes().to_vec(),
        category: cat.as_bytes().to_vec(),
        path: path.as_bytes().to_vec(),
    }
}

fn demo_catalog() -> Catalog {
    Catalog {
        categories: vec![
            CategoryEntry {
                name: b"db".to_vec(),
                scripts: vec![
                    entry("db", "backup.sh", "/s/db/backup.sh"),
                    entry("db", "restore.sh", "/s/db/restore.sh"),
                ],
            },
            CategoryEntry {
                name: b"net".to_vec(),
                scripts: vec![entry("net", "ping.sh", "/s/net/ping.sh")],
            },
        ],
    }
}

fn type_query(app: &mut App, q: &str) {
    for b in q.as_bytes() {
        app.handle_search_input(Key::Char(*b));
    }
}

#[test]
fn fuzzy_match_exact_score_and_indices() {
    // "bak" against "db/backup.sh": the backward pass tightens the match
    // into the name segment, positions 3, 4, 6; the b after '/' earns
    // the boundary bonus, the a continues a run, and the early bonus
    // adds 8 - 3: (1 + 4) + (1 + 8) + 1 + 5 = 20.
    let q = b"bak".to_vec();
    let t = b"db/backup.sh".to_vec();
    let m = fuzzy_match(&q, &t).expect("subsequence must match");
    assert_eq!(m.1, vec![3, 4, 6]);
    assert_eq!(m.0, 20);
}

#[test]
fn fuzzy_match_runs_and_boundaries() {
    // "db" against "db/backup.sh": d scores 1 + boundary 4, b scores
    // 1 + run 8, early bonus 8.
    let q = b"db".to_vec();
    let t = b"db/backup.sh".to_vec();
    let m = fuzzy_match(&q, &t).expect("prefix must match");
    assert_eq!(m.1, vec![0, 1]);
    assert_eq!(m.0, 22);
}

#[test]
fn fuzzy_match_case_insensitive() {
    let q = b"RES".to_vec();
    let t = b"db/restore.sh".to_vec();
    assert!(fuzzy_match(&q, &t).is_some());
    let q2 = b"xyz".to_vec();
    assert!(fuzzy_match(&q2, &t).is_none());
}

#[test]
fn empty_query_returns_catalog_in_order() {
    let cat = demo_catalog();
    let entries = catalog_core::catalog::collect_entries(&cat);
    let rs = search_entries(&entries, &Vec::new());
    assert_eq!(rs.len(), 3);
    assert_eq!(rs[0].pos, 0);
    assert_eq!(rs[1].pos, 1);
    assert_eq!(rs[2].pos, 2);
    assert_eq!(rs[0].item.name, b"backup.sh".to_vec());
    assert_eq!(rs[2].item.category, b"net".to_vec());
    // neutral score everywhere
    assert!(rs.iter().all(|r| r.score == 0));
}

#[test]
fn membership_matches_subsequence() {
    let cat = demo_catalog();
    let entries = catalog_core::catalog::collect_entries(&cat);
    // "sh" is a subsequence of every display string
    let rs = search_entries(&entries, &b"sh".to_vec());
    assert_eq!(rs.len(), 3);
    // "bak" only matches db/backup.sh
    let rs = search_entries(&entries, &b"bak".to_vec());
    assert_eq!(rs.len(), 1);
    assert_eq!(rs[0].item.name, b"backup.sh".to_vec());
    // no entry contains a q
    let rs = search_entries(&entries, &b"q".to_vec());
    assert_eq!(rs.len(), 0);
}

#[test]
fn ranking_breaks_ties_in_catalog_order() {
    let cat = demo_catalog();
    let entries = catalog_core::catalog::collect_entries(&cat);
    // "db" scores the two db scripts identically: catalog order decides
    let rs = search_entries(&entries, &b"db".to_vec());
    assert_eq!(rs.len(), 2);
    assert_eq!(rs[0].item.name, b"backup.sh".to_vec());
    assert_eq!(rs[1].item.name, b"restore.sh".to_vec());
    assert_eq!(rs[0].score, rs[1].score);
}

#[test]
fn search_scenario_bak_then_enter() {
    // Typing "bak" yields exactly one result, db/backup.sh, with the
    // matched byte offsets; Enter selects its category and script and
    // returns to Normal with the script panel focused.
    let mut app = App::new(demo_catalog(), false, true);
    app.handle_key(Key::Char(b'/'));
    assert_eq!(app.mode, AppMode::Search);
    type_query(&mut app, "bak");
    assert_eq!(app.search.results.len(), 1);
    let r = &app.search.results[0];
    assert_eq!(r.item.category, b"db".to_vec());
    assert_eq!(r.item.name, b"backup.sh".to_vec());
    assert_eq!(r.indices, vec![3, 4, 6]);
    app.handle_search_input(Key::Enter);
    assert_eq!(app.mode, AppMode::Normal);
    assert_eq!(app.focused_panel, FocusedPanel::Scripts);
    assert_eq!(app.categories.selected, Some(0));
    assert_eq!(app.scripts.selected, Some(0));
    assert_eq!(app.scripts.items[0].name, b"backup.sh".to_vec());
}

#[test]
fn result_navigation_wraps_cyclically() {
    let mut app = App::new(demo_catalog(), false, true);
    app.handle_key(Key::Char(b'/'));
    // empty query: three results
    assert_eq!(app.search.results.len(), 3);
    let start = app.search.selected_idx;
    for _ in 0..3 {
        app.handle_search_input(Key::Down);
    }
    assert_eq!(app.search.selected_idx, start);
    app.handle_search_input(Key::Down);
    app.handle_search_input(Key::Up);
    assert_eq!(app.search.selected_idx, start);
    // down from the last wraps to the first
    app.handle_search_input(Key::Up);
    assert_eq!(app.search.selected_idx, 2);
    app.handle_search_input(Key::Down);
    assert_eq!(app.search.selected_idx, start);
}

#[test]
fn navigation_on_empty_results_is_noop() {
    let mut app = App::new(demo_catalog(), false, true);
    app.handle_key(Key::Char(b'/'));
    type_query(&mut app, "zzz");
    assert_eq!(app.search.results.len(), 0);
    app.handle_search_input(Key::Down);
    app.handle_search_input(Key::Up);
    assert_eq!(app.search.selected_idx, 0);
    app.handle_search_input(Key::Enter);
    assert_eq!(app.mode, AppMode::Search);
}

#[test]
fn autocomplete_prefix_and_accept() {
    let mut app = App::new(demo_catalog(), false, true);
    app.handle_key(Key::Char(b'/'));
    type_query(&mut app, "db");
    // the top result db/backup.sh has "db" as a strict prefix
    assert_eq!(app.search.autocomplete, Some(b"db/backup.sh".to_vec()));
    app.handle_search_input(Key::Tab);
    assert_eq!(app.search.input, b"db/backup.sh".to_vec());
    assert_eq!(app.search.cursor_position, 12);
    assert_eq!(app.search.autocomplete, None);
    assert!(app.search.results.len() >= 1);
}

#[test]
fn autocomplete_absent_without_prefix() {
    let mut app = App::new(demo_catalog(), false, true);
    app.handle_key(Key::Char(b'/'));
    type_query(&mut app, "bak");
    // "bak" matches db/backup.sh but is not a prefix of it
    assert_eq!(app.search.autocomplete, None);
    app.handle_search_input(Key::Tab);
    assert_eq!(app.search.input, b"bak".to_vec());
}

#[test]
fn autocomplete_cleared_by_cursor_left_accepted_by_right() {
    let mut app = App::new(demo_catalog(), false, true);
    app.handle_key(Key::Char(b'/'));
    type_query(&mut app, "db");
    assert!(app.search.autocomplete.is_some());
    app.handle_search_input(Key::Left);
    assert_eq!(app.search.autocomplete, None);
    assert_eq!(app.search.cursor_position, 1);
    // moving right back to the end finds no pending suggestion
    app.handle_search_input(Key::Right);
    assert_eq!(app.search.input, b"db".to_vec());
    // retype to get a suggestion, then accept it with Right at the end
    app.handle_search_input(Key::Backspace);
    assert!(app.search.autocomplete.is_some());
    app.handle_search_input(Key::Right);
    assert_eq!(app.search.input, b"db/backup.sh".to_vec());
    assert_eq!(app.search.autocomplete, None);
}

#[test]
fn escape_discards_query() {
    let mut app = App::new(demo_catalog(), false, true);
    app.handle_key(Key::Char(b'/'));
    type_query(&mut app, "bak");
    app.handle_search_input(Key::Esc);
    assert_eq!(app.mode, AppMode::Normal);
    assert_eq!(app.search.input.len(), 0);
    assert_eq!(app.search.cursor_position, 0);
    assert_eq!(app.search.results.len(), 3);
}

#[test]
fn backspace_at_start_is_noop() {
    let mut app = App::new(demo_catalog(), false, true);
    app.handle_key(Key::Char(b'/'));
    app.handle_search_input(Key::Backspace);
    assert_eq!(app.search.input.len(), 0);
    assert_eq!(app.search.results.len(), 3);
}
