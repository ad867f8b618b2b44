use kindle_mtp::device::FileEntry;
use kindle_mtp::nav::{App, Key, NavAction};

fn folder(name: &str, id: u32) -> FileEntry {
    FileEntry { name: name.to_string(), size: 0, is_folder: true, id }
}

fn file(name: &str, size: u64, id: u32) -> FileEntry {
    FileEntry { name: name.to_string(), size, is_folder: false, id }
}

fn connected_app_with(entries: Vec<FileEntry>) -> App {
    let mut app = App::new();
    app.connect_succeeded();
    app.refresh_listing(Ok(entries));
    app
}

fn names(app: &App) -> Vec<&str> {
    app.entries().iter().map(|e| e.name.as_str()).collect()
}

#[test]
fn fresh_session_is_disconnected() {
    let app = App::new();
    assert!(!app.is_connected());
    assert!(!app.wants_quit());
    assert!(app.entries().is_empty());
    assert!(app.path_stack().is_empty());
    assert!(app.selected_index().is_none());
    assert_eq!(app.status().as_str(), "Press 'c' to connect to Kindle");
}

#[test]
fn refresh_sorts_folders_first_then_names_case_insensitively() {
    // adapter order scrambled on purpose
    let app = connected_app_with(vec![
        file("readme.txt", 321, 3),
        folder("eBooks", 2),
        folder("Documents", 1),
    ]);
    assert_eq!(names(&app), vec!["Documents", "eBooks", "readme.txt"]);
    assert_eq!(app.selected_index(), Some(0));
    assert_eq!(app.status().as_str(), "Path: / (3 items)");
}

#[test]
fn refresh_orders_names_by_lowercase() {
    let app = connected_app_with(vec![
        file("banana", 1, 1),
        file("Apple", 1, 2),
        file("cherry", 1, 3),
        folder("zeta", 4),
        folder("Alpha", 5),
    ]);
    assert_eq!(names(&app), vec!["Alpha", "zeta", "Apple", "banana", "cherry"]);
}

#[test]
fn refresh_of_empty_listing_clears_selection() {
    let app = connected_app_with(vec![]);
    assert!(app.entries().is_empty());
    assert!(app.selected_index().is_none());
    assert_eq!(app.status().as_str(), "Path: / (0 items)");
}

#[test]
fn refresh_failure_keeps_listing_and_selection() {
    let mut app = connected_app_with(vec![file("a", 1, 1)]);
    app.refresh_listing(Err("device gone".to_string()));
    assert_eq!(names(&app), vec!["a"]);
    assert_eq!(app.selected_index(), Some(0));
    assert_eq!(app.status().as_str(), "Error listing files: device gone");
}

#[test]
fn select_next_wraps_after_list_length_steps() {
    let mut app = connected_app_with(vec![
        file("a", 1, 1),
        file("b", 1, 2),
        file("c", 1, 3),
    ]);
    assert_eq!(app.selected_index(), Some(0));
    app.select_next();
    assert_eq!(app.selected_index(), Some(1));
    app.select_next();
    assert_eq!(app.selected_index(), Some(2));
    app.select_next();
    assert_eq!(app.selected_index(), Some(0));
}

#[test]
fn select_previous_wraps_to_the_bottom() {
    let mut app = connected_app_with(vec![file("a", 1, 1), file("b", 1, 2)]);
    app.select_previous();
    assert_eq!(app.selected_index(), Some(1));
    app.select_previous();
    assert_eq!(app.selected_index(), Some(0));
}

#[test]
fn selection_moves_are_no_ops_on_an_empty_listing() {
    let mut app = connected_app_with(vec![]);
    app.select_next();
    assert!(app.selected_index().is_none());
    app.select_previous();
    assert!(app.selected_index().is_none());
}

#[test]
fn enter_directory_then_go_up_restores_the_path_stack() {
    let mut app = connected_app_with(vec![folder("Documents", 1), file("readme.txt", 3, 2)]);
    assert!(app.path_stack().is_empty());
    assert!(app.enter_directory());
    let stack: Vec<&str> = app.path_stack().iter().map(|s| s.as_str()).collect();
    assert_eq!(stack, vec!["Documents"]);
    app.refresh_listing(Ok(vec![file("inner.txt", 1, 9)]));
    assert!(app.go_up());
    assert!(app.path_stack().is_empty());
}

#[test]
fn enter_directory_on_a_file_is_a_no_op() {
    let mut app = connected_app_with(vec![file("readme.txt", 3, 2)]);
    assert!(!app.enter_directory());
    assert!(app.path_stack().is_empty());
}

#[test]
fn go_up_at_root_is_a_no_op() {
    let mut app = connected_app_with(vec![]);
    assert!(!app.go_up());
}

#[test]
fn current_path_string_joins_segments() {
    let mut app = connected_app_with(vec![folder("Documents", 1)]);
    assert_eq!(app.current_path_string().as_str(), "/");
    app.enter_directory();
    app.refresh_listing(Ok(vec![folder("sub", 2)]));
    assert_eq!(app.current_path_string().as_str(), "/Documents");
    app.enter_directory();
    app.refresh_listing(Ok(vec![]));
    assert_eq!(app.current_path_string().as_str(), "/Documents/sub");
}

#[test]
fn failed_connect_leaves_session_usable_for_a_retry() {
    let mut app = App::new();
    let act = app.handle_key(Key::Char('c'));
    assert_eq!(act, NavAction::Connect);
    assert_eq!(app.status().as_str(), "Connecting to Kindle...");
    app.connect_failed("No Kindle device found");
    assert!(!app.is_connected());
    assert_eq!(app.status().as_str(), "Connection failed: No Kindle device found");
    // a second attempt is accepted without restarting the session
    let act = app.handle_key(Key::Char('c'));
    assert_eq!(act, NavAction::Connect);
    app.connect_succeeded();
    assert!(app.is_connected());
    assert_eq!(app.status().as_str(), "Connected! Loading files...");
}

#[test]
fn disconnect_clears_the_session() {
    let mut app = connected_app_with(vec![folder("Documents", 1)]);
    app.enter_directory();
    app.disconnect();
    assert!(!app.is_connected());
    assert!(app.entries().is_empty());
    assert!(app.path_stack().is_empty());
    assert!(app.selected_index().is_none());
    assert_eq!(app.status().as_str(), "Disconnected. Press 'c' to reconnect.");
}

#[test]
fn keys_route_to_the_matching_events() {
    let mut app = connected_app_with(vec![
        folder("Documents", 1),
        file("a", 1, 2),
        file("b", 1, 3),
    ]);
    assert_eq!(app.handle_key(Key::Down), NavAction::Stay);
    assert_eq!(app.selected_index(), Some(1));
    assert_eq!(app.handle_key(Key::Char('j')), NavAction::Stay);
    assert_eq!(app.selected_index(), Some(2));
    assert_eq!(app.handle_key(Key::Char('k')), NavAction::Stay);
    assert_eq!(app.selected_index(), Some(1));
    assert_eq!(app.handle_key(Key::Up), NavAction::Stay);
    assert_eq!(app.selected_index(), Some(0));
    // entering the selected folder asks for a refresh
    assert_eq!(app.handle_key(Key::Enter), NavAction::Refresh);
    let stack: Vec<&str> = app.path_stack().iter().map(|s| s.as_str()).collect();
    assert_eq!(stack, vec!["Documents"]);
    app.refresh_listing(Ok(vec![]));
    assert_eq!(app.handle_key(Key::Backspace), NavAction::Refresh);
    assert!(app.path_stack().is_empty());
    app.refresh_listing(Ok(vec![]));
    // refresh is only owed while connected
    assert_eq!(app.handle_key(Key::Char('r')), NavAction::Refresh);
    assert_eq!(app.handle_key(Key::Char('d')), NavAction::Stay);
    assert!(!app.is_connected());
    assert_eq!(app.handle_key(Key::Char('r')), NavAction::Stay);
    assert_eq!(app.handle_key(Key::Char('q')), NavAction::Stay);
    assert!(app.wants_quit());
    assert_eq!(app.handle_key(Key::Other), NavAction::Stay);
}
