use standup_report::flatten_rows;
use standup_report::handle_event;
use standup_report::App;
use standup_report::GitInfo;
use standup_report::InputEvent;
use standup_report::RepoInfo;

fn record(id: &str, summary: &str) -> GitInfo {
    GitInfo {
        id: String::from(id),
        summary: String::from(summary),
        authored_at: String::from("Thu Jan  1 00:00:00 1970"),
        timestamp_secs: 0,
        offset_minutes: 0,
        author_name: String::from("Alice"),
        author_email: String::from("alice@example.com"),
    }
}

fn table(n: usize) -> App {
    let mut items = Vec::new();
    for i in 0..n {
        items.push(record(&format!("id{}", i), "summary"));
    }
    App::new(items)
}

#[test]
fn empty_rows_never_panic_and_stay_unselected() {
    let mut app = table(0);
    app.next();
    assert_eq!(app.selected, None);
    app.previous();
    assert_eq!(app.selected, None);
    app.next();
    app.next();
    assert_eq!(app.selected, None);
}

#[test]
fn first_next_selects_first_row() {
    let mut app = table(4);
    assert_eq!(app.selected, None);
    app.next();
    assert_eq!(app.selected, Some(0));
}

#[test]
fn wraparound_on_single_row() {
    // n calls of next() from the unselected state land on row 0 for n == 1
    let mut app = table(1);
    app.next();
    assert_eq!(app.selected, Some(0));
    // and stepping further keeps wrapping onto the only row
    app.next();
    assert_eq!(app.selected, Some(0));
}

#[test]
fn next_advances_and_wraps_forward() {
    let mut app = table(3);
    app.next();
    app.next();
    app.next();
    assert_eq!(app.selected, Some(2));
    app.next();
    assert_eq!(app.selected, Some(0));
}

#[test]
fn full_cycle_returns_to_first_row() {
    let mut app = table(3);
    app.next();
    assert_eq!(app.selected, Some(0));
    app.next();
    app.next();
    app.next();
    assert_eq!(app.selected, Some(0));
}

#[test]
fn previous_from_first_row_wraps_to_last() {
    let mut app = table(5);
    app.next();
    assert_eq!(app.selected, Some(0));
    app.previous();
    assert_eq!(app.selected, Some(4));
}

#[test]
fn previous_from_unselected_selects_last() {
    let mut app = table(3);
    app.previous();
    assert_eq!(app.selected, Some(2));
}

#[test]
fn previous_steps_backward() {
    let mut app = table(3);
    app.next();
    app.next();
    assert_eq!(app.selected, Some(1));
    app.previous();
    assert_eq!(app.selected, Some(0));
}

#[test]
fn quit_ends_the_session_and_changes_nothing() {
    let mut app = table(2);
    app.next();
    let quit = handle_event(&mut app, &InputEvent::Quit);
    assert!(quit);
    assert_eq!(app.selected, Some(0));
}

#[test]
fn down_and_up_drive_the_cursor() {
    let mut app = table(3);
    assert!(!handle_event(&mut app, &InputEvent::Down));
    assert_eq!(app.selected, Some(0));
    assert!(!handle_event(&mut app, &InputEvent::Down));
    assert_eq!(app.selected, Some(1));
    assert!(!handle_event(&mut app, &InputEvent::Up));
    assert_eq!(app.selected, Some(0));
}

#[test]
fn other_input_is_ignored() {
    let mut app = table(3);
    handle_event(&mut app, &InputEvent::Down);
    let quit = handle_event(&mut app, &InputEvent::Other);
    assert!(!quit);
    assert_eq!(app.selected, Some(0));
}

#[test]
fn flatten_keeps_order_and_shortens_ids() {
    let a = RepoInfo(
        String::from("/work/a"),
        vec![record("0123456789abcdef0123456789abcdef01234567", "first"), record("short", "second")],
    );
    let b = RepoInfo(String::from("/work/b"), vec![record("fedcba9876543210", "third")]);
    let rows = flatten_rows(&vec![a, b]);
    assert_eq!(rows.len(), 3);
    assert_eq!(rows[0].short_id, "0123456789");
    assert_eq!(rows[0].summary, "first");
    assert_eq!(rows[0].authored_at, "Thu Jan  1 00:00:00 1970");
    assert_eq!(rows[1].short_id, "short");
    assert_eq!(rows[1].summary, "second");
    assert_eq!(rows[2].short_id, "fedcba9876");
    assert_eq!(rows[2].summary, "third");
}
