use tasktrack::app::{App, Key, Screen};
use tasktrack::codec::{decode_store, encode_store, load_store, LoadError};
use tasktrack::form::parse_duration;
use tasktrack::store::TaskStore;
use tasktrack::task::{next_status, status_label, Status, Task};

fn sample_task(title: &str, description: &str, duration_secs: u64, status: Status) -> Task {
    Task {
        created: String::from("2024-03-01T09:30:00+01:00"),
        duration_secs,
        title: String::from(title),
        description: String::from(description),
        status,
    }
}

fn store_of(tasks: Vec<Task>) -> TaskStore {
    let mut store = TaskStore::new();
    for t in tasks {
        store.append(t);
    }
    store
}

fn app_with_tasks(n: usize) -> App {
    let mut tasks = Vec::new();
    for i in 0..n {
        tasks.push(sample_task(&format!("task {}", i), "", 3600, Status::NotStarted));
    }
    App::new(store_of(tasks))
}

fn type_chars(app: &mut App, s: &str) {
    for c in s.chars() {
        app.handle_key(Key::Char(c), "");
    }
}

#[test]
fn status_cycle_has_period_four() {
    for start in [Status::NotStarted, Status::InProgress, Status::Complete, Status::Overdue] {
        let mut s = start;
        for _ in 0..4 {
            s = next_status(s);
        }
        assert_eq!(s, start);
    }
    assert_eq!(next_status(Status::NotStarted), Status::InProgress);
    assert_eq!(next_status(Status::InProgress), Status::Complete);
    assert_eq!(next_status(Status::Complete), Status::Overdue);
    assert_eq!(next_status(Status::Overdue), Status::NotStarted);
}

#[test]
fn status_labels() {
    assert_eq!(status_label(Status::NotStarted), "Not Started");
    assert_eq!(status_label(Status::InProgress), "In Progress");
    assert_eq!(status_label(Status::Complete), "Complete");
    assert_eq!(status_label(Status::Overdue), "Overdue");
}

#[test]
fn selection_wraps_at_both_ends() {
    let mut app = app_with_tasks(3);
    assert_eq!(app.selected, None);
    app.handle_key(Key::Down, "");
    assert_eq!(app.selected, Some(0));
    app.handle_key(Key::Up, "");
    assert_eq!(app.selected, Some(2));
    app.handle_key(Key::Down, "");
    assert_eq!(app.selected, Some(0));
    app.handle_key(Key::Down, "");
    assert_eq!(app.selected, Some(1));
}

#[test]
fn selection_on_empty_store_stays_none() {
    let mut app = app_with_tasks(0);
    app.handle_key(Key::Down, "");
    assert_eq!(app.selected, None);
    app.handle_key(Key::Up, "");
    assert_eq!(app.selected, None);
}

#[test]
fn commit_creates_task_from_buffers() {
    let mut app = app_with_tasks(0);
    app.handle_key(Key::Char('n'), "");
    assert_eq!(app.screen, Screen::Compose);
    type_chars(&mut app, "Buy milk");
    app.handle_key(Key::Tab, "");
    type_chars(&mut app, "5");
    app.handle_key(Key::Tab, "");
    type_chars(&mut app, "2%");
    app.handle_key(Key::Enter, "2024-03-01T12:00:00+01:00");
    assert_eq!(app.screen, Screen::List);
    assert_eq!(app.store.tasks.len(), 1);
    let t = &app.store.tasks[0];
    assert_eq!(t.title, "Buy milk");
    assert_eq!(t.description, "2%");
    assert_eq!(t.duration_secs, 5 * 3600);
    assert_eq!(t.status, Status::NotStarted);
    assert_eq!(t.created, "2024-03-01T12:00:00+01:00");
}

#[test]
fn commit_with_clock_stamp() {
    let mut app = app_with_tasks(0);
    app.handle_key_now(Key::Char('n'));
    type_chars(&mut app, "t");
    app.handle_key_now(Key::Tab);
    type_chars(&mut app, "1");
    app.handle_key_now(Key::Enter);
    assert_eq!(app.store.tasks.len(), 1);
    assert!(!app.store.tasks[0].created.is_empty());
}

#[test]
fn commit_with_invalid_duration_changes_nothing() {
    let mut app = app_with_tasks(0);
    app.handle_key(Key::Char('n'), "");
    type_chars(&mut app, "Title");
    app.handle_key(Key::Tab, "");
    type_chars(&mut app, "abc");
    app.handle_key(Key::Enter, "2024-03-01T12:00:00+01:00");
    assert_eq!(app.store.tasks.len(), 0);
    assert_eq!(app.screen, Screen::Compose);
    assert!(app.form.duration_invalid);
    let dur: String = app.form.duration.iter().collect();
    assert_eq!(dur, "abc");
}

#[test]
fn toggle_cycles_selected_task() {
    let mut app = app_with_tasks(2);
    app.handle_key(Key::Down, "");
    app.handle_key(Key::Enter, "");
    assert_eq!(app.store.tasks[0].status, Status::InProgress);
    assert_eq!(app.store.tasks[1].status, Status::NotStarted);
    for _ in 0..3 {
        app.handle_key(Key::Enter, "");
    }
    assert_eq!(app.store.tasks[0].status, Status::NotStarted);
}

#[test]
fn toggle_without_selection_is_no_op() {
    let mut app = app_with_tasks(2);
    app.handle_key(Key::Enter, "");
    assert_eq!(app.store.tasks[0].status, Status::NotStarted);
    assert_eq!(app.store.tasks[1].status, Status::NotStarted);
}

#[test]
fn overlay_toggle_twice_restores_state() {
    let mut app = app_with_tasks(1);
    assert!(!app.show_description);
    app.handle_key(Key::Char(' '), "");
    assert!(app.show_description);
    app.handle_key(Key::Char(' '), "");
    assert!(!app.show_description);
}

#[test]
fn overlay_toggle_on_empty_store_does_not_panic() {
    let mut app = app_with_tasks(0);
    app.handle_key(Key::Char(' '), "");
    assert!(app.show_description);
    app.handle_key(Key::Char(' '), "");
    assert!(!app.show_description);
}

#[test]
fn quit_sets_exit_flag() {
    let mut app = app_with_tasks(0);
    assert!(!app.exit);
    app.handle_key(Key::Char('q'), "");
    assert!(app.exit);
}

#[test]
fn cancel_discards_buffers_and_entry_resets_them() {
    let mut app = app_with_tasks(0);
    app.handle_key(Key::Char('n'), "");
    type_chars(&mut app, "left over");
    app.handle_key(Key::Esc, "");
    assert_eq!(app.screen, Screen::List);
    assert_eq!(app.store.tasks.len(), 0);
    assert!(app.form.title.is_empty());
    app.handle_key(Key::Char('n'), "");
    assert!(app.form.title.is_empty());
    assert!(app.form.duration.is_empty());
    assert!(app.form.description.is_empty());
    assert_eq!(app.form.focus, 0);
}

#[test]
fn tab_cycles_focus() {
    let mut app = app_with_tasks(0);
    app.handle_key(Key::Char('n'), "");
    assert_eq!(app.form.focus, 0);
    app.handle_key(Key::Tab, "");
    assert_eq!(app.form.focus, 1);
    app.handle_key(Key::Tab, "");
    assert_eq!(app.form.focus, 2);
    app.handle_key(Key::Tab, "");
    assert_eq!(app.form.focus, 0);
}

#[test]
fn backspace_edits_focused_buffer() {
    let mut app = app_with_tasks(0);
    app.handle_key(Key::Char('n'), "");
    type_chars(&mut app, "ab");
    app.handle_key(Key::Backspace, "");
    let title: String = app.form.title.iter().collect();
    assert_eq!(title, "a");
    app.handle_key(Key::Backspace, "");
    app.handle_key(Key::Backspace, "");
    assert!(app.form.title.is_empty());
}

#[test]
fn parse_duration_accepts_digits_only() {
    let five: Vec<char> = "5".chars().collect();
    assert_eq!(parse_duration(&five), Some(5));
    let padded: Vec<char> = "007".chars().collect();
    assert_eq!(parse_duration(&padded), Some(7));
    let empty: Vec<char> = Vec::new();
    assert_eq!(parse_duration(&empty), None);
    let negative: Vec<char> = "-5".chars().collect();
    assert_eq!(parse_duration(&negative), None);
    let letters: Vec<char> = "abc".chars().collect();
    assert_eq!(parse_duration(&letters), None);
    let spaced: Vec<char> = "5 ".chars().collect();
    assert_eq!(parse_duration(&spaced), None);
}

#[test]
fn parse_duration_rejects_values_too_large_for_seconds() {
    let huge: Vec<char> = "99999999999999999999999".chars().collect();
    assert_eq!(parse_duration(&huge), None);
    let too_many_hours: Vec<char> = "10000000000000000000".chars().collect();
    assert_eq!(parse_duration(&too_many_hours), None);
    let max_hours: Vec<char> = "5124095576030431".chars().collect();
    assert_eq!(parse_duration(&max_hours), Some(5124095576030431));
}

#[test]
fn encode_of_empty_store_is_count_line() {
    let store = TaskStore::new();
    assert_eq!(encode_store(&store), "0\n");
}

#[test]
fn encode_of_one_task_is_exact() {
    let mut store = TaskStore::new();
    store.append(Task {
        created: String::from("C"),
        duration_secs: 7,
        title: String::from("T"),
        description: String::new(),
        status: Status::NotStarted,
    });
    assert_eq!(encode_store(&store), "1\n1\nC7\n1\nT0\n0\n");
}

#[test]
fn round_trip_preserves_every_field_and_the_order() {
    let store = store_of(vec![
        sample_task("first", "plain", 3600, Status::NotStarted),
        sample_task("second\ttabbed", "line one\nline two", 48 * 3600, Status::InProgress),
        sample_task("", "quotes \" and \\ and newline\n", 0, Status::Complete),
        sample_task("unicode \u{00e9}\u{20ac}", "5:rest", u64::MAX, Status::Overdue),
    ]);
    let text = encode_store(&store);
    let loaded = decode_store(&text).expect("the encoding must decode");
    assert_eq!(loaded.tasks.len(), store.tasks.len());
    for (a, b) in store.tasks.iter().zip(loaded.tasks.iter()) {
        assert_eq!(a.created, b.created);
        assert_eq!(a.duration_secs, b.duration_secs);
        assert_eq!(a.title, b.title);
        assert_eq!(a.description, b.description);
        assert_eq!(a.status, b.status);
    }
}

#[test]
fn decode_rejects_malformed_text() {
    assert!(decode_store("").is_none());
    assert!(decode_store("garbage").is_none());
    assert!(decode_store("1\n").is_none());
    assert!(decode_store("0\nx").is_none());
    assert!(decode_store("1\n1\nC7\n1\nT0\n9\n").is_none());
    assert!(decode_store("18446744073709551616\n").is_none());
    assert!(decode_store("00\n").is_none());
    assert!(decode_store("1\n01\nC7\n1\nT0\n0\n").is_none());
}

#[test]
fn load_from_missing_file_yields_empty_store() {
    let store = load_store(None).expect("a missing file is the first run");
    assert_eq!(store.tasks.len(), 0);
}

#[test]
fn load_from_present_file_decodes_or_fails() {
    let store = store_of(vec![sample_task("kept", "d", 60, Status::Overdue)]);
    let text = encode_store(&store);
    let loaded = load_store(Some(&text)).expect("an encoding must load");
    assert_eq!(loaded.tasks.len(), 1);
    assert_eq!(loaded.tasks[0].title, "kept");
    assert_eq!(loaded.tasks[0].status, Status::Overdue);
    assert!(matches!(load_store(Some("not a store")), Err(LoadError::Malformed)));
}

#[test]
fn store_get_is_bounded() {
    let store = store_of(vec![sample_task("only", "", 1, Status::NotStarted)]);
    assert!(store.get(0).is_some());
    assert!(store.get(1).is_none());
    assert_eq!(store.len(), 1);
}
