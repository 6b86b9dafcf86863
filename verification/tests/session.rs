use nameful_cli::app::{App, CurrentScreen, Effect, Key, RemoteOp};
use nameful_cli::config::Config;
use nameful_cli::errors::AppError;
use nameful_cli::json::JsonNode;

fn num(t: &str) -> JsonNode {
    JsonNode::Num(String::from(t))
}

fn sample_doc() -> JsonNode {
    JsonNode::Obj(vec![
        (String::from("a"), num("1")),
        (
            String::from("b"),
            JsonNode::Arr(vec![num("10"), num("20"), num("30")]),
        ),
    ])
}

fn fresh_app() -> App {
    App::new(
        sample_doc(),
        Config {
            api_key: String::from("k"),
        },
    )
}

fn expect_continue(app: &mut App, key: Key) {
    match app.handle_key(key).unwrap() {
        Effect::Continue => {}
        _ => panic!("expected the session to continue"),
    }
}

#[test]
fn field_edit_commit_writes_element() {
    let mut app = fresh_app();
    expect_continue(&mut app, Key::Char('j'));
    assert_eq!(app.selection, 1);
    expect_continue(&mut app, Key::Char('l'));
    assert_eq!(app.key_path, vec![String::from("b")]);
    assert_eq!(app.locations, vec![1]);
    assert_eq!(app.selection, 0);
    expect_continue(&mut app, Key::Char('j'));
    expect_continue(&mut app, Key::Char('e'));
    assert!(matches!(app.current_screen, CurrentScreen::Editing));
    let seeded = app.currently_editing.as_ref().unwrap();
    assert_eq!(seeded.key, "1");
    assert_eq!(seeded.value, "20");
    assert!(!seeded.changed);
    expect_continue(&mut app, Key::Char('9'));
    assert_eq!(app.currently_editing.as_ref().unwrap().value, "9");
    expect_continue(&mut app, Key::Char('9'));
    assert_eq!(app.currently_editing.as_ref().unwrap().value, "99");
    match app.handle_key(Key::Enter).unwrap() {
        Effect::Refresh(Some(RemoteOp::Write { path, value })) => {
            assert_eq!(path, "/b/1");
            assert_eq!(value, "99");
        }
        _ => panic!("expected a write followed by a refetch"),
    }
    assert!(matches!(app.current_screen, CurrentScreen::Main));
    assert!(app.currently_editing.is_none());
}

#[test]
fn wide_array_key_commits_with_zeros_stripped() {
    let elems: Vec<JsonNode> = (0..12).map(|i| num(&(i * 10).to_string())).collect();
    let doc = JsonNode::Obj(vec![(String::from("b"), JsonNode::Arr(elems))]);
    let mut app = App::new(
        doc,
        Config {
            api_key: String::from("k"),
        },
    );
    expect_continue(&mut app, Key::Char('l'));
    expect_continue(&mut app, Key::Char('e'));
    let seeded = app.currently_editing.as_ref().unwrap();
    assert_eq!(seeded.key, "00");
    match app.handle_key(Key::Enter).unwrap() {
        Effect::Refresh(Some(RemoteOp::Write { path, value })) => {
            assert_eq!(path, "/b/0");
            assert_eq!(value, "0");
        }
        _ => panic!("expected a write followed by a refetch"),
    }
}

#[test]
fn array_append_targets_the_array_itself() {
    let mut app = fresh_app();
    expect_continue(&mut app, Key::Char('j'));
    expect_continue(&mut app, Key::Char('l'));
    expect_continue(&mut app, Key::Char('a'));
    assert!(matches!(app.current_screen, CurrentScreen::Adding));
    assert_eq!(app.currently_adding.as_ref().unwrap().value, "");
    expect_continue(&mut app, Key::Char('5'));
    match app.handle_key(Key::Enter).unwrap() {
        Effect::Refresh(Some(RemoteOp::Append { path, value })) => {
            assert_eq!(path, "/b");
            assert_eq!(value, "5");
        }
        _ => panic!("expected an append followed by a refetch"),
    }
    assert!(matches!(app.current_screen, CurrentScreen::Main));
}

#[test]
fn append_is_refused_outside_arrays() {
    let mut app = fresh_app();
    expect_continue(&mut app, Key::Char('a'));
    assert!(matches!(app.current_screen, CurrentScreen::Main));
    assert!(app.currently_adding.is_none());
}

#[test]
fn confirmed_delete_removes_the_selected_key() {
    let mut app = fresh_app();
    expect_continue(&mut app, Key::Char('d'));
    assert!(matches!(app.current_screen, CurrentScreen::Deleting));
    assert!(!app.currently_deleting.as_ref().unwrap().are_you_sure);
    expect_continue(&mut app, Key::Tab);
    assert!(app.currently_deleting.as_ref().unwrap().are_you_sure);
    match app.handle_key(Key::Enter).unwrap() {
        Effect::Refresh(Some(RemoteOp::Remove { path })) => {
            assert_eq!(path, "/a");
        }
        _ => panic!("expected a remove followed by a refetch"),
    }
    assert!(matches!(app.current_screen, CurrentScreen::Main));
    assert!(app.currently_deleting.is_none());
}

#[test]
fn unconfirmed_delete_sends_nothing() {
    let mut app = fresh_app();
    expect_continue(&mut app, Key::Char('d'));
    match app.handle_key(Key::Enter).unwrap() {
        Effect::Refresh(None) => {}
        _ => panic!("an unconfirmed delete must not send a call"),
    }
    assert!(matches!(app.current_screen, CurrentScreen::Main));
    assert!(app.currently_deleting.is_none());
}

#[test]
fn toggling_twice_disarms_the_delete() {
    let mut app = fresh_app();
    expect_continue(&mut app, Key::Char('d'));
    expect_continue(&mut app, Key::Tab);
    expect_continue(&mut app, Key::Tab);
    match app.handle_key(Key::Enter).unwrap() {
        Effect::Refresh(None) => {}
        _ => panic!("a disarmed delete must not send a call"),
    }
}

#[test]
fn descend_then_ascend_restores_the_cursor() {
    let mut app = fresh_app();
    expect_continue(&mut app, Key::Char('j'));
    expect_continue(&mut app, Key::Char('l'));
    assert_eq!(app.key_path.len(), 1);
    expect_continue(&mut app, Key::Char('h'));
    assert_eq!(app.selection, 1);
    assert!(app.key_path.is_empty());
    assert!(app.locations.is_empty());
}

#[test]
fn descend_into_scalar_does_nothing() {
    let mut app = fresh_app();
    expect_continue(&mut app, Key::Char('l'));
    assert!(app.key_path.is_empty());
    assert_eq!(app.selection, 0);
}

#[test]
fn ascend_at_root_does_nothing() {
    let mut app = fresh_app();
    expect_continue(&mut app, Key::Char('h'));
    assert!(app.key_path.is_empty());
}

#[test]
fn cursor_movement_is_clamped() {
    let mut app = fresh_app();
    expect_continue(&mut app, Key::Down);
    expect_continue(&mut app, Key::Down);
    assert_eq!(app.selection, 1);
    expect_continue(&mut app, Key::Up);
    expect_continue(&mut app, Key::Up);
    assert_eq!(app.selection, 0);
    expect_continue(&mut app, Key::Char(']'));
    assert_eq!(app.selection, 1);
    expect_continue(&mut app, Key::Char('['));
    assert_eq!(app.selection, 0);
}

#[test]
fn quit_key_quits() {
    let mut app = fresh_app();
    match app.handle_key(Key::Char('q')).unwrap() {
        Effect::Quit => {}
        _ => panic!("expected the session to end"),
    }
}

#[test]
fn backspace_before_first_character_clears_the_seed() {
    let mut app = fresh_app();
    expect_continue(&mut app, Key::Char('e'));
    assert_eq!(app.currently_editing.as_ref().unwrap().value, "1");
    expect_continue(&mut app, Key::Backspace);
    let editing = app.currently_editing.as_ref().unwrap();
    assert_eq!(editing.value, "");
    assert!(editing.changed);
    expect_continue(&mut app, Key::Backspace);
    assert_eq!(app.currently_editing.as_ref().unwrap().value, "");
    expect_continue(&mut app, Key::Char('7'));
    assert_eq!(app.currently_editing.as_ref().unwrap().value, "7");
}

#[test]
fn append_backspace_erases_one_character() {
    let mut app = fresh_app();
    expect_continue(&mut app, Key::Char('j'));
    expect_continue(&mut app, Key::Char('l'));
    expect_continue(&mut app, Key::Char('a'));
    expect_continue(&mut app, Key::Char('1'));
    expect_continue(&mut app, Key::Char('2'));
    expect_continue(&mut app, Key::Backspace);
    assert_eq!(app.currently_adding.as_ref().unwrap().value, "1");
    match app.handle_key(Key::Enter).unwrap() {
        Effect::Refresh(Some(RemoteOp::Append { value, .. })) => {
            assert_eq!(value, "1");
        }
        _ => panic!("expected an append followed by a refetch"),
    }
}

#[test]
fn escape_cancels_without_a_call() {
    let mut app = fresh_app();
    expect_continue(&mut app, Key::Char('e'));
    expect_continue(&mut app, Key::Char('x'));
    expect_continue(&mut app, Key::Esc);
    assert!(matches!(app.current_screen, CurrentScreen::Main));
    assert!(app.currently_editing.is_none());
}

#[test]
fn malformed_edit_is_rejected_at_commit() {
    let mut app = fresh_app();
    expect_continue(&mut app, Key::Char('e'));
    expect_continue(&mut app, Key::Char('{'));
    assert_eq!(app.handle_key(Key::Enter).unwrap_err(), AppError::MalformedEdit);
    assert!(matches!(app.current_screen, CurrentScreen::Editing));
}

#[test]
fn valid_edit_text_passes_the_json_check() {
    let mut app = fresh_app();
    expect_continue(&mut app, Key::Char('e'));
    for c in "{\"x\":[1,2]}".chars() {
        expect_continue(&mut app, Key::Char(c));
    }
    match app.handle_key(Key::Enter).unwrap() {
        Effect::Refresh(Some(RemoteOp::Write { path, value })) => {
            assert_eq!(path, "/a");
            assert_eq!(value, "{\"x\":[1,2]}");
        }
        _ => panic!("expected a write followed by a refetch"),
    }
}

#[test]
fn stale_pointer_is_reported() {
    let mut app = fresh_app();
    app.key_path = vec![String::from("gone")];
    app.locations = vec![0];
    assert_eq!(
        app.handle_key(Key::Down).unwrap_err(),
        AppError::PointerResolution
    );
}

#[test]
fn scalar_focus_is_a_type_mismatch() {
    let mut app = fresh_app();
    app.key_path = vec![String::from("a")];
    app.locations = vec![0];
    assert_eq!(
        app.handle_key(Key::Down).unwrap_err(),
        AppError::TypeMismatch
    );
}

#[test]
fn selection_beyond_the_view_is_reported() {
    let mut app = fresh_app();
    app.selection = 5;
    assert_eq!(
        app.handle_key(Key::Char('e')).unwrap_err(),
        AppError::SelectionOutOfRange
    );
    assert_eq!(
        app.handle_key(Key::Char('d')).unwrap_err(),
        AppError::SelectionOutOfRange
    );
    assert_eq!(
        app.handle_key(Key::Char('l')).unwrap_err(),
        AppError::SelectionOutOfRange
    );
}

#[test]
fn replace_swaps_the_document_wholesale() {
    let mut app = fresh_app();
    expect_continue(&mut app, Key::Char('j'));
    app.replace(JsonNode::Arr(vec![num("4")]));
    assert_eq!(app.json.render(), "[4]");
    assert_eq!(app.selection, 1);
}

#[test]
fn object_key_that_looks_padded_is_normalized_too() {
    let doc = JsonNode::Obj(vec![(String::from("007"), num("9"))]);
    let mut app = App::new(
        doc,
        Config {
            api_key: String::from("k"),
        },
    );
    expect_continue(&mut app, Key::Char('d'));
    expect_continue(&mut app, Key::Tab);
    match app.handle_key(Key::Enter).unwrap() {
        Effect::Refresh(Some(RemoteOp::Remove { path })) => {
            assert_eq!(path, "/7");
        }
        _ => panic!("expected a remove followed by a refetch"),
    }
}
