use script_picker::Key;
use script_picker::ManifestLoad;
use script_picker::Render;
use script_picker::Scripts;
use script_picker::StepResult;
use script_picker::parse_manifest;
use script_picker::read_scripts;

fn session_from(text: &str) -> Render {
    Render::new(Scripts::new(read_scripts(parse_manifest(text))))
}

#[test]
fn it_initial_list_is_sorted_with_first_row_selected() {
    let render = session_from(r#"{"scripts": {"start": "run start", "test": "run test"}}"#);

    let expected = vec![
        ("start".to_string(), "run start".to_string()),
        ("test".to_string(), "run test".to_string()),
    ];
    assert_eq!(render.script_table.filtered, expected);
    assert_eq!(render.script_table.selected, 0);
    assert_eq!(
        render.script_table.get_script_name(),
        Some("start".to_string())
    );
}

#[test]
fn it_typing_filters_and_resets_the_selection() {
    let mut render = session_from(r#"{"scripts": {"start": "run start", "test": "run test"}}"#);
    render.script_table.selected = 1;

    let first = render.step(Key::Char('t'));
    let second = render.step(Key::Char('e'));

    assert!(matches!(first, StepResult::Continue));
    assert!(matches!(second, StepResult::Continue));
    assert_eq!(render.script_input.input, "te");
    assert_eq!(
        render.script_table.filtered,
        vec![("test".to_string(), "run test".to_string())]
    );
    assert_eq!(render.script_table.selected, 0);
}

#[test]
fn it_missing_manifest_shows_the_placeholder_row() {
    let render = Render::new(Scripts::new(read_scripts(ManifestLoad::MissingFile)));

    let expected = vec![(
        "file_not_found".to_string(),
        "package.json could not be found in this directory".to_string(),
    )];
    assert_eq!(render.script_table.filtered, expected);
}

#[test]
fn it_up_from_the_first_row_wraps_to_the_last() {
    let mut render = session_from(
        r#"{"scripts": {"one": "cmd one", "two": "cmd two", "three": "cmd three"}}"#,
    );
    assert_eq!(render.script_table.filtered.len(), 3);
    assert_eq!(render.script_table.selected, 0);

    let result = render.step(Key::Up);

    assert!(matches!(result, StepResult::Continue));
    assert_eq!(render.script_table.selected, 2);
}

#[test]
fn it_enter_on_an_empty_list_keeps_the_loop_running() {
    let mut render = session_from(r#"{"scripts": {"start": "run start", "test": "run test"}}"#);
    render.step(Key::Char('z'));
    assert!(render.script_table.filtered.is_empty());

    let result = render.step(Key::Enter);

    assert!(matches!(result, StepResult::Continue));
    assert!(render.script_table.filtered.is_empty());
    assert_eq!(render.script_input.input, "z");
    assert_eq!(render.script_input.character_index, 1);
}

#[test]
fn it_enter_confirms_the_highlighted_script() {
    let mut render = session_from(r#"{"scripts": {"start": "run start", "test": "run test"}}"#);
    render.step(Key::Down);

    let result = render.step(Key::Enter);

    match result {
        StepResult::Selected(name) => assert_eq!(name, "test"),
        _ => panic!("expected a selection"),
    }
}

#[test]
fn it_esc_cancels_whatever_is_shown() {
    let mut render = session_from(r#"{"scripts": {"start": "run start"}}"#);

    let result = render.step(Key::Esc);

    assert!(matches!(result, StepResult::Cancelled));
}

#[test]
fn it_backspace_restores_the_wider_list() {
    let mut render = session_from(r#"{"scripts": {"start": "run start", "test": "run test"}}"#);
    render.step(Key::Char('t'));
    render.step(Key::Char('e'));
    assert_eq!(render.script_table.filtered.len(), 1);

    let result = render.step(Key::Backspace);

    assert!(matches!(result, StepResult::Continue));
    assert_eq!(render.script_input.input, "t");
    assert_eq!(render.script_table.filtered.len(), 2);
    assert_eq!(render.script_table.selected, 0);
}

#[test]
fn it_backspace_at_the_start_changes_nothing() {
    let mut render = session_from(r#"{"scripts": {"start": "run start"}}"#);
    render.step(Key::Char('s'));
    render.step(Key::Left);
    assert_eq!(render.script_input.character_index, 0);

    let result = render.step(Key::Backspace);

    assert!(matches!(result, StepResult::Continue));
    assert_eq!(render.script_input.input, "s");
    assert_eq!(render.script_input.character_index, 0);
}

#[test]
fn it_cursor_stays_in_range_over_any_edits() {
    let mut render = session_from(r#"{"scripts": {"start": "run start"}}"#);
    let keys = [
        Key::Char('s'),
        Key::Left,
        Key::Left,
        Key::Char('t'),
        Key::Right,
        Key::Right,
        Key::Char('a'),
        Key::Backspace,
        Key::Backspace,
        Key::Backspace,
        Key::Backspace,
        Key::Right,
    ];
    for key in keys {
        render.step(key);
        let count = render.script_input.input.chars().count();
        assert!(render.script_input.character_index <= count);
    }
}
