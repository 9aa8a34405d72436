use script_picker::ScriptInput;

#[test]
fn it_new_creates_default_state() {
    let script_input = ScriptInput::new();

    assert_eq!(script_input.input, "");
    assert_eq!(script_input.character_index, 0);
}

#[test]
fn it_move_left_correctly_updates_state() {
    let mut script_input = ScriptInput::new();
    script_input.input = String::from("abc");
    script_input.character_index = 3;

    script_input.move_cursor_left();

    assert_eq!(script_input.character_index, 2);
}

#[test]
fn it_move_left_correctly_handles_0_character_index() {
    let mut script_input = ScriptInput::new();

    script_input.move_cursor_left();

    assert_eq!(script_input.character_index, 0);
}

#[test]
fn it_move_right_correctly_updates_state() {
    let mut script_input = ScriptInput::new();
    script_input.input = String::from("abc");
    script_input.character_index = 2;

    script_input.move_cursor_right();

    assert_eq!(script_input.character_index, 3);
}

#[test]
fn it_move_right_correctly_handles_going_past_input_len() {
    let mut script_input = ScriptInput::new();
    script_input.input = String::from("abc");
    script_input.character_index = 3;

    script_input.move_cursor_right();

    assert_eq!(script_input.character_index, 3);
}

#[test]
fn it_enter_char_correctly_updates_state() {
    let mut script_input = ScriptInput::new();

    script_input.enter_char('a');

    assert_eq!(script_input.input, "a");
    assert_eq!(script_input.character_index, 1);
}

#[test]
fn it_delete_char_correctly_updates_state() {
    let mut script_input = ScriptInput::new();
    script_input.input = String::from("abc");
    script_input.character_index = 3;

    script_input.delete_char();

    assert_eq!(script_input.input, "ab");
    assert_eq!(script_input.character_index, 2);
}

#[test]
fn it_delete_char_handles_empty_input() {
    let mut script_input = ScriptInput::new();

    script_input.delete_char();

    assert_eq!(script_input.input, "");
    assert_eq!(script_input.character_index, 0);
}

#[test]
fn it_delete_at_start_leaves_state_unchanged() {
    let mut script_input = ScriptInput::new();
    script_input.input = String::from("abc");
    script_input.character_index = 0;

    script_input.delete_char();

    assert_eq!(script_input.input, "abc");
    assert_eq!(script_input.character_index, 0);
}

#[test]
fn it_enter_char_inserts_at_cursor() {
    let mut script_input = ScriptInput::new();
    script_input.enter_char('a');
    script_input.enter_char('c');
    script_input.move_cursor_left();
    script_input.enter_char('b');

    assert_eq!(script_input.input, "abc");
    assert_eq!(script_input.character_index, 2);
}

#[test]
fn it_byte_index_counts_encoded_widths() {
    let mut script_input = ScriptInput::new();
    script_input.input = String::from("\u{e9}t\u{3042}");
    script_input.character_index = 0;
    assert_eq!(script_input.byte_index(), 0);

    script_input.character_index = 1;
    assert_eq!(script_input.byte_index(), 2);

    script_input.character_index = 2;
    assert_eq!(script_input.byte_index(), 3);

    script_input.character_index = 3;
    assert_eq!(script_input.byte_index(), 6);
}

#[test]
fn it_cursor_stays_in_range_over_multibyte_text() {
    let mut script_input = ScriptInput::new();
    script_input.enter_char('\u{e9}');
    script_input.enter_char('\u{3042}');
    script_input.enter_char('z');
    assert_eq!(script_input.input, "\u{e9}\u{3042}z");
    assert_eq!(script_input.character_index, 3);

    script_input.move_cursor_left();
    script_input.delete_char();
    assert_eq!(script_input.input, "\u{e9}z");
    assert_eq!(script_input.character_index, 1);

    script_input.move_cursor_right();
    script_input.move_cursor_right();
    assert_eq!(script_input.character_index, 2);
    assert!(script_input.character_index <= script_input.input.chars().count());
}
