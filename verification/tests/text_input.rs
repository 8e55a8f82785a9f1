use sm_connect::components::text_input::TextInput;
use sm_connect::components::Action;
use sm_connect::components::Event;
use sm_connect::components::HandleAction;
use sm_connect::components::KeyCode;

const PROMPT: usize = 11;

fn typed(text: &str) -> TextInput {
    let mut input = TextInput::default();
    for c in text.chars() {
        input.enter_char(c);
    }
    input
}

#[test]
fn default_input_is_empty_behind_the_prompt() {
    let input = TextInput::default();
    assert_eq!(input.get_value(), "");
    assert_eq!(input.get_cursor_position(), PROMPT);
    assert_eq!(input.get_text(), "Searching: ");
}

#[test]
fn typing_then_deleting_returns_to_empty() {
    let mut input = typed("héllo wörld");
    assert_eq!(input.get_value(), "héllo wörld");
    assert_eq!(input.get_cursor_position(), PROMPT + 11);
    for _ in 0..11 {
        input.delete_char();
    }
    assert_eq!(input.get_value(), "");
    assert_eq!(input.get_cursor_position(), PROMPT);
}

#[test]
fn typing_in_the_middle_then_deleting_restores_text_and_cursor() {
    let mut input = typed("abcd");
    input.move_cursor_left();
    input.move_cursor_left();
    for c in "xyz".chars() {
        input.enter_char(c);
    }
    assert_eq!(input.get_value(), "abxyzcd");
    for _ in 0..3 {
        input.delete_char();
    }
    assert_eq!(input.get_value(), "abcd");
    assert_eq!(input.get_cursor_position(), PROMPT + 2);
}

#[test]
fn insertion_happens_at_the_cursor() {
    let mut input = typed("ac");
    input.move_cursor_left();
    input.enter_char('b');
    assert_eq!(input.get_value(), "abc");
    assert_eq!(input.get_cursor_position(), PROMPT + 2);
}

#[test]
fn insertion_keeps_multi_byte_characters_whole() {
    let mut input = typed("日本");
    input.move_cursor_left();
    input.enter_char('é');
    assert_eq!(input.get_value(), "日é本");
    input.delete_char();
    input.delete_char();
    assert_eq!(input.get_value(), "本");
    assert_eq!(input.get_cursor_position(), PROMPT);
}

#[test]
fn deleting_at_the_start_does_nothing() {
    let mut input = typed("ab");
    input.move_cursor_left();
    input.move_cursor_left();
    input.delete_char();
    assert_eq!(input.get_value(), "ab");
    assert_eq!(input.get_cursor_position(), PROMPT);
}

#[test]
fn deleting_removes_the_character_before_the_cursor() {
    let mut input = typed("abc");
    input.move_cursor_left();
    input.delete_char();
    assert_eq!(input.get_value(), "ac");
    assert_eq!(input.get_cursor_position(), PROMPT + 1);
}

#[test]
fn cursor_motion_is_clamped() {
    let mut input = typed("ab");
    input.move_cursor_right();
    input.move_cursor_right();
    assert_eq!(input.get_cursor_position(), PROMPT + 2);
    for _ in 0..5 {
        input.move_cursor_left();
    }
    assert_eq!(input.get_cursor_position(), PROMPT);
    input.move_cursor_right();
    assert_eq!(input.get_cursor_position(), PROMPT + 1);
}

#[test]
fn clamp_cursor_limits_to_the_text() {
    let input = typed("abc");
    assert_eq!(input.clamp_cursor(0), 0);
    assert_eq!(input.clamp_cursor(2), 2);
    assert_eq!(input.clamp_cursor(3), 3);
    assert_eq!(input.clamp_cursor(4), 3);
    assert_eq!(input.clamp_cursor(usize::MAX), 3);
}

#[test]
fn reset_clears_text_and_cursor() {
    let mut input = typed("abc");
    input.reset();
    assert_eq!(input.get_value(), "");
    assert_eq!(input.get_cursor_position(), PROMPT);
}

#[test]
fn reset_cursor_keeps_the_text() {
    let mut input = typed("abc");
    input.reset_cursor();
    assert_eq!(input.get_value(), "abc");
    assert_eq!(input.get_cursor_position(), PROMPT);
    input.enter_char('x');
    assert_eq!(input.get_value(), "xabc");
}

#[test]
fn get_text_shows_prompt_and_text() {
    let input = typed("web");
    assert_eq!(input.get_text(), "Searching: web");
}

#[test]
fn clone_keeps_text_and_cursor() {
    let mut input = typed("abc");
    input.move_cursor_left();
    let copy = input.clone();
    assert_eq!(copy.get_value(), "abc");
    assert_eq!(copy.get_cursor_position(), PROMPT + 2);
}

#[test]
fn character_keys_answer_with_the_new_text() {
    let mut input = TextInput::default();
    let action = input.handle_action(Event::Key(KeyCode::Char('w')));
    assert!(matches!(action, Action::PartialReturn(text) if text == "w"));
    let action = input.handle_action(Event::Key(KeyCode::Char('e')));
    assert!(matches!(action, Action::PartialReturn(text) if text == "we"));
}

#[test]
fn backspace_answers_with_the_new_text() {
    let mut input = typed("web");
    let action = input.handle_action(Event::Key(KeyCode::Backspace));
    assert!(matches!(action, Action::PartialReturn(text) if text == "we"));
    assert_eq!(input.get_value(), "we");
}

#[test]
fn arrow_keys_move_the_cursor_without_an_action() {
    let mut input = typed("web");
    assert!(matches!(input.handle_action(Event::Key(KeyCode::Left)), Action::Noop));
    assert_eq!(input.get_cursor_position(), PROMPT + 2);
    assert!(matches!(input.handle_action(Event::Key(KeyCode::Right)), Action::Noop));
    assert_eq!(input.get_cursor_position(), PROMPT + 3);
}

#[test]
fn escape_exits_and_keeps_the_text() {
    let mut input = typed("web");
    assert!(matches!(input.handle_action(Event::Key(KeyCode::Esc)), Action::Exit));
    assert_eq!(input.get_value(), "web");
}

#[test]
fn up_and_down_return_with_their_key() {
    let mut input = typed("web");
    assert!(matches!(
        input.handle_action(Event::Key(KeyCode::Up)),
        Action::ReturnWithKey(KeyCode::Up)
    ));
    assert!(matches!(
        input.handle_action(Event::Key(KeyCode::Down)),
        Action::ReturnWithKey(KeyCode::Down)
    ));
    assert_eq!(input.get_value(), "web");
}

#[test]
fn enter_key_returns_the_text() {
    let mut input = typed("web");
    let action = input.handle_action(Event::Key(KeyCode::Enter));
    assert!(matches!(action, Action::Return(text) if text == "web"));
}

#[test]
fn other_events_do_nothing() {
    let mut input = typed("web");
    assert!(matches!(input.handle_action(Event::Key(KeyCode::Other)), Action::Noop));
    assert!(matches!(input.handle_action(Event::Other), Action::Noop));
    assert_eq!(input.get_value(), "web");
    assert_eq!(input.get_cursor_position(), PROMPT + 3);
}

#[test]
fn the_cursor_counts_characters() {
    let mut input = typed("日本語");
    assert_eq!(input.get_cursor(), 3);
    input.move_cursor_left();
    assert_eq!(input.get_cursor(), 2);
    assert_eq!(input.get_cursor_position(), PROMPT + 2);
}
