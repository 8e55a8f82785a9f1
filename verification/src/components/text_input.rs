//! A single-line text editor with a cursor, used for the search text.

use vstd::prelude::*;
use crate::components::Action;
use crate::components::ActionView;
use crate::components::Event;
use crate::components::HandleAction;
use crate::components::KeyCode;
use crate::text::string_of;

verus! {

/// The state of a text input: the text and the cursor, which stands before
/// the character at its index, or behind the last one.
pub struct TextInputView {
    pub prompt: Seq<char>,
    pub buffer: Seq<char>,
    pub cursor: nat,
}

impl TextInputView {
    /// The cursor lies within the text or just behind it.
    pub open spec fn wf(self) -> bool {
        self.cursor <= self.buffer.len()
    }

    /// The cursor moved to `position`, or as near to it as the text allows.
    pub open spec fn cursor_at(self, position: nat) -> TextInputView {
        TextInputView {
            cursor: if position <= self.buffer.len() {
                position
            } else {
                self.buffer.len()
            },
            ..self
        }
    }

    /// One character typed at the cursor, which moves behind it.
    pub open spec fn inserted(self, c: char) -> TextInputView {
        TextInputView {
            buffer: self.buffer.insert(self.cursor as int, c),
            cursor: self.cursor + 1,
            ..self
        }
    }

    /// The character before the cursor deleted; nothing happens at the start
    /// of the text.
    pub open spec fn deleted(self) -> TextInputView {
        if self.cursor == 0 {
            self
        } else {
            TextInputView {
                buffer: self.buffer.remove(self.cursor - 1),
                cursor: (self.cursor - 1) as nat,
                ..self
            }
        }
    }

    /// The cursor one place to the left, unless it is at the start.
    pub open spec fn moved_left(self) -> TextInputView {
        TextInputView { cursor: if self.cursor == 0 { 0 } else { (self.cursor - 1) as nat }, ..self }
    }

    /// The cursor one place to the right, unless it is at the end.
    pub open spec fn moved_right(self) -> TextInputView {
        self.cursor_at(self.cursor + 1)
    }

    /// The text emptied and the cursor at the start.
    pub open spec fn cleared(self) -> TextInputView {
        TextInputView { buffer: Seq::empty(), cursor: 0, ..self }
    }

    /// All of `typed` entered one after another.
    pub open spec fn inserted_all(self, typed: Seq<char>) -> TextInputView
        decreases typed.len(),
    {
        if typed.len() == 0 {
            self
        } else {
            self.inserted_all(typed.drop_last()).inserted(typed.last())
        }
    }

    /// `count` backward deletions.
    pub open spec fn deleted_times(self, count: nat) -> TextInputView
        decreases count,
    {
        if count == 0 {
            self
        } else {
            self.deleted().deleted_times((count - 1) as nat)
        }
    }

    /// The state after an event.
    pub open spec fn handled(self, event: Event) -> TextInputView {
        match event {
            Event::Key(KeyCode::Char(c)) => self.inserted(c),
            Event::Key(KeyCode::Backspace) => self.deleted(),
            Event::Key(KeyCode::Right) => self.moved_right(),
            Event::Key(KeyCode::Left) => self.moved_left(),
            _ => self,
        }
    }

    /// The action that answers an event.
    pub open spec fn answer(self, event: Event) -> ActionView {
        match event {
            Event::Key(KeyCode::Char(_)) => ActionView::PartialReturn(self.handled(event).buffer),
            Event::Key(KeyCode::Backspace) => ActionView::PartialReturn(
                self.handled(event).buffer,
            ),
            Event::Key(KeyCode::Esc) => ActionView::Exit,
            Event::Key(KeyCode::Up) => ActionView::ReturnWithKey(KeyCode::Up),
            Event::Key(KeyCode::Down) => ActionView::ReturnWithKey(KeyCode::Down),
            Event::Key(KeyCode::Enter) => ActionView::Return(self.buffer),
            _ => ActionView::Noop,
        }
    }
}

/// A line of text being edited, shown behind a prompt.
#[derive(Debug)]
pub struct TextInput {
    prompt: String,
    search_input: Vec<char>,
    search_cursor_position: usize,
}

impl View for TextInput {
    type V = TextInputView;

    closed spec fn view(&self) -> TextInputView {
        TextInputView {
            prompt: self.prompt@,
            buffer: self.search_input@,
            cursor: self.search_cursor_position as nat,
        }
    }
}

impl Clone for TextInput {
    fn clone(&self) -> (r: Self)
        ensures
            r@ == self@,
    {
        TextInput {
            prompt: self.prompt.clone(),
            search_input: self.search_input.clone(),
            search_cursor_position: self.search_cursor_position,
        }
    }
}

impl Default for TextInput {
    /// An empty input behind the prompt `Searching: `.
    fn default() -> (r: Self)
        ensures
            r@ == (TextInputView { prompt: "Searching: "@, buffer: Seq::empty(), cursor: 0 }),
            r@.wf(),
    {
        TextInput {
            prompt: String::from_str("Searching: "),
            search_input: Vec::new(),
            search_cursor_position: 0,
        }
    }
}

impl TextInput {
    /// The column of the cursor on the line that shows the prompt and the
    /// text: the cursor's index behind the prompt's length. A column that no
    /// `usize` holds is given as the largest one.
    pub fn get_cursor_position(&self) -> (r: usize)
        ensures
            r == if self@.cursor + self@.prompt.len() <= usize::MAX {
                self@.cursor + self@.prompt.len()
            } else {
                usize::MAX as nat
            },
    {
        self.search_cursor_position.saturating_add(self.prompt.as_str().unicode_len())
    }

    /// The index of the cursor in the text.
    pub fn get_cursor(&self) -> (r: usize)
        ensures
            r == self@.cursor,
    {
        self.search_cursor_position
    }

    /// Moves the cursor one character to the left, if it is not at the start.
    pub fn move_cursor_left(&mut self)
        requires
            old(self)@.wf(),
        ensures
            final(self)@ == old(self)@.moved_left(),
            final(self)@.wf(),
    {
        let cursor_moved_left = self.search_cursor_position.saturating_sub(1);
        self.search_cursor_position = self.clamp_cursor(cursor_moved_left);
    }

    /// Moves the cursor one character to the right, if it is not at the end.
    pub fn move_cursor_right(&mut self)
        requires
            old(self)@.wf(),
        ensures
            final(self)@ == old(self)@.moved_right(),
            final(self)@.wf(),
    {
        assert(self.search_input.len() <= usize::MAX);
        let cursor_moved_right = self.search_cursor_position.saturating_add(1);
        self.search_cursor_position = self.clamp_cursor(cursor_moved_right);
    }

    /// Puts a character in at the cursor and moves the cursor behind it.
    pub fn enter_char(&mut self, new_char: char)
        requires
            old(self)@.wf(),
        ensures
            final(self)@ == old(self)@.inserted(new_char),
            final(self)@.wf(),
    {
        self.search_input.insert(self.search_cursor_position, new_char);
        self.move_cursor_right();
    }

    /// Deletes the character before the cursor and moves the cursor onto its
    /// place. At the start of the text nothing happens.
    pub fn delete_char(&mut self)
        requires
            old(self)@.wf(),
        ensures
            final(self)@ == old(self)@.deleted(),
            final(self)@.wf(),
    {
        let is_not_cursor_leftmost = self.search_cursor_position != 0;
        if is_not_cursor_leftmost {
            self.move_cursor_left();
            self.search_input.remove(self.search_cursor_position);
        }
    }

    /// Empties the text.
    pub fn reset(&mut self)
        ensures
            final(self)@ == old(self)@.cleared(),
            final(self)@.wf(),
    {
        self.search_input = Vec::new();
        self.search_cursor_position = 0;
    }

    /// The position nearest to `new_cursor_pos` that the text allows.
    pub fn clamp_cursor(&self, new_cursor_pos: usize) -> (r: usize)
        ensures
            r == self@.cursor_at(new_cursor_pos as nat).cursor,
    {
        if new_cursor_pos > self.search_input.len() {
            self.search_input.len()
        } else {
            new_cursor_pos
        }
    }

    /// Moves the cursor to the start of the text.
    pub fn reset_cursor(&mut self)
        ensures
            final(self)@ == old(self)@.cursor_at(0),
            final(self)@.wf(),
    {
        self.search_cursor_position = 0;
    }

    /// The text.
    pub fn get_value(&self) -> (r: String)
        ensures
            r@ == self@.buffer,
    {
        string_of(&self.search_input)
    }

    /// The line to show: the prompt, then the text.
    pub fn get_text(&self) -> (r: String)
        ensures
            r@ == self@.prompt + self@.buffer,
    {
        let mut line = self.prompt.clone();
        let value = self.get_value();
        line.append(value.as_str());
        line
    }
}

impl HandleAction for TextInput {
    open spec fn well_formed(&self) -> bool {
        self@.wf()
    }

    fn handle_action(&mut self, event: Event) -> (action: Action)
        ensures
            final(self)@ == old(self)@.handled(event),
            action.deep_view() == old(self)@.answer(event),
    {
        match event {
            Event::Key(key) => {
                match key {
                    KeyCode::Char(c) => {
                        self.enter_char(c);
                        Action::PartialReturn(self.get_value())
                    },
                    KeyCode::Backspace => {
                        self.delete_char();
                        Action::PartialReturn(self.get_value())
                    },
                    KeyCode::Right => {
                        self.move_cursor_right();
                        Action::Noop
                    },
                    KeyCode::Left => {
                        self.move_cursor_left();
                        Action::Noop
                    },
                    KeyCode::Esc => Action::Exit,
                    KeyCode::Up | KeyCode::Down => Action::ReturnWithKey(key),
                    KeyCode::Enter => Action::Return(self.get_value()),
                    _ => Action::Noop,
                }
            },
            _ => Action::Noop,
        }
    }
}

/// Deleting backward right after typing a character undoes the typing.
pub proof fn lemma_delete_undoes_insert(state: TextInputView, c: char)
    requires
        state.wf(),
    ensures
        state.inserted(c).deleted() == state,
{
    assert(state.buffer.insert(state.cursor as int, c).remove(state.cursor as int)
        =~= state.buffer);
}

/// Typing any characters and then deleting backward as many times gives the
/// state back in which the typing began: the same text and the same cursor.
pub proof fn lemma_insert_then_delete(state: TextInputView, typed: Seq<char>)
    requires
        state.wf(),
    ensures
        state.inserted_all(typed).wf(),
        state.inserted_all(typed).deleted_times(typed.len()) == state,
    decreases typed.len(),
{
    if typed.len() > 0 {
        let before = state.inserted_all(typed.drop_last());
        lemma_insert_then_delete(state, typed.drop_last());
        lemma_delete_undoes_insert(before, typed.last());
    }
}

/// On an input that was empty, typing `n` characters and deleting backward
/// `n` times leaves the text empty and the cursor at 0.
pub proof fn lemma_round_trip_from_empty(state: TextInputView, typed: Seq<char>)
    requires
        state.buffer.len() == 0,
        state.cursor == 0,
    ensures
        state.inserted_all(typed).deleted_times(typed.len()).buffer.len() == 0,
        state.inserted_all(typed).deleted_times(typed.len()).cursor == 0,
{
    lemma_insert_then_delete(state, typed);
}

} // verus!
