//! Key presses, and the commands that they stand for in each mode.

use crate::charset::{char_is_alphanumeric, char_uppercase_head, is_alphanumeric, uppercase_head};
use crate::game::{Direction, Mode};
use vstd::prelude::*;

verus! {

/// A key press, as a terminal reports it. The Enter key is `Char('\n')`.
#[derive(Debug, Clone, Copy, PartialEq, Eq, Structural)]
pub enum KeyEvent {
    Char(char),
    Ctrl(char),
    Left,
    Right,
    Up,
    Down,
    Backspace,
    Delete,
    PageUp,
    PageDown,
    Esc,
    /// Any key that means nothing to a session.
    Other,
}

/// What a session is asked to do.
#[derive(Debug, Clone, Copy, PartialEq, Eq, Structural)]
pub enum Command {
    /// Nothing: the key has no meaning in this mode.
    Ignore,
    /// End the session.
    Quit,
    Pause,
    Unpause,
    CluesScrollUp,
    CluesScrollDown,
    /// Move the cursor freely, wrapping at the edges.
    SelectMove(Direction),
    ToggleHintNumErrors,
    /// Start editing at the cursor.
    EditMode,
    /// Remove the guess under the cursor.
    Unguess,
    /// Step back against the edit direction.
    EditPrev,
    /// Move the cursor while editing, stopping at edges and blocks.
    EditMove(Direction),
    /// Stop editing.
    SelectMode,
    /// Swap the edit direction.
    EditDirection,
    /// Enter this letter under the cursor.
    Guess(char),
}

/// The letter that a typed character enters: the head of its uppercase
/// form, if the character is alphanumeric.
pub open spec fn letter_of_char(c: char) -> Option<char> {
    if is_alphanumeric(c) {
        Some(uppercase_head(c))
    } else {
        None
    }
}

/// The letter that a key enters, if it is a character key that enters one.
pub open spec fn letter_of_key(key: KeyEvent) -> Option<char> {
    match key {
        KeyEvent::Char(c) => letter_of_char(c),
        _ => None,
    }
}

/// What a key asks for while the session is paused.
pub open spec fn pause_command(key: KeyEvent) -> Command {
    match key {
        KeyEvent::Char(c) => if c == 'p' || c == '\n' {
            Command::Unpause
        } else if c == 'q' {
            Command::Quit
        } else {
            Command::Ignore
        },
        KeyEvent::Esc => Command::Unpause,
        KeyEvent::Ctrl(c) => if c == 'c' {
            Command::Quit
        } else {
            Command::Ignore
        },
        _ => Command::Ignore,
    }
}

/// What a key asks for while the cursor moves freely.
pub open spec fn select_command(key: KeyEvent) -> Command {
    match key {
        KeyEvent::PageUp => Command::CluesScrollUp,
        KeyEvent::PageDown => Command::CluesScrollDown,
        KeyEvent::Left => Command::SelectMove(Direction::Left),
        KeyEvent::Down => Command::SelectMove(Direction::Down),
        KeyEvent::Up => Command::SelectMove(Direction::Up),
        KeyEvent::Right => Command::SelectMove(Direction::Right),
        KeyEvent::Esc => Command::Pause,
        KeyEvent::Ctrl(c) => if c == 'c' {
            Command::Pause
        } else {
            Command::Ignore
        },
        KeyEvent::Char(c) => if c == 'h' || c == 'a' {
            Command::SelectMove(Direction::Left)
        } else if c == 'j' || c == 's' {
            Command::SelectMove(Direction::Down)
        } else if c == 'k' || c == 'w' {
            Command::SelectMove(Direction::Up)
        } else if c == 'l' || c == 'd' {
            Command::SelectMove(Direction::Right)
        } else if c == 'q' || c == 'p' {
            Command::Pause
        } else if c == 'e' {
            Command::ToggleHintNumErrors
        } else if c == '\n' || c == 'i' {
            Command::EditMode
        } else {
            Command::Ignore
        },
        _ => Command::Ignore,
    }
}

/// What a key asks for while editing. `letter` is the letter that the key
/// enters, if it enters one.
pub open spec fn edit_command(key: KeyEvent, letter: Option<char>) -> Command {
    match key {
        KeyEvent::Delete => Command::Unguess,
        KeyEvent::PageUp => Command::CluesScrollUp,
        KeyEvent::PageDown => Command::CluesScrollDown,
        KeyEvent::Backspace => Command::EditPrev,
        KeyEvent::Left => Command::EditMove(Direction::Left),
        KeyEvent::Down => Command::EditMove(Direction::Down),
        KeyEvent::Up => Command::EditMove(Direction::Up),
        KeyEvent::Right => Command::EditMove(Direction::Right),
        KeyEvent::Esc => Command::SelectMode,
        KeyEvent::Char(c) => if c == '\n' {
            Command::SelectMode
        } else if c == ' ' {
            Command::EditDirection
        } else {
            match letter {
                Some(u) => Command::Guess(u),
                None => Command::Ignore,
            }
        },
        _ => Command::Ignore,
    }
}

/// What a key asks for in a mode. Once the puzzle is solved every key ends
/// the session.
pub open spec fn command_of(mode: Mode, key: KeyEvent, letter: Option<char>) -> Command {
    match mode {
        Mode::Pause => pause_command(key),
        Mode::Select => select_command(key),
        Mode::EditAcross | Mode::EditDown => edit_command(key, letter),
        Mode::GameOver => Command::Quit,
    }
}

/// The letter that a typed character enters, if it enters one.
pub fn typed_letter(c: char) -> (letter: Option<char>)
    ensures
        letter == letter_of_char(c),
{
    if char_is_alphanumeric(c) {
        Some(char_uppercase_head(c))
    } else {
        None
    }
}

/// The command that a key stands for in a mode, where `letter` is the
/// letter that the key enters, if it enters one.
pub fn command_for(mode: Mode, key: KeyEvent, letter: Option<char>) -> (cmd: Command)
    ensures
        cmd == command_of(mode, key, letter),
{
    match mode {
        Mode::Pause => match key {
            KeyEvent::Char('p') | KeyEvent::Char('\n') | KeyEvent::Esc => Command::Unpause,
            KeyEvent::Char('q') | KeyEvent::Ctrl('c') => Command::Quit,
            _ => Command::Ignore,
        },
        Mode::Select => match key {
            KeyEvent::PageUp => Command::CluesScrollUp,
            KeyEvent::PageDown => Command::CluesScrollDown,
            KeyEvent::Char('h') | KeyEvent::Char('a') | KeyEvent::Left => Command::SelectMove(
                Direction::Left,
            ),
            KeyEvent::Char('j') | KeyEvent::Char('s') | KeyEvent::Down => Command::SelectMove(
                Direction::Down,
            ),
            KeyEvent::Char('k') | KeyEvent::Char('w') | KeyEvent::Up => Command::SelectMove(
                Direction::Up,
            ),
            KeyEvent::Char('l') | KeyEvent::Char('d') | KeyEvent::Right => Command::SelectMove(
                Direction::Right,
            ),
            KeyEvent::Char('q') | KeyEvent::Char('p') | KeyEvent::Ctrl('c') | KeyEvent::Esc =>
                Command::Pause,
            KeyEvent::Char('e') => Command::ToggleHintNumErrors,
            KeyEvent::Char('\n') | KeyEvent::Char('i') => Command::EditMode,
            _ => Command::Ignore,
        },
        Mode::EditAcross | Mode::EditDown => match key {
            KeyEvent::Delete => Command::Unguess,
            KeyEvent::PageUp => Command::CluesScrollUp,
            KeyEvent::PageDown => Command::CluesScrollDown,
            KeyEvent::Backspace => Command::EditPrev,
            KeyEvent::Left => Command::EditMove(Direction::Left),
            KeyEvent::Down => Command::EditMove(Direction::Down),
            KeyEvent::Up => Command::EditMove(Direction::Up),
            KeyEvent::Right => Command::EditMove(Direction::Right),
            KeyEvent::Char('\n') | KeyEvent::Esc => Command::SelectMode,
            KeyEvent::Char(' ') => Command::EditDirection,
            KeyEvent::Char(_) => match letter {
                Some(u) => Command::Guess(u),
                None => Command::Ignore,
            },
            _ => Command::Ignore,
        },
        Mode::GameOver => Command::Quit,
    }
}

} // verus!
