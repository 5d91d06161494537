//! The keyboard: which command a key gives in each mode, and what a command
//! does to the state.

use vstd::prelude::*;
use crate::pager::App;
use crate::view_state::{AppView, Mode};

verus! {

/// A key press, as far as the pager tells keys apart.
#[derive(Clone, Copy, Debug, PartialEq, Eq)]
pub enum Key {
    /// A character key.
    Char(char),
    /// The accept key.
    Enter,
    /// The cancel key.
    Esc,
    /// The key that takes back the last character.
    Backspace,
    /// Any other key.
    Other,
}

/// What a key press asks for.
#[derive(Clone, Copy, Debug, PartialEq, Eq)]
pub enum Command {
    Quit,
    Cancel,
    Accept,
    EnterSearch,
    EnterFilter,
    NextMatch,
    PrevMatch,
    LineDown,
    LineUp,
    HalfPageDown,
    HalfPageUp,
    JumpTop,
    JumpBottom,
    Insert(char),
    DeleteLast,
    Ignore,
}

/// Whether the loop goes on after a key press.
#[derive(Clone, Copy, Debug, PartialEq, Eq)]
pub enum Outcome {
    Continue,
    Quit,
}

/// The command that a character gives where keys move the view.
pub open spec fn movement(c: char) -> Command {
    if c == 'j' {
        Command::LineDown
    } else if c == 'k' {
        Command::LineUp
    } else if c == 'd' {
        Command::HalfPageDown
    } else if c == 'u' {
        Command::HalfPageUp
    } else if c == 'g' {
        Command::JumpTop
    } else if c == 'G' {
        Command::JumpBottom
    } else {
        Command::Ignore
    }
}

/// The command that a character gives in `Normal`.
pub open spec fn normal_command(c: char) -> Command {
    if c == 'q' {
        Command::Quit
    } else if c == 'n' {
        Command::NextMatch
    } else if c == 'N' {
        Command::PrevMatch
    } else if c == 'f' {
        Command::EnterSearch
    } else if c == '/' {
        Command::EnterFilter
    } else {
        movement(c)
    }
}

/// The key bindings: the command that `key` gives in `mode`. The cancel key
/// works in every mode. While a text is typed, every character belongs to
/// the text. A key without a binding in the mode is ignored.
pub open spec fn binding(mode: Mode, key: Key) -> Command {
    match key {
        Key::Esc => Command::Cancel,
        Key::Enter => match mode {
            Mode::Search | Mode::Filter => Command::Accept,
            _ => Command::Ignore,
        },
        Key::Backspace => match mode {
            Mode::Search | Mode::Filter => Command::DeleteLast,
            _ => Command::Ignore,
        },
        Key::Char(c) => match mode {
            Mode::Search | Mode::Filter => Command::Insert(c),
            Mode::Normal => normal_command(c),
            Mode::Tail => movement(c),
        },
        Key::Other => Command::Ignore,
    }
}

/// Whether `command` ends the loop in a state `view`: the quit command, in
/// `Normal` only.
pub open spec fn quits(view: AppView, command: Command) -> bool {
    command is Quit && view.mode is Normal
}

/// The state after `command`. A command that the mode does not accept
/// leaves the state as it is.
pub open spec fn effect(view: AppView, command: Command) -> AppView {
    match command {
        Command::Quit => view,
        Command::Cancel => view.cancel(),
        Command::Accept => view.accept(),
        Command::EnterSearch => view.enter_search(),
        Command::EnterFilter => view.enter_filter(),
        Command::NextMatch => if view.mode is Normal {
            view.next_match()
        } else {
            view
        },
        Command::PrevMatch => if view.mode is Normal {
            view.prev_match()
        } else {
            view
        },
        Command::LineDown => view.line_down(),
        Command::LineUp => view.line_up(),
        Command::HalfPageDown => view.half_page_down(),
        Command::HalfPageUp => view.half_page_up(),
        Command::JumpTop => view.jump_top(),
        Command::JumpBottom => view.jump_bottom(),
        Command::Insert(c) => view.insert(c),
        Command::DeleteLast => view.delete_last(),
        Command::Ignore => view,
    }
}

/// The state after the key press `key`.
pub open spec fn step(view: AppView, key: Key) -> AppView {
    effect(view, binding(view.mode, key))
}

/// The state after the key presses `keys`, one after the other.
pub open spec fn run(view: AppView, keys: Seq<Key>) -> AppView
    decreases keys.len(),
{
    if keys.len() == 0 {
        view
    } else {
        step(run(view, keys.drop_last()), keys.last())
    }
}

/// The command that the character `c` gives where keys move the view.
fn movement_for(c: char) -> (command: Command)
    ensures
        command == movement(c),
{
    if c == 'j' {
        Command::LineDown
    } else if c == 'k' {
        Command::LineUp
    } else if c == 'd' {
        Command::HalfPageDown
    } else if c == 'u' {
        Command::HalfPageUp
    } else if c == 'g' {
        Command::JumpTop
    } else if c == 'G' {
        Command::JumpBottom
    } else {
        Command::Ignore
    }
}

/// The command that `key` gives in `mode`.
pub fn command_for(mode: Mode, key: Key) -> (command: Command)
    ensures
        command == binding(mode, key),
{
    match key {
        Key::Esc => Command::Cancel,
        Key::Enter => match mode {
            Mode::Search | Mode::Filter => Command::Accept,
            _ => Command::Ignore,
        },
        Key::Backspace => match mode {
            Mode::Search | Mode::Filter => Command::DeleteLast,
            _ => Command::Ignore,
        },
        Key::Char(c) => match mode {
            Mode::Search | Mode::Filter => Command::Insert(c),
            Mode::Tail => movement_for(c),
            Mode::Normal => {
                if c == 'q' {
                    Command::Quit
                } else if c == 'n' {
                    Command::NextMatch
                } else if c == 'N' {
                    Command::PrevMatch
                } else if c == 'f' {
                    Command::EnterSearch
                } else if c == '/' {
                    Command::EnterFilter
                } else {
                    movement_for(c)
                }
            },
        },
        Key::Other => Command::Ignore,
    }
}

impl App {
    /// Carries out `command` and tells whether the loop goes on. A command
    /// that the mode does not accept changes nothing.
    pub fn apply(&mut self, command: Command) -> (outcome: Outcome)
        requires
            old(self).wf(),
        ensures
            final(self)@ == effect(old(self)@, command),
            final(self).wf(),
            outcome is Quit <==> quits(old(self)@, command),
    {
        let mode: Mode = self.mode();
        match command {
            Command::Quit => {
                if let Mode::Normal = mode {
                    return Outcome::Quit;
                }
            },
            Command::Cancel => self.cancel(),
            Command::Accept => self.accept(),
            Command::EnterSearch => self.enter_search(),
            Command::EnterFilter => self.enter_filter(),
            Command::NextMatch => {
                if let Mode::Normal = mode {
                    self.next_match();
                }
            },
            Command::PrevMatch => {
                if let Mode::Normal = mode {
                    self.prev_match();
                }
            },
            Command::LineDown => self.line_down(),
            Command::LineUp => self.line_up(),
            Command::HalfPageDown => self.half_page_down(),
            Command::HalfPageUp => self.half_page_up(),
            Command::JumpTop => self.jump_top(),
            Command::JumpBottom => self.jump_bottom(),
            Command::Insert(c) => self.insert(c),
            Command::DeleteLast => self.delete_last(),
            Command::Ignore => {},
        }
        Outcome::Continue
    }

    /// Handles the key press `key` in the current mode and tells whether the
    /// loop goes on.
    pub fn dispatch(&mut self, key: Key) -> (outcome: Outcome)
        requires
            old(self).wf(),
        ensures
            final(self)@ == step(old(self)@, key),
            final(self).wf(),
            outcome is Quit <==> quits(old(self)@, binding(old(self)@.mode, key)),
    {
        let command: Command = command_for(self.mode(), key);
        self.apply(command)
    }
}

/// A command leaves a valid state valid, and it never changes the buffer.
pub proof fn lemma_effect_wf(view: AppView, command: Command)
    requires
        view.wf(),
    ensures
        effect(view, command).wf(),
        effect(view, command).lines == view.lines,
        effect(view, command).viewport_height == view.viewport_height,
{
}

/// The state machine is total: after any sequence of key presses the state
/// is valid. In particular the scroll offset lies between 0 and the number
/// of visible lines that do not fit into the viewport, and the cursor points
/// into the match list where there is one.
pub proof fn lemma_run_wf(view: AppView, keys: Seq<Key>)
    requires
        view.wf(),
    ensures
        run(view, keys).wf(),
        run(view, keys).scroll <= run(view, keys).max_scroll(),
        run(view, keys).hits().len() > 0 ==> run(view, keys).match_cursor < run(
            view,
            keys,
        ).hits().len(),
        run(view, keys).lines == view.lines,
    decreases keys.len(),
{
    if keys.len() > 0 {
        let before = run(view, keys.drop_last());
        lemma_run_wf(view, keys.drop_last());
        lemma_effect_wf(before, binding(before.mode, keys.last()));
    }
}

/// A key without a binding in the mode changes nothing, and only the quit
/// key in `Normal` ends the loop.
pub proof fn lemma_unbound_key(view: AppView, key: Key)
    requires
        binding(view.mode, key) is Ignore,
    ensures
        step(view, key) == view,
        !quits(view, binding(view.mode, key)),
{
}

} // verus!
