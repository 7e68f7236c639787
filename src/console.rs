//! State of the host console: the line being edited, the input mode and the
//! log of messages shown to the operator, and how key presses change it.
use vstd::prelude::*;

use crate::command::{parse_command, try_parse, AppEvent};

verus! {

/// Whether key presses edit the command line.
#[derive(Debug, Clone, Copy, PartialEq, Eq, Structural)]
pub enum InputMode {
    Normal,
    Editing,
}

/// A key press, as far as the console tells keys apart.
#[derive(Debug, Clone, Copy, PartialEq, Eq, Structural)]
pub enum Key {
    Char(char),
    Enter,
    Backspace,
    Esc,
    Other,
}

pub struct App {
    /// The command line being edited.
    pub input: Vec<char>,
    pub input_mode: InputMode,
    /// Lines shown to the operator, oldest first.
    pub messages: Vec<String>,
}

impl Default for App {
    fn default() -> (r: App)
        ensures
            r.input@ == Seq::<char>::empty(),
            r.input_mode == InputMode::Normal,
            r.messages@ == Seq::<String>::empty(),
    {
        App { input: Vec::new(), input_mode: InputMode::Normal, messages: Vec::new() }
    }
}

/// Relies on `String: FromIterator<char>`: the string holds exactly these
/// characters, in order.
#[verifier::external_body]
fn string_of(chars: &Vec<char>) -> (r: String)
    ensures
        r@ == chars@,
{
    chars.iter().collect()
}

impl App {
    /// Applies one key press. In normal mode `e` starts editing and `q`
    /// quits. While editing, characters are appended, backspace removes the
    /// last one, escape stops editing, and enter takes the line: it becomes
    /// the command it parses as, or is handed back as unrecognised input.
    pub fn handle_key(&mut self, key: Key) -> (r: AppEvent)
        ensures
            final(self).messages@ == old(self).messages@,
            old(self).input_mode == InputMode::Normal ==> {
                &&& final(self).input@ == old(self).input@
                &&& key == Key::Char('e') ==> final(self).input_mode == InputMode::Editing
                    && r == AppEvent::Idle
                &&& key == Key::Char('q') ==> final(self).input_mode == InputMode::Normal
                    && r == AppEvent::Quit
                &&& key != Key::Char('e') && key != Key::Char('q') ==> final(self).input_mode
                    == InputMode::Normal && r == AppEvent::Idle
            },
            old(self).input_mode == InputMode::Editing ==> {
                &&& key == Key::Enter ==> final(self).input@ == Seq::<char>::empty()
                    && final(self).input_mode == InputMode::Editing && match parse_command(
                    old(self).input@,
                ) {
                    Some(e) => r == e,
                    None => r matches AppEvent::Input(line) && line@ == old(self).input@,
                }
                &&& (key matches Key::Char(c) ==> final(self).input@ == old(self).input@.push(c)
                    && final(self).input_mode == InputMode::Editing && r == AppEvent::Idle)
                &&& key == Key::Backspace ==> final(self).input_mode == InputMode::Editing && r
                    == AppEvent::Idle && final(self).input@ == if old(self).input@.len() > 0 {
                    old(self).input@.drop_last()
                } else {
                    old(self).input@
                }
                &&& key == Key::Esc ==> final(self).input_mode == InputMode::Normal
                    && final(self).input@ == old(self).input@ && r == AppEvent::Idle
                &&& key == Key::Other ==> final(self).input_mode == InputMode::Editing
                    && final(self).input@ == old(self).input@ && r == AppEvent::Idle
            },
    {
        match self.input_mode {
            InputMode::Normal => match key {
                Key::Char(c) => {
                    if c == 'e' {
                        self.input_mode = InputMode::Editing;
                        AppEvent::Idle
                    } else if c == 'q' {
                        AppEvent::Quit
                    } else {
                        AppEvent::Idle
                    }
                },
                _ => AppEvent::Idle,
            },
            InputMode::Editing => match key {
                Key::Enter => {
                    let line = string_of(&self.input);
                    self.input = Vec::new();
                    match try_parse(&line) {
                        Some(event) => event,
                        None => AppEvent::Input(line),
                    }
                },
                Key::Char(c) => {
                    self.input.push(c);
                    AppEvent::Idle
                },
                Key::Backspace => {
                    self.input.pop();
                    AppEvent::Idle
                },
                Key::Esc => {
                    self.input_mode = InputMode::Normal;
                    AppEvent::Idle
                },
                Key::Other => AppEvent::Idle,
            },
        }
    }
}

} // verus!
