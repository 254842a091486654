//! The commands and their arguments, and the settings that the
//! environment may hold.

use vstd::prelude::*;
use crate::text::{chars_of, spells};

verus! {

/// What the program was asked to do.
#[derive(Debug)]
pub struct Args {
    pub action: Action,
}

/// One command with its arguments.
#[derive(Debug)]
#[allow(inconsistent_fields)]
pub enum Action {
    /// Edit a note.
    Edit {
        /// Number of the note to edit.
        id: usize,
        /// New words of the note.
        note: Vec<String>,
        /// New priority of the note.
        priority: usize,
    },
    /// List all notes.
    List {
        /// Show each note with its number.
        show_id: bool,
        /// Show the notes in order of priority.
        priority: bool,
        /// Show this many notes at most.
        limit: Option<usize>,
    },
    /// Stick a new note.
    Stick {
        /// Words of the note.
        note: Vec<String>,
        /// Priority of the note.
        priority: usize,
    },
    /// Toss notes away.
    Toss {
        /// Numbers of the notes to toss.
        ids: Vec<usize>,
        /// Toss all notes.
        all: bool,
    },
}

/// A setting that the environment may hold.
#[derive(Copy, Clone, Debug, PartialEq, Eq)]
pub enum EnvArgs {
    Message,
    MessageColor,
    MessageStyle,
    EmptyMessage,
    EmptyMessageColor,
    EmptyMessageStyle,
    P1Color,
    P1Style,
    P2Color,
    P2Style,
    P3Color,
    P3Style,
    P4Color,
    P4Style,
    P5Color,
    P5Style,
}

/// The name of the environment variable that holds a setting.
pub open spec fn key_name(key: EnvArgs) -> Seq<char> {
    match key {
        EnvArgs::Message => "NOTE_MESSAGE"@,
        EnvArgs::MessageColor => "NOTE_MESSAGE_COLOR"@,
        EnvArgs::MessageStyle => "NOTE_MESSAGE_STYLE"@,
        EnvArgs::EmptyMessage => "NOTE_EMPTY_MESSAGE"@,
        EnvArgs::EmptyMessageColor => "NOTE_EMPTY_MESSAGE_COLOR"@,
        EnvArgs::EmptyMessageStyle => "NOTE_EMPTY_MESSAGE_STYLE"@,
        EnvArgs::P1Color => "NOTE_P1_COLOR"@,
        EnvArgs::P1Style => "NOTE_P1_STYLE"@,
        EnvArgs::P2Color => "NOTE_P2_COLOR"@,
        EnvArgs::P2Style => "NOTE_P2_STYLE"@,
        EnvArgs::P3Color => "NOTE_P3_COLOR"@,
        EnvArgs::P3Style => "NOTE_P3_STYLE"@,
        EnvArgs::P4Color => "NOTE_P4_COLOR"@,
        EnvArgs::P4Style => "NOTE_P4_STYLE"@,
        EnvArgs::P5Color => "NOTE_P5_COLOR"@,
        EnvArgs::P5Style => "NOTE_P5_STYLE"@,
    }
}

/// The value of a setting that the environment does not hold.
pub open spec fn default_value(key: EnvArgs) -> Seq<char> {
    match key {
        EnvArgs::Message => "NOTES:"@,
        EnvArgs::MessageColor => ""@,
        EnvArgs::MessageStyle => "bold"@,
        EnvArgs::EmptyMessage => ""@,
        EnvArgs::EmptyMessageColor => ""@,
        EnvArgs::EmptyMessageStyle => "bold"@,
        EnvArgs::P1Color => ""@,
        EnvArgs::P1Style => "normal"@,
        EnvArgs::P2Color => "blue"@,
        EnvArgs::P2Style => "normal"@,
        EnvArgs::P3Color => "green"@,
        EnvArgs::P3Style => "normal"@,
        EnvArgs::P4Color => "yellow"@,
        EnvArgs::P4Style => "normal"@,
        EnvArgs::P5Color => "red"@,
        EnvArgs::P5Style => "bold"@,
    }
}

impl EnvArgs {
    /// The name of the environment variable that holds this setting.
    pub fn key(self) -> (name: &'static str)
        ensures
            name@ == key_name(self),
    {
        match self {
            EnvArgs::Message => "NOTE_MESSAGE",
            EnvArgs::MessageColor => "NOTE_MESSAGE_COLOR",
            EnvArgs::MessageStyle => "NOTE_MESSAGE_STYLE",
            EnvArgs::EmptyMessage => "NOTE_EMPTY_MESSAGE",
            EnvArgs::EmptyMessageColor => "NOTE_EMPTY_MESSAGE_COLOR",
            EnvArgs::EmptyMessageStyle => "NOTE_EMPTY_MESSAGE_STYLE",
            EnvArgs::P1Color => "NOTE_P1_COLOR",
            EnvArgs::P1Style => "NOTE_P1_STYLE",
            EnvArgs::P2Color => "NOTE_P2_COLOR",
            EnvArgs::P2Style => "NOTE_P2_STYLE",
            EnvArgs::P3Color => "NOTE_P3_COLOR",
            EnvArgs::P3Style => "NOTE_P3_STYLE",
            EnvArgs::P4Color => "NOTE_P4_COLOR",
            EnvArgs::P4Style => "NOTE_P4_STYLE",
            EnvArgs::P5Color => "NOTE_P5_COLOR",
            EnvArgs::P5Style => "NOTE_P5_STYLE",
        }
    }

    /// The value of this setting where the environment does not hold it.
    pub fn default_value(self) -> (value: &'static str)
        ensures
            value@ == default_value(self),
    {
        match self {
            EnvArgs::Message => "NOTES:",
            EnvArgs::MessageColor => "",
            EnvArgs::MessageStyle => "bold",
            EnvArgs::EmptyMessage => "",
            EnvArgs::EmptyMessageColor => "",
            EnvArgs::EmptyMessageStyle => "bold",
            EnvArgs::P1Color => "",
            EnvArgs::P1Style => "normal",
            EnvArgs::P2Color => "blue",
            EnvArgs::P2Style => "normal",
            EnvArgs::P3Color => "green",
            EnvArgs::P3Style => "normal",
            EnvArgs::P4Color => "yellow",
            EnvArgs::P4Style => "normal",
            EnvArgs::P5Color => "red",
            EnvArgs::P5Style => "bold",
        }
    }
}

/// The value of a setting: what the environment holds under its name,
/// given as `found`, or the setting's default where it holds nothing.
pub fn get_env_arg(key: EnvArgs, found: Option<String>) -> (value: String)
    ensures
        value@ == match found {
            Some(val) => val@,
            None => default_value(key),
        },
{
    match found {
        Some(val) => val,
        None => key.default_value().to_owned(),
    }
}

/// Whether one of the arguments is the short or the long name of a flag.
pub open spec fn names_flag(args: Seq<String>, short_name: Seq<char>, long_name: Seq<char>) -> bool {
    exists|i: int|
        0 <= i < args.len() && ((#[trigger] args[i])@ == short_name || args[i]@ == long_name)
}

/// Whether a flag was given on the command line, under its short or its
/// long name.
pub fn is_arg_set(args: &[String], short_name: &str, long_name: &str) -> (set: bool)
    ensures
        set == names_flag(args@, short_name@, long_name@),
{
    let mut i: usize = 0;
    while i < args.len()
        invariant
            i <= args.len(),
            forall|j: int|
                0 <= j < i ==> (#[trigger] args[j])@ != short_name@ && args[j]@ != long_name@,
        decreases args.len() - i,
    {
        let arg = chars_of(args[i].as_str());
        if spells(arg.as_slice(), short_name) || spells(arg.as_slice(), long_name) {
            return true;
        }
        i += 1;
    }
    false
}

} // verus!
