//! A note and the line that stores it: the text, then a colon, then the
//! priority in decimal. A line without a colon is all text.

use vstd::prelude::*;
use crate::number::{
    decimal, is_digit, lemma_decimal_digits, lemma_parse_decimal, parse_number, parse_usize,
    push_decimal,
};
use crate::text::{chars_of, string_of};

verus! {

/// The priority of a note whose line names none, or none that can be read.
pub const DEFAULT_PRIORITY: usize = 1;

/// One reminder, as read from its line.
#[derive(Debug)]
pub struct Note {
    /// The rank of the note's line among the lines that hold a note,
    /// counted from one; zero until a reading of the whole store sets it.
    pub id: usize,
    /// What the note says.
    pub note: String,
    /// How much the note matters.
    pub priority: usize,
    /// Whether the note stays; `false` marks it as picked for removal.
    pub in_use: bool,
}

/// What a `Note` stands for.
pub struct NoteView {
    pub id: nat,
    pub note: Seq<char>,
    pub priority: nat,
    pub in_use: bool,
}

impl View for Note {
    type V = NoteView;

    open spec fn view(&self) -> NoteView {
        NoteView {
            id: self.id as nat,
            note: self.note@,
            priority: self.priority as nat,
            in_use: self.in_use,
        }
    }
}

/// What a vector of notes stands for, note by note.
pub open spec fn note_views(notes: Seq<Note>) -> Seq<NoteView> {
    Seq::new(notes.len(), |i: int| notes[i]@)
}

/// The place of the last colon of `s`, or -1 where `s` has none.
pub open spec fn last_colon(s: Seq<char>) -> int
    decreases s.len(),
{
    if s.len() == 0 {
        -1
    } else if s.last() == ':' {
        s.len() - 1
    } else {
        last_colon(s.drop_last())
    }
}

/// The text of the note that `line` stores: what stands before the last
/// colon, or the whole line where there is no colon.
pub open spec fn decoded_text(line: Seq<char>) -> Seq<char> {
    let k = last_colon(line);
    if k < 0 {
        line
    } else {
        line.take(k)
    }
}

/// The priority of the note that `line` stores: the number after the last
/// colon, or the default where there is no colon or no number behind it.
pub open spec fn decoded_priority(line: Seq<char>) -> nat {
    let k = last_colon(line);
    if k < 0 {
        DEFAULT_PRIORITY as nat
    } else {
        match parse_number(line.skip(k + 1)) {
            Some(n) => n,
            None => DEFAULT_PRIORITY as nat,
        }
    }
}

/// The note that `line` stores, not yet numbered and in use.
pub open spec fn decoded(line: Seq<char>) -> NoteView {
    NoteView { id: 0, note: decoded_text(line), priority: decoded_priority(line), in_use: true }
}

/// The line that stores a note of the given text and priority.
pub open spec fn encoded(text: Seq<char>, priority: nat) -> Seq<char> {
    text + seq![':'] + decimal(priority)
}

/// What `last_colon` finds is a colon with no colon behind it.
pub proof fn lemma_last_colon(s: Seq<char>)
    ensures
        -1 <= last_colon(s) < s.len(),
        last_colon(s) >= 0 ==> s[last_colon(s)] == ':',
        forall|j: int| last_colon(s) < j < s.len() ==> s[j] != ':',
    decreases s.len(),
{
    if s.len() > 0 && s.last() != ':' {
        let t = s.drop_last();
        lemma_last_colon(t);
        assert forall|j: int| last_colon(s) < j < s.len() implies s[j] != ':' by {
            if j < t.len() {
                assert(s[j] == t[j]);
            }
        }
    }
}

/// A colon with no colon behind it is what `last_colon` finds.
pub proof fn lemma_last_colon_at(s: Seq<char>, k: int)
    requires
        0 <= k < s.len(),
        s[k] == ':',
        forall|j: int| k < j < s.len() ==> s[j] != ':',
    ensures
        last_colon(s) == k,
    decreases s.len(),
{
    if k < s.len() - 1 {
        lemma_last_colon_at(s.drop_last(), k);
    }
}

/// Decoding the line that encodes a text without a colon and a priority
/// gives that text and that priority back.
pub proof fn lemma_decode_encode(text: Seq<char>, priority: usize)
    requires
        !text.contains(':'),
    ensures
        decoded(encoded(text, priority as nat)) == (NoteView {
            id: 0,
            note: text,
            priority: priority as nat,
            in_use: true,
        }),
{
    let number = decimal(priority as nat);
    let line = encoded(text, priority as nat);
    lemma_decimal_digits(priority as nat);
    lemma_parse_decimal(priority as nat);
    let k = text.len() as int;
    assert forall|j: int| k < j < line.len() implies line[j] != ':' by {
        assert(line[j] == number[j - k - 1]);
        assert(is_digit(number[j - k - 1]));
    }
    lemma_last_colon_at(line, k);
    assert(line.take(k) =~= text);
    assert(line.skip(k + 1) =~= number);
}

impl Note {
    /// Reads the note that a line stores.
    pub fn decode(line: &[char]) -> (n: Note)
        ensures
            n@ == decoded(line@),
    {
        let mut found: Option<usize> = None;
        let mut i: usize = 0;
        while i < line.len()
            invariant
                i <= line.len(),
                match found {
                    Some(k) => last_colon(line@.take(i as int)) == k,
                    None => last_colon(line@.take(i as int)) == -1,
                },
            decreases line.len() - i,
        {
            assert(line@.take(i + 1).drop_last() =~= line@.take(i as int));
            if line[i] == ':' {
                found = Some(i);
            }
            i += 1;
        }
        assert(line@.take(i as int) =~= line@);
        proof {
            lemma_last_colon(line@);
        }
        match found {
            None => Note { id: 0, note: string_of(line), priority: DEFAULT_PRIORITY, in_use: true },
            Some(k) => {
                let text = vstd::slice::slice_subrange(line, 0, k);
                let tail = vstd::slice::slice_subrange(line, k + 1, line.len());
                assert(text@ =~= line@.take(k as int));
                assert(tail@ =~= line@.skip(k + 1));
                let priority = match parse_usize(tail) {
                    Some(p) => p,
                    None => DEFAULT_PRIORITY,
                };
                Note { id: 0, note: string_of(text), priority, in_use: true }
            },
        }
    }

    /// Writes the line that stores a note of the given text and priority.
    pub fn encode(text: &[char], priority: usize) -> (line: Vec<char>)
        ensures
            line@ == encoded(text@, priority as nat),
    {
        let mut line: Vec<char> = vstd::slice::slice_to_vec(text);
        line.push(':');
        push_decimal(&mut line, priority);
        line
    }

    /// The note as it is shown with its number: the id, a space, the text.
    pub fn to_string(&self) -> (s: String)
        ensures
            s@ == decimal(self.id as nat) + seq![' '] + self.note@,
    {
        let mut out: Vec<char> = Vec::new();
        push_decimal(&mut out, self.id);
        out.push(' ');
        let text = chars_of(self.note.as_str());
        let mut i: usize = 0;
        while i < text.len()
            invariant
                i <= text.len(),
                text@ == self.note@,
                out@ == decimal(self.id as nat) + seq![' '] + text@.take(i as int),
            decreases text.len() - i,
        {
            out.push(text[i]);
            assert(text@.take(i + 1) =~= text@.take(i as int).push(text[i as int]));
            i += 1;
        }
        assert(text@.take(i as int) =~= text@);
        string_of(out.as_slice())
    }
}

/// What `from` returns is stated over the note's view, by its own
/// `ensures`: no equation between notes is claimed.
impl vstd::std_specs::convert::FromSpecImpl<&str> for Note {
    open spec fn obeys_from_spec() -> bool {
        false
    }

    open spec fn from_spec(line: &str) -> Note {
        arbitrary()
    }
}

impl From<&str> for Note {
    /// Reads the note that a line stores.
    fn from(line: &str) -> (n: Note)
        ensures
            n@ == decoded(line@),
    {
        let chars = chars_of(line);
        Note::decode(chars.as_slice())
    }
}

} // verus!
