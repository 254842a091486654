//! How notes are laid out for showing: a tag in square brackets at the
//! start of a note is padded so that the texts behind the tags line up.

use vstd::prelude::*;
use vstd::utf8::{decode_utf8, encode_utf8, is_char_boundary};
use regex::Regex;
use crate::arguments::EnvArgs;
use crate::note::{note_views, Note, NoteView};
use crate::number::{decimal, push_decimal};
use crate::text::{chars_of, string_of};

verus! {

/// Where the first match of a regular expression ends in a text, as a
/// count of the text's UTF-8 bytes; `None` where the expression matches
/// nowhere or cannot be compiled.
pub uninterp spec fn regex_match_end(pattern: Seq<char>, text: Seq<char>) -> Option<usize>;

/// Compiles `pattern` with `regex::Regex::new`, searches `text` with
/// `Regex::find` and gives the match's `end`. The result is by definition
/// `regex_match_end`; the crate documents that the end of a match lies
/// on a character boundary of the text that was searched.
#[verifier::external_body]
fn match_end(pattern: &str, text: &str) -> (end: Option<usize>)
    ensures
        end == regex_match_end(pattern@, text@),
        end matches Some(e) ==> is_char_boundary(encode_utf8(text@), e as int),
{
    match Regex::new(pattern) {
        Ok(re) => re.find(text).map(|m| m.end()),
        Err(_) => None,
    }
}

/// The expression that finds a tag: at the start of the text, an opening
/// bracket, one or more letters, blanks or plus signs, a closing bracket.
pub open spec fn tag_pattern() -> Seq<char> {
    "^\\[[[:alpha:]\\s\\+]+\\]"@
}

/// Where the tag of a note's text ends, if the text starts with one.
pub open spec fn tag_end(text: Seq<char>) -> Option<usize> {
    regex_match_end(tag_pattern(), text)
}

/// Whether each end lies on a character boundary of its note's text.
pub open spec fn ends_fit(notes: Seq<NoteView>, ends: Seq<Option<usize>>) -> bool {
    &&& ends.len() == notes.len()
    &&& forall|i: int|
        0 <= i < ends.len() ==> ((#[trigger] ends[i]) matches Some(e) ==> is_char_boundary(
            encode_utf8(notes[i].note),
            e as int,
        ))
}

/// For each note, where its tag ends.
pub fn get_bracket_locations(notes: &[Note]) -> (ends: Vec<Option<usize>>)
    ensures
        ends.len() == notes.len(),
        forall|i: int| 0 <= i < ends.len() ==> #[trigger] ends[i] == tag_end(notes[i].note@),
        ends_fit(note_views(notes@), ends@),
{
    let mut ends: Vec<Option<usize>> = Vec::new();
    let mut i: usize = 0;
    while i < notes.len()
        invariant
            i <= notes.len(),
            ends.len() == i,
            forall|j: int| 0 <= j < i ==> #[trigger] ends[j] == tag_end(notes[j].note@),
            forall|j: int|
                0 <= j < i ==> ((#[trigger] ends[j]) matches Some(e) ==> is_char_boundary(
                    encode_utf8(notes[j].note@),
                    e as int,
                )),
        decreases notes.len() - i,
    {
        let end = match_end("^\\[[[:alpha:]\\s\\+]+\\]", notes[i].note.as_str());
        ends.push(end);
        i += 1;
    }
    ends
}

/// The end as a number, zero standing for none.
pub open spec fn end_or_zero(end: Option<usize>) -> int {
    match end {
        Some(e) => e as int,
        None => 0,
    }
}

/// The greatest of the ends, zero where there is none.
pub open spec fn widest(ends: Seq<Option<usize>>) -> int
    decreases ends.len(),
{
    if ends.len() == 0 {
        0
    } else {
        let rest = widest(ends.drop_last());
        if end_or_zero(ends.last()) > rest {
            end_or_zero(ends.last())
        } else {
            rest
        }
    }
}

/// No end is beyond the widest.
pub proof fn lemma_widest_bounds(ends: Seq<Option<usize>>, i: int)
    requires
        0 <= i < ends.len(),
    ensures
        0 <= end_or_zero(ends[i]) <= widest(ends),
    decreases ends.len(),
{
    if i < ends.len() - 1 {
        lemma_widest_bounds(ends.drop_last(), i);
    }
}

/// The text's first `end` bytes, as characters.
pub open spec fn head_of(text: Seq<char>, end: int) -> Seq<char> {
    decode_utf8(encode_utf8(text).subrange(0, end))
}

/// The text behind its first `end` bytes, as characters.
pub open spec fn tail_of(text: Seq<char>, end: int) -> Seq<char> {
    decode_utf8(encode_utf8(text).subrange(end, encode_utf8(text).len() as int))
}

/// A run of `n` blanks.
pub open spec fn blanks(n: nat) -> Seq<char> {
    Seq::new(n, |i: int| ' ')
}

/// One note as it is shown. A note with a tag shows the tag, blanks up to
/// the width, then the rest, with the note's number put directly before
/// the tag where numbers are shown. A note without a tag shows its text,
/// behind its number and a blank where numbers are shown.
pub open spec fn laid_out(note: NoteView, end: int, width: int, show_id: bool) -> Seq<char> {
    if end != 0 {
        let padded = head_of(note.note, end) + blanks((width - end) as nat) + tail_of(
            note.note,
            end,
        );
        if show_id {
            decimal(note.id) + padded
        } else {
            padded
        }
    } else if show_id {
        decimal(note.id) + seq![' '] + note.note
    } else {
        note.note
    }
}

/// Cutting a text at a character boundary gives two parts that make up
/// the text.
pub proof fn lemma_head_tail(text: Seq<char>, end: int)
    requires
        is_char_boundary(encode_utf8(text), end),
    ensures
        head_of(text, end) + tail_of(text, end) == text,
{
    broadcast use vstd::utf8::group_utf8_lib;

    let bytes = encode_utf8(text);
    assert(vstd::utf8::valid_utf8(bytes));
    vstd::utf8::decode_utf8_split(bytes, end);
    assert(decode_utf8(bytes) == text);
}

/// The UTF-8 form of two texts joined is the two forms joined.
pub proof fn lemma_encode_joined(a: Seq<char>, b: Seq<char>)
    ensures
        encode_utf8(a + b) == encode_utf8(a) + encode_utf8(b),
    decreases a.len(),
{
    if a.len() == 0 {
        assert(a + b =~= b);
        assert(encode_utf8(a) + encode_utf8(b) =~= encode_utf8(b));
    } else {
        lemma_encode_joined(a.drop_first(), b);
        assert((a + b).drop_first() =~= a.drop_first() + b);
        assert(encode_utf8(a + b) =~= encode_utf8(a) + encode_utf8(b));
    }
}

/// Tags line up: a tag and the blanks behind it fill the width, counted
/// in bytes, whatever the tag's own length.
pub proof fn lemma_tags_line_up(text: Seq<char>, end: int, width: int)
    requires
        is_char_boundary(encode_utf8(text), end),
        end <= width,
    ensures
        encode_utf8(head_of(text, end) + blanks((width - end) as nat)).len() == width,
{
    broadcast use vstd::utf8::group_utf8_lib;

    let bytes = encode_utf8(text);
    let pad = blanks((width - end) as nat);
    assert(vstd::utf8::valid_utf8(bytes));
    vstd::utf8::valid_utf8_split(bytes, end);
    assert(0 <= end <= bytes.len());
    assert(encode_utf8(head_of(text, end)) == bytes.subrange(0, end));
    assert(vstd::utf8::is_ascii_chars(pad));
    vstd::utf8::is_ascii_chars_encode_utf8(pad);
    lemma_encode_joined(head_of(text, end), pad);
}

/// A note shown with the settings that give its colour and its style.
#[derive(Debug)]
pub struct StyledNote {
    pub text: String,
    pub color: EnvArgs,
    pub style: EnvArgs,
}

/// The setting that holds the colour of notes of a priority.
pub open spec fn color_setting(priority: nat) -> EnvArgs {
    if priority == 5 {
        EnvArgs::P5Color
    } else if priority == 4 {
        EnvArgs::P4Color
    } else if priority == 3 {
        EnvArgs::P3Color
    } else if priority == 2 {
        EnvArgs::P2Color
    } else {
        EnvArgs::P1Color
    }
}

/// The setting that holds the style of notes of a priority. Priority four
/// shares the style of priority three.
pub open spec fn style_setting(priority: nat) -> EnvArgs {
    if priority == 5 {
        EnvArgs::P5Style
    } else if priority == 4 || priority == 3 {
        EnvArgs::P3Style
    } else if priority == 2 {
        EnvArgs::P2Style
    } else {
        EnvArgs::P1Style
    }
}

/// The greatest of the ends, zero where there is none.
pub fn widest_end(ends: &[Option<usize>]) -> (width: usize)
    ensures
        width == widest(ends@),
{
    let mut width: usize = 0;
    let mut i: usize = 0;
    while i < ends.len()
        invariant
            i <= ends.len(),
            width == widest(ends@.take(i as int)),
        decreases ends.len() - i,
    {
        assert(ends@.take(i + 1).drop_last() =~= ends@.take(i as int));
        match ends[i] {
            Some(e) => {
                if e > width {
                    width = e;
                }
            },
            None => {},
        }
        i += 1;
    }
    assert(ends@.take(i as int) =~= ends@);
    width
}

/// Appends the characters of `s` to `out`.
fn push_str(out: &mut Vec<char>, s: &str)
    ensures
        final(out)@ == old(out)@ + s@,
{
    let chars = chars_of(s);
    let mut i: usize = 0;
    while i < chars.len()
        invariant
            i <= chars.len(),
            chars@ == s@,
            out@ == old(out)@ + chars@.take(i as int),
        decreases chars.len() - i,
    {
        out.push(chars[i]);
        assert(chars@.take(i + 1) =~= chars@.take(i as int).push(chars[i as int]));
        i += 1;
    }
    assert(chars@.take(i as int) =~= chars@);
}

/// Lays out one note, whose tag ends at `end` (zero for none), for tags
/// of the given width.
pub fn lay_out(note: &Note, end: usize, width: usize, show_id: bool) -> (text: String)
    requires
        end <= width,
        is_char_boundary(encode_utf8(note.note@), end as int),
    ensures
        text@ == laid_out(note@, end as int, width as int, show_id),
{
    let mut out: Vec<char> = Vec::new();
    if show_id {
        push_decimal(&mut out, note.id);
    }
    if end != 0 {
        let (head, tail) = note.note.as_str().split_at(end);
        proof {
            broadcast use vstd::utf8::group_utf8_lib;

            assert(head@ == decode_utf8(encode_utf8(head@)));
            assert(tail@ == decode_utf8(encode_utf8(tail@)));
            assert(head@ == head_of(note.note@, end as int));
            assert(tail@ == tail_of(note.note@, end as int));
        }
        push_str(&mut out, head);
        let ghost before = out@;
        let mut n: usize = 0;
        while n < width - end
            invariant
                end <= width,
                n <= width - end,
                out@ == before + blanks(n as nat),
            decreases width - end - n,
        {
            out.push(' ');
            assert(blanks((n + 1) as nat) =~= blanks(n as nat).push(' '));
            n += 1;
        }
        push_str(&mut out, tail);
        assert(out@ =~= laid_out(note@, end as int, width as int, show_id));
    } else {
        if show_id {
            out.push(' ');
        }
        push_str(&mut out, note.note.as_str());
        assert(out@ =~= laid_out(note@, end as int, width as int, show_id));
    }
    string_of(out.as_slice())
}

/// What showing the notes with the given tag ends comes to, note by note.
pub open spec fn shown(
    notes: Seq<NoteView>,
    ends: Seq<Option<usize>>,
    show_id: bool,
    i: int,
) -> Seq<char> {
    laid_out(notes[i], end_or_zero(ends[i]), widest(ends), show_id)
}

/// Lays out the notes whose tags end at `ends`, and names for each the
/// settings of its priority.
pub fn lay_out_notes(notes: &[Note], ends: &[Option<usize>], show_id: bool) -> (out: Vec<
    StyledNote,
>)
    requires
        ends_fit(note_views(notes@), ends@),
    ensures
        out.len() == notes.len(),
        forall|i: int|
            0 <= i < out.len() ==> {
                &&& (#[trigger] out[i]).text@ == shown(note_views(notes@), ends@, show_id, i)
                &&& out[i].color == color_setting(notes[i].priority as nat)
                &&& out[i].style == style_setting(notes[i].priority as nat)
            },
{
    let width = widest_end(ends);
    let mut out: Vec<StyledNote> = Vec::new();
    let mut i: usize = 0;
    while i < notes.len()
        invariant
            i <= notes.len(),
            out.len() == i,
            width == widest(ends@),
            ends_fit(note_views(notes@), ends@),
            forall|j: int|
                0 <= j < i ==> {
                    &&& (#[trigger] out[j]).text@ == shown(note_views(notes@), ends@, show_id, j)
                    &&& out[j].color == color_setting(notes[j].priority as nat)
                    &&& out[j].style == style_setting(notes[j].priority as nat)
                },
        decreases notes.len() - i,
    {
        let note = &notes[i];
        let end: usize = match ends[i] {
            Some(e) => e,
            None => 0,
        };
        proof {
            lemma_widest_bounds(ends@, i as int);
            broadcast use vstd::utf8::group_utf8_lib;

            assert(note_views(notes@)[i as int] == note@);
            assert(is_char_boundary(encode_utf8(note.note@), end as int));
        }
        let text = lay_out(note, end, width, show_id);
        let (color, style) = if note.priority == 5 {
            (EnvArgs::P5Color, EnvArgs::P5Style)
        } else if note.priority == 4 {
            (EnvArgs::P4Color, EnvArgs::P3Style)
        } else if note.priority == 3 {
            (EnvArgs::P3Color, EnvArgs::P3Style)
        } else if note.priority == 2 {
            (EnvArgs::P2Color, EnvArgs::P2Style)
        } else {
            (EnvArgs::P1Color, EnvArgs::P1Style)
        };
        out.push(StyledNote { text, color, style });
        i += 1;
    }
    out
}

/// The tag ends of the notes, read from their texts.
pub open spec fn tag_ends(notes: Seq<NoteView>) -> Seq<Option<usize>> {
    Seq::new(notes.len(), |i: int| tag_end(notes[i].note))
}

/// Lays out the notes for showing, with their numbers if `show_id`, and
/// names for each the settings that give its colour and style.
pub fn get_styled_notes(notes: &[Note], show_id: bool) -> (out: Vec<StyledNote>)
    ensures
        out.len() == notes.len(),
        forall|i: int|
            0 <= i < out.len() ==> {
                &&& (#[trigger] out[i]).text@ == shown(
                    note_views(notes@),
                    tag_ends(note_views(notes@)),
                    show_id,
                    i,
                )
                &&& out[i].color == color_setting(notes[i].priority as nat)
                &&& out[i].style == style_setting(notes[i].priority as nat)
            },
{
    let ends = get_bracket_locations(notes);
    assert(ends@ =~= tag_ends(note_views(notes@)));
    lay_out_notes(notes, ends.as_slice(), show_id)
}

} // verus!
