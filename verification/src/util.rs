//! Reading the notes of a store and rewriting its content.

use vstd::prelude::*;
use crate::lines::{
    is_blank, is_note_line, joined, lemma_blank, lemma_blank_line_skipped, lemma_line_appended,
    lemma_read_written, note_lines, push_joined, stored_lines, without_cr, written,
};
use crate::note::{
    decoded_priority, decoded_text, encoded, lemma_decode_encode, note_views, Note, NoteView,
};
use crate::number::{decimal, is_digit, lemma_decimal_digits};
use crate::text::{chars_of, rows, string_of, texts};

verus! {

/// Whether `id` is among the given ids.
pub open spec fn is_listed(ids: Seq<usize>, id: int) -> bool {
    exists|j: int| 0 <= j < ids.len() && #[trigger] ids[j] == id
}

/// The note of the line at place `i`: numbered from one by its place, and
/// out of use where its number is among the unwanted ones.
pub open spec fn note_at(lines: Seq<Seq<char>>, unwanted: Seq<usize>, i: int) -> NoteView {
    NoteView {
        id: (i + 1) as nat,
        note: decoded_text(lines[i]),
        priority: decoded_priority(lines[i]),
        in_use: !is_listed(unwanted, i + 1),
    }
}

/// The notes of the given lines, in order.
pub open spec fn notes_of_lines(lines: Seq<Seq<char>>, unwanted: Seq<usize>) -> Seq<NoteView> {
    Seq::new(lines.len(), |i: int| note_at(lines, unwanted, i))
}

/// The notes that the content holds, in order.
pub open spec fn notes_of(content: Seq<char>, unwanted: Seq<usize>) -> Seq<NoteView> {
    notes_of_lines(stored_lines(content), unwanted)
}

/// The line that takes the place of `line` when its note is edited. With
/// the priority given, new words replace the text and no words keep it;
/// without, the words replace the text and the line keeps its priority.
pub open spec fn edited_line(
    line: Seq<char>,
    words: Seq<Seq<char>>,
    priority: nat,
    priority_set: bool,
) -> Seq<char> {
    if !priority_set {
        encoded(joined(words, ' '), decoded_priority(line))
    } else if words.len() > 0 {
        encoded(joined(words, ' '), priority)
    } else {
        encoded(decoded_text(line), priority)
    }
}

/// The lines after the note numbered `id` is edited: its line replaced,
/// every other line as it was.
pub open spec fn edited_lines(
    lines: Seq<Seq<char>>,
    id: int,
    words: Seq<Seq<char>>,
    priority: nat,
    priority_set: bool,
) -> Seq<Seq<char>> {
    Seq::new(
        lines.len(),
        |i: int|
            if i + 1 == id {
                edited_line(lines[i], words, priority, priority_set)
            } else {
                lines[i]
            },
    )
}

/// Blank lines are skipped: the content with a blank line between two
/// lines holds the same notes, under the same numbers, as the content
/// without it.
pub proof fn lemma_blank_line_changes_no_note(
    before: Seq<char>,
    blank: Seq<char>,
    after: Seq<char>,
    unwanted: Seq<usize>,
)
    requires
        before.len() == 0 || before.last() == '\n',
        !blank.contains('\n'),
        is_blank(without_cr(blank)),
    ensures
        notes_of(before + blank + seq!['\n'] + after, unwanted) == notes_of(
            before + after,
            unwanted,
        ),
{
    lemma_blank_line_skipped(before, blank, after);
}

/// Numbers go by place: the notes read from lines that were written are
/// the notes of those lines, numbered from one in their order, whatever
/// numbers the lines had before.
pub proof fn lemma_notes_of_written(lines: Seq<Seq<char>>, unwanted: Seq<usize>)
    requires
        forall|i: int| 0 <= i < lines.len() ==> is_note_line(#[trigger] lines[i]),
    ensures
        notes_of(written(lines), unwanted) == notes_of_lines(lines, unwanted),
        notes_of(written(lines), unwanted).len() == lines.len(),
        forall|i: int|
            0 <= i < lines.len() ==> (#[trigger] notes_of(written(lines), unwanted)[i]).id == i + 1,
{
    lemma_read_written(lines);
}

/// A store of no content holds no note.
pub proof fn lemma_empty_store_has_no_note(unwanted: Seq<usize>)
    ensures
        notes_of(Seq::<char>::empty(), unwanted) == Seq::<NoteView>::empty(),
{
    let none = Seq::<char>::empty();
    assert(vstd::utf8::encode_utf8(none).len() == 0);
    assert(stored_lines(none) =~= Seq::<Seq<char>>::empty());
    assert(notes_of(none, unwanted) =~= Seq::<NoteView>::empty());
}

/// The line that stores a note whose text holds no line feed can be
/// written to the store and read back as it is.
pub proof fn lemma_encoded_is_note_line(text: Seq<char>, priority: nat)
    requires
        !text.contains('\n'),
    ensures
        is_note_line(encoded(text, priority)),
{
    let number = decimal(priority);
    let line = encoded(text, priority);
    lemma_decimal_digits(priority);
    lemma_blank(line);
    assert(is_digit(number[number.len() - 1]));
    assert(line.last() == number[number.len() - 1]);
    if line.contains('\n') {
        let i = choose|i: int| 0 <= i < line.len() && line[i] == '\n';
        if i < text.len() {
            assert(text[i] == '\n');
            assert(text.contains('\n'));
        } else if i > text.len() {
            assert(is_digit(number[i - text.len() - 1]));
        }
    }
}

/// Sticking a note to a store that is empty or ends with a line feed adds
/// one note behind those that the store held: the next number, the text
/// and the priority that were encoded.
pub proof fn lemma_list_after_append(
    content: Seq<char>,
    text: Seq<char>,
    priority: usize,
    unwanted: Seq<usize>,
)
    requires
        content.len() == 0 || content.last() == '\n',
        !text.contains(':'),
        !text.contains('\n'),
    ensures
        notes_of(content + encoded(text, priority as nat).push('\n'), unwanted) == notes_of(
            content,
            unwanted,
        ).push(
            NoteView {
                id: (stored_lines(content).len() + 1) as nat,
                note: text,
                priority: priority as nat,
                in_use: !is_listed(unwanted, stored_lines(content).len() as int + 1),
            },
        ),
{
    let line = encoded(text, priority as nat);
    lemma_encoded_is_note_line(text, priority as nat);
    lemma_line_appended(content, line);
    lemma_decode_encode(text, priority);
    let after = stored_lines(content + line.push('\n'));
    assert(after[after.len() - 1] == line);
    assert(notes_of(content + line.push('\n'), unwanted) =~= notes_of(content, unwanted).push(
        note_at(after, unwanted, after.len() - 1),
    ));
}

/// An edit that names no priority keeps the one the line had: the edited
/// line stores the new words, where they hold no colon, with the old
/// priority.
pub proof fn lemma_edit_keeps_priority(line: Seq<char>, words: Seq<Seq<char>>, priority: nat)
    requires
        !joined(words, ' ').contains(':'),
    ensures
        decoded_text(edited_line(line, words, priority, false)) == joined(words, ' '),
        decoded_priority(edited_line(line, words, priority, false)) == decoded_priority(line),
{
    let kept = decoded_priority(line);
    assert(kept <= usize::MAX);
    lemma_decode_encode(joined(words, ' '), kept as usize);
}

/// Whether `id` is among the given ids.
pub fn contains_id(ids: &[usize], id: usize) -> (found: bool)
    ensures
        found == is_listed(ids@, id as int),
{
    let mut i: usize = 0;
    while i < ids.len()
        invariant
            i <= ids.len(),
            forall|j: int| 0 <= j < i ==> ids[j] != id,
        decreases ids.len() - i,
    {
        if ids[i] == id {
            return true;
        }
        i += 1;
    }
    false
}

/// Reads the notes of the store's content. Each line that is not blank is
/// one note, numbered from one in the order of the lines; a note whose
/// number is among `unwanted_ids` is returned marked as out of use.
pub fn read_to_notes(content: &str, unwanted_ids: &[usize]) -> (notes: Vec<Note>)
    ensures
        note_views(notes@) == notes_of(content@, unwanted_ids@),
{
    let chars = chars_of(content);
    let lines = note_lines(chars.as_slice());
    let mut notes: Vec<Note> = Vec::new();
    let mut i: usize = 0;
    while i < lines.len()
        invariant
            i <= lines.len(),
            rows(lines@) == stored_lines(content@),
            notes.len() == i,
            forall|j: int| 0 <= j < i ==> (#[trigger] notes[j])@ == note_at(rows(lines@), unwanted_ids@, j),
        decreases lines.len() - i,
    {
        let mut note = Note::decode(lines[i].as_slice());
        note.id = i + 1;
        if contains_id(unwanted_ids, i + 1) {
            note.in_use = false;
        }
        assert(rows(lines@)[i as int] == lines[i as int]@);
        notes.push(note);
        i += 1;
    }
    assert(note_views(notes@) =~= notes_of(content@, unwanted_ids@));
    notes
}

/// What appending a note's line adds to the store: the line and a line
/// feed.
pub fn append_note(notes: &str) -> (added: String)
    ensures
        added@ == notes@.push('\n'),
{
    let mut out = chars_of(notes);
    out.push('\n');
    string_of(out.as_slice())
}

/// The lines of the store after the note numbered `unwanted_id` is edited.
/// With `priority_set`, `new_priority` becomes the note's priority, and the
/// words of `new_note`, joined by spaces, its text where there are any;
/// without it the words become the text and the note keeps its priority.
/// Every other line stays as it is; blank lines are dropped. Where no note
/// has that number, no line changes.
pub fn edit_note(
    content: &str,
    unwanted_id: usize,
    new_note: &[String],
    new_priority: usize,
    priority_set: bool,
) -> (all_notes: Vec<String>)
    ensures
        texts(all_notes@) == edited_lines(
            stored_lines(content@),
            unwanted_id as int,
            texts(new_note@),
            new_priority as nat,
            priority_set,
        ),
{
    let chars = chars_of(content);
    let lines = note_lines(chars.as_slice());
    let ghost target = edited_lines(
        stored_lines(content@),
        unwanted_id as int,
        texts(new_note@),
        new_priority as nat,
        priority_set,
    );
    let mut all_notes: Vec<String> = Vec::new();
    let mut i: usize = 0;
    while i < lines.len()
        invariant
            i <= lines.len(),
            rows(lines@) == stored_lines(content@),
            target == edited_lines(
                stored_lines(content@),
                unwanted_id as int,
                texts(new_note@),
                new_priority as nat,
                priority_set,
            ),
            all_notes.len() == i,
            forall|j: int| 0 <= j < i ==> (#[trigger] all_notes[j])@ == target[j],
        decreases lines.len() - i,
    {
        assert(rows(lines@)[i as int] == lines[i as int]@);
        let line = lines[i].as_slice();
        if i + 1 == unwanted_id {
            let old_note = Note::decode(line);
            let mut words: Vec<char> = Vec::new();
            push_joined(&mut words, new_note, ' ');
            assert(words@ =~= joined(texts(new_note@), ' '));
            let new_line = if !priority_set {
                Note::encode(words.as_slice(), old_note.priority)
            } else if new_note.len() > 0 {
                Note::encode(words.as_slice(), new_priority)
            } else {
                let text = chars_of(old_note.note.as_str());
                Note::encode(text.as_slice(), new_priority)
            };
            all_notes.push(string_of(new_line.as_slice()));
        } else {
            all_notes.push(string_of(line));
        }
        i += 1;
    }
    assert(texts(all_notes@) =~= target);
    all_notes
}

/// The content of the store that holds the given lines: the lines with a
/// line feed between each two, and a line feed at the end.
pub fn write_notes(notes: &[String]) -> (content: String)
    ensures
        content@ == written(texts(notes@)),
{
    let mut out: Vec<char> = Vec::new();
    push_joined(&mut out, notes, '\n');
    out.push('\n');
    assert(out@ =~= written(texts(notes@)));
    string_of(out.as_slice())
}

} // verus!
