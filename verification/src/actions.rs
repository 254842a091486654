//! What each command does to the store, as values: the line to add, the
//! content to write, the notes to drop.

use vstd::prelude::*;
use crate::lines::{
    is_note_line, joined, lemma_stored_lines_hold_notes, note_lines, push_joined, stored_lines,
    without_cr, written,
};
use crate::note::{decoded_text, encoded, Note, NoteView};
use crate::text::{chars_of, rows, string_of, texts};
use crate::util::{
    contains_id, edit_note, edited_lines, is_listed, lemma_empty_store_has_no_note,
    lemma_notes_of_written, notes_of, notes_of_lines, write_notes,
};

verus! {

/// What tossing notes asks of the store.
#[derive(Debug)]
pub enum Toss {
    /// Empty the store.
    Clear,
    /// Write the store anew with the lines in `kept`; `removed` holds the
    /// texts of the notes that go, in the order of their lines.
    Rewrite { removed: Vec<String>, kept: Vec<String> },
}

/// The lines whose number is not among `ids`, in order. Lines are numbered
/// from one.
pub open spec fn kept_lines(lines: Seq<Seq<char>>, ids: Seq<usize>) -> Seq<Seq<char>>
    decreases lines.len(),
{
    if lines.len() == 0 {
        Seq::empty()
    } else if is_listed(ids, lines.len() as int) {
        kept_lines(lines.drop_last(), ids)
    } else {
        kept_lines(lines.drop_last(), ids).push(lines.last())
    }
}

/// The texts of the notes whose number is among `ids`, in the order of
/// their lines.
pub open spec fn removed_texts(lines: Seq<Seq<char>>, ids: Seq<usize>) -> Seq<Seq<char>>
    decreases lines.len(),
{
    if lines.len() == 0 {
        Seq::empty()
    } else if is_listed(ids, lines.len() as int) {
        removed_texts(lines.drop_last(), ids).push(decoded_text(lines.last()))
    } else {
        removed_texts(lines.drop_last(), ids)
    }
}

/// The content of the store once a toss is carried out.
pub open spec fn content_after(toss: Toss) -> Seq<char> {
    match toss {
        Toss::Clear => Seq::empty(),
        Toss::Rewrite { removed, kept } => written(texts(kept@)),
    }
}

/// Every line that is kept is one of the lines.
pub proof fn lemma_kept_lines_are_lines(lines: Seq<Seq<char>>, ids: Seq<usize>)
    ensures
        forall|i: int|
            0 <= i < kept_lines(lines, ids).len() ==> lines.contains(
                #[trigger] kept_lines(lines, ids)[i],
            ),
    decreases lines.len(),
{
    if lines.len() > 0 {
        let first = lines.drop_last();
        lemma_kept_lines_are_lines(first, ids);
        let kept = kept_lines(lines, ids);
        assert forall|i: int| 0 <= i < kept.len() implies lines.contains(#[trigger] kept[i]) by {
            if i < kept_lines(first, ids).len() {
                let line = kept_lines(first, ids)[i];
                assert(first.contains(line));
                let j = choose|j: int| 0 <= j < first.len() && first[j] == line;
                assert(lines[j] == line);
            } else {
                assert(lines[lines.len() - 1] == kept[i]);
            }
        }
    }
}

/// Numbers are not kept over a toss: where no line of the store ends with
/// a carriage return, the notes read after a toss are the notes of the
/// lines that were kept, numbered from one in their order.
pub proof fn lemma_list_after_toss(content: Seq<char>, ids: Seq<usize>, unwanted: Seq<usize>)
    requires
        forall|i: int|
            0 <= i < stored_lines(content).len() ==> without_cr(#[trigger] stored_lines(content)[i])
                == stored_lines(content)[i],
    ensures
        notes_of(written(kept_lines(stored_lines(content), ids)), unwanted) == notes_of_lines(
            kept_lines(stored_lines(content), ids),
            unwanted,
        ),
{
    let lines = stored_lines(content);
    let kept = kept_lines(lines, ids);
    lemma_stored_lines_hold_notes(content);
    lemma_kept_lines_are_lines(lines, ids);
    assert forall|i: int| 0 <= i < kept.len() implies is_note_line(#[trigger] kept[i]) by {
        assert(lines.contains(kept[i]));
        let j = choose|j: int| 0 <= j < lines.len() && lines[j] == kept[i];
        assert(is_note_line(lines[j]));
    }
    lemma_notes_of_written(kept, unwanted);
}

/// Tossing all notes leaves a store without content, and such a store
/// lists no note.
pub proof fn lemma_list_after_clear(unwanted: Seq<usize>)
    ensures
        content_after(Toss::Clear).len() == 0,
        notes_of(content_after(Toss::Clear), unwanted) == Seq::<NoteView>::empty(),
{
    lemma_empty_store_has_no_note(unwanted);
}

/// The line that stores a new note: the words joined by spaces, a colon,
/// the priority.
pub fn stick(note: &[String], priority: usize) -> (line: String)
    ensures
        line@ == encoded(joined(texts(note@), ' '), priority as nat),
{
    let mut words: Vec<char> = Vec::new();
    push_joined(&mut words, note, ' ');
    assert(words@ =~= joined(texts(note@), ' '));
    let line = Note::encode(words.as_slice(), priority);
    string_of(line.as_slice())
}

/// The content of the store after the note numbered `id` is edited: the
/// lines that `edit_note` gives, written out.
pub fn edit(content: &str, id: usize, note: &[String], priority: usize, priority_set: bool) -> (out:
    String)
    ensures
        out@ == written(
            edited_lines(
                stored_lines(content@),
                id as int,
                texts(note@),
                priority as nat,
                priority_set,
            ),
        ),
{
    let lines = edit_note(content, id, note, priority, priority_set);
    write_notes(lines.as_slice())
}

/// Decides what tossing the notes numbered `ids` does. With `all`, or
/// where the store holds no note, the store is cleared. Otherwise the
/// lines of the notes that stay are kept as they are, and the texts of the
/// notes that go are handed back.
pub fn toss(content: &str, ids: &[usize], all: bool) -> (t: Toss)
    ensures
        all ==> t is Clear,
        match t {
            Toss::Clear => all || stored_lines(content@).len() == 0,
            Toss::Rewrite { removed, kept } => {
                &&& !all
                &&& stored_lines(content@).len() > 0
                &&& texts(kept@) == kept_lines(stored_lines(content@), ids@)
                &&& texts(removed@) == removed_texts(stored_lines(content@), ids@)
            },
        },
{
    if all {
        return Toss::Clear;
    }
    let chars = chars_of(content);
    let lines = note_lines(chars.as_slice());
    if lines.len() == 0 {
        return Toss::Clear;
    }
    let ghost all_lines = rows(lines@);
    let mut removed: Vec<String> = Vec::new();
    let mut kept: Vec<String> = Vec::new();
    let mut i: usize = 0;
    assert(all_lines.take(0) =~= Seq::<Seq<char>>::empty());
    assert(texts(kept@) =~= Seq::<Seq<char>>::empty());
    assert(texts(removed@) =~= Seq::<Seq<char>>::empty());
    while i < lines.len()
        invariant
            i <= lines.len(),
            all_lines == rows(lines@),
            texts(kept@) == kept_lines(all_lines.take(i as int), ids@),
            texts(removed@) == removed_texts(all_lines.take(i as int), ids@),
        decreases lines.len() - i,
    {
        let ghost next = all_lines.take(i + 1);
        let ghost kept_before = texts(kept@);
        let ghost removed_before = texts(removed@);
        assert(next.drop_last() =~= all_lines.take(i as int));
        assert(next.last() == lines[i as int]@);
        let line = lines[i].as_slice();
        if contains_id(ids, i + 1) {
            let note = Note::decode(line);
            removed.push(note.note);
            assert(texts(removed@) =~= removed_before.push(decoded_text(line@)));
        } else {
            kept.push(string_of(line));
            assert(texts(kept@) =~= kept_before.push(line@));
        }
        i += 1;
    }
    assert(all_lines.take(i as int) =~= all_lines);
    Toss::Rewrite { removed, kept }
}

} // verus!
