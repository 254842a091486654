//! The notes in the order and number in which a listing shows them.

use vstd::prelude::*;
use vstd::multiset::Multiset;
use crate::layout::{
    color_setting, get_styled_notes, shown, style_setting, tag_ends, StyledNote,
};
use crate::note::{note_views, Note, NoteView};

verus! {

/// The notes of priority above `p`, in order.
pub open spec fn above(notes: Seq<NoteView>, p: nat) -> Seq<NoteView>
    decreases notes.len(),
{
    if notes.len() == 0 {
        Seq::empty()
    } else if notes.last().priority > p {
        above(notes.drop_last(), p).push(notes.last())
    } else {
        above(notes.drop_last(), p)
    }
}

/// The notes of priority `p` or below, in order.
pub open spec fn not_above(notes: Seq<NoteView>, p: nat) -> Seq<NoteView>
    decreases notes.len(),
{
    if notes.len() == 0 {
        Seq::empty()
    } else if notes.last().priority > p {
        not_above(notes.drop_last(), p)
    } else {
        not_above(notes.drop_last(), p).push(notes.last())
    }
}

/// The notes from the highest priority to the lowest, notes of one
/// priority in the order they had: the first note stands behind the later
/// notes of higher priority and before all others.
pub open spec fn by_priority(notes: Seq<NoteView>) -> Seq<NoteView>
    decreases notes.len(),
{
    if notes.len() == 0 {
        Seq::empty()
    } else {
        let rest = by_priority(notes.drop_first());
        above(rest, notes[0].priority).push(notes[0]) + not_above(rest, notes[0].priority)
    }
}

/// Whether no note stands before one of higher priority.
pub open spec fn descending(notes: Seq<NoteView>) -> bool {
    forall|i: int, j: int| 0 <= i < j < notes.len() ==> notes[i].priority >= notes[j].priority
}

/// Where the notes up to a place are above `p` and the others are not,
/// that place parts the notes above `p` from the rest.
pub proof fn lemma_parted(notes: Seq<NoteView>, at: int, p: nat)
    requires
        0 <= at <= notes.len(),
        forall|i: int| 0 <= i < at ==> notes[i].priority > p,
        forall|i: int| at <= i < notes.len() ==> notes[i].priority <= p,
    ensures
        above(notes, p) == notes.take(at),
        not_above(notes, p) == notes.skip(at),
    decreases notes.len(),
{
    if notes.len() == 0 {
        assert(notes.take(at) =~= Seq::<NoteView>::empty());
        assert(notes.skip(at) =~= Seq::<NoteView>::empty());
    } else {
        let first = notes.drop_last();
        if at == notes.len() {
            lemma_parted(first, at - 1, p);
            assert(first.take(at - 1).push(notes.last()) =~= notes.take(at));
            assert(first.skip(at - 1) =~= notes.skip(at));
        } else {
            lemma_parted(first, at, p);
            assert(first.take(at) =~= notes.take(at));
            assert(first.skip(at).push(notes.last()) =~= notes.skip(at));
        }
    }
}

/// The notes above `p` and the others are together the notes.
pub proof fn lemma_parts_make_whole(notes: Seq<NoteView>, p: nat)
    ensures
        above(notes, p).to_multiset().add(not_above(notes, p).to_multiset())
            == notes.to_multiset(),
    decreases notes.len(),
{
    broadcast use vstd::seq_lib::to_multiset_build;
    broadcast use vstd::seq_lib::group_to_multiset_ensures;

    if notes.len() == 0 {
        assert(above(notes, p) =~= notes);
        assert(not_above(notes, p) =~= notes);
        assert(notes.to_multiset().len() == 0);
        assert(notes.to_multiset() =~= Multiset::<NoteView>::empty());
        assert(notes.to_multiset().add(notes.to_multiset()) =~= notes.to_multiset());
    } else {
        let first = notes.drop_last();
        lemma_parts_make_whole(first, p);
        assert(first.push(notes.last()) =~= notes);
        assert(above(notes, p).to_multiset().add(not_above(notes, p).to_multiset())
            =~= first.to_multiset().insert(notes.last()));
    }
}

/// Ordering by priority gives the same notes, each as often as before.
pub proof fn lemma_by_priority_permutes(notes: Seq<NoteView>)
    ensures
        by_priority(notes).to_multiset() == notes.to_multiset(),
    decreases notes.len(),
{
    broadcast use vstd::seq_lib::to_multiset_build;

    if notes.len() == 0 {
        assert(by_priority(notes) =~= notes);
    } else {
        let rest = by_priority(notes.drop_first());
        let p = notes[0].priority;
        lemma_by_priority_permutes(notes.drop_first());
        lemma_parts_make_whole(rest, p);
        vstd::seq_lib::lemma_multiset_commutative(above(rest, p).push(notes[0]), not_above(rest, p));
        assert(by_priority(notes).to_multiset() =~= rest.to_multiset().insert(notes[0]));
        assert(seq![notes[0]] + notes.drop_first() =~= notes);
        vstd::seq_lib::lemma_multiset_commutative(seq![notes[0]], notes.drop_first());
        assert(Seq::<NoteView>::empty().push(notes[0]) =~= seq![notes[0]]);
        assert(Seq::<NoteView>::empty().to_multiset() =~= Multiset::<NoteView>::empty()) by {
            broadcast use vstd::seq_lib::group_to_multiset_ensures;

        }
        assert(notes.to_multiset() =~= notes.drop_first().to_multiset().insert(notes[0]));
    }
}

/// Sorts the notes from the highest priority to the lowest. Notes of one
/// priority keep their order.
pub fn sort_by_priority(notes: Vec<Note>) -> (sorted: Vec<Note>)
    ensures
        note_views(sorted@) == by_priority(note_views(notes@)),
        descending(note_views(sorted@)),
{
    let ghost all = note_views(notes@);
    let mut rest = notes;
    let mut sorted: Vec<Note> = Vec::new();
    assert(all.skip(all.len() as int) =~= Seq::<NoteView>::empty());
    assert(note_views(sorted@) =~= Seq::<NoteView>::empty());
    while rest.len() > 0
        invariant
            rest.len() <= all.len(),
            note_views(rest@) == all.take(rest.len() as int),
            note_views(sorted@) == by_priority(all.skip(rest.len() as int)),
            descending(note_views(sorted@)),
        decreases rest.len(),
    {
        let ghost before = note_views(sorted@);
        let ghost n = rest.len() as int;
        let ghost rest_before = note_views(rest@);
        let note = rest.pop().unwrap();
        assert(note@ == rest_before[n - 1]);
        assert(note@ == all[n - 1]);
        let mut at: usize = 0;
        while at < sorted.len() && sorted[at].priority > note.priority
            invariant
                at <= sorted.len(),
                before == note_views(sorted@),
                forall|i: int| 0 <= i < at ==> before[i].priority > note.priority,
            decreases sorted.len() - at,
        {
            assert(before[at as int] == sorted[at as int]@);
            at += 1;
        }
        proof {
            if at < sorted.len() {
                assert(before[at as int] == sorted[at as int]@);
            }
            assert forall|i: int| at <= i < before.len() implies before[i].priority
                <= note.priority by {
                if i > at {
                    assert(before[at as int].priority >= before[i].priority);
                }
            }
            lemma_parted(before, at as int, note.priority as nat);
            assert(all.skip(n - 1).drop_first() =~= all.skip(n));
            assert(all.skip(n - 1)[0] == note@);
        }
        sorted.insert(at, note);
        proof {
            let after = note_views(sorted@);
            assert(after =~= before.take(at as int).push(note@) + before.skip(at as int));
            assert(note_views(rest@) =~= all.take(n - 1));
            assert forall|i: int, j: int| 0 <= i < j < after.len() implies after[i].priority
                >= after[j].priority by {
                if i < at && j > at {
                    assert(after[i] == before[i]);
                    assert(after[j] == before[j - 1]);
                } else if i < at && j == at {
                    assert(after[i] == before[i]);
                } else if i == at {
                    assert(after[j] == before[j - 1]);
                } else if j < at {
                    assert(after[i] == before[i]);
                    assert(after[j] == before[j]);
                } else {
                    assert(after[i] == before[i - 1]);
                    assert(after[j] == before[j - 1]);
                }
            }
        }
    }
    assert(all.skip(0) =~= all);
    sorted
}

/// The notes in the order of a listing: by priority where that is asked
/// for, else as they stand.
pub open spec fn listed(notes: Seq<NoteView>, priority: bool) -> Seq<NoteView> {
    if priority {
        by_priority(notes)
    } else {
        notes
    }
}

/// The notes as a listing shows them: ordered by priority if `priority`,
/// laid out with their numbers if `show_id`, and only the first `limit`
/// of them where a limit is given.
pub fn list(notes: Vec<Note>, show_id: bool, priority: bool, limit: Option<usize>) -> (out: Vec<
    StyledNote,
>)
    requires
        limit matches Some(n) ==> n <= notes.len(),
    ensures
        out.len() == match limit {
            Some(n) => n as int,
            None => notes.len() as int,
        },
        forall|i: int|
            0 <= i < out.len() ==> {
                let ordered = listed(note_views(notes@), priority);
                &&& (#[trigger] out[i]).text@ == shown(ordered, tag_ends(ordered), show_id, i)
                &&& out[i].color == color_setting(ordered[i].priority)
                &&& out[i].style == style_setting(ordered[i].priority)
            },
{
    proof {
        lemma_by_priority_len(note_views(notes@));
    }
    let ordered = if priority {
        sort_by_priority(notes)
    } else {
        notes
    };
    let mut styled = get_styled_notes(ordered.as_slice(), show_id);
    match limit {
        Some(n) => {
            styled.truncate(n);
        },
        None => {},
    }
    styled
}

/// A run of `n` dashes.
pub open spec fn dashes(n: nat) -> Seq<char> {
    Seq::new(n, |i: int| '-')
}

/// The rule drawn under a heading: one dash for each byte of the
/// heading's UTF-8 form.
pub fn underline(message: &str) -> (rule: String)
    ensures
        rule@ == dashes(vstd::utf8::encode_utf8(message@).len()),
{
    let n = message.as_bytes().len();
    let mut rule = String::new();
    let mut i: usize = 0;
    assert(rule@ =~= dashes(0));
    while i < n
        invariant
            i <= n,
            rule@ == dashes(i as nat),
        decreases n - i,
    {
        rule.push('-');
        assert(rule@ =~= dashes((i + 1) as nat));
        i += 1;
    }
    rule
}

/// Ordering by priority neither adds nor drops a note.
pub proof fn lemma_by_priority_len(notes: Seq<NoteView>)
    ensures
        by_priority(notes).len() == notes.len(),
    decreases notes.len(),
{
    if notes.len() > 0 {
        let rest = by_priority(notes.drop_first());
        lemma_by_priority_len(notes.drop_first());
        lemma_parts_len(rest, notes[0].priority);
    }
}

/// Each note is above `p` or not.
pub proof fn lemma_parts_len(notes: Seq<NoteView>, p: nat)
    ensures
        above(notes, p).len() + not_above(notes, p).len() == notes.len(),
    decreases notes.len(),
{
    if notes.len() > 0 {
        lemma_parts_len(notes.drop_last(), p);
    }
}

} // verus!
