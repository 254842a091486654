//! The store's content as lines: where a line ends, which lines hold a
//! note, and how lines are written back.

use vstd::prelude::*;
use vstd::utf8::encode_utf8;
use crate::text::{chars_of, rows, texts};

verus! {

/// A line is blank when its UTF-8 form has at most one byte. Blank lines
/// hold no note.
pub open spec fn is_blank(line: Seq<char>) -> bool {
    encode_utf8(line).len() <= 1
}

/// The line without the carriage return that may end it.
pub open spec fn without_cr(line: Seq<char>) -> Seq<char> {
    if line.len() > 0 && line.last() == '\r' {
        line.drop_last()
    } else {
        line
    }
}

/// The lines with one more behind them, unless that one is blank.
pub open spec fn with_line(lines: Seq<Seq<char>>, line: Seq<char>) -> Seq<Seq<char>> {
    if is_blank(line) {
        lines
    } else {
        lines.push(line)
    }
}

/// What stands behind the last line feed of `s`: the line that nothing
/// ends yet.
pub open spec fn open_line(s: Seq<char>) -> Seq<char>
    decreases s.len(),
{
    if s.len() == 0 || s.last() == '\n' {
        Seq::empty()
    } else {
        open_line(s.drop_last()).push(s.last())
    }
}

/// The lines of `s` that a line feed ends and that are not blank, each
/// without its line feed and without the carriage return before it.
pub open spec fn ended_lines(s: Seq<char>) -> Seq<Seq<char>>
    decreases s.len(),
{
    if s.len() == 0 {
        Seq::empty()
    } else if s.last() == '\n' {
        with_line(ended_lines(s.drop_last()), without_cr(open_line(s.drop_last())))
    } else {
        ended_lines(s.drop_last())
    }
}

/// The lines of the content that hold a note, in order: the ended ones,
/// then the last line as it stands where no line feed ends it.
pub open spec fn stored_lines(content: Seq<char>) -> Seq<Seq<char>> {
    with_line(ended_lines(content), open_line(content))
}

/// The parts in order, with `sep` between each two.
pub open spec fn joined(parts: Seq<Seq<char>>, sep: char) -> Seq<char>
    decreases parts.len(),
{
    if parts.len() == 0 {
        Seq::empty()
    } else if parts.len() == 1 {
        parts[0]
    } else {
        joined(parts.drop_last(), sep).push(sep) + parts.last()
    }
}

/// The content that holds the given lines: a line feed between each two,
/// and one at the end.
pub open spec fn written(lines: Seq<Seq<char>>) -> Seq<char> {
    joined(lines, '\n').push('\n')
}

/// A line is blank exactly when it is empty or one ASCII character.
pub proof fn lemma_blank(line: Seq<char>)
    ensures
        is_blank(line) <==> (line.len() == 0 || (line.len() == 1 && line[0] as u32 <= 0x7F)),
{
    reveal_with_fuel(encode_utf8, 3);
    if line.len() > 0 {
        let rest = line.drop_first();
        vstd::utf8::char_is_scalar(line[0]);
        if rest.len() > 0 {
            vstd::utf8::char_is_scalar(rest[0]);
            assert(encode_utf8(rest).len() >= 1);
        } else {
            assert(encode_utf8(rest).len() == 0);
        }
    }
}

/// Behind content that is empty or ends with a line feed, characters
/// without a line feed form the open line and end no line.
pub proof fn lemma_open_line_grows(before: Seq<char>, line: Seq<char>)
    requires
        before.len() == 0 || before.last() == '\n',
        !line.contains('\n'),
    ensures
        open_line(before + line) == line,
        ended_lines(before + line) == ended_lines(before),
    decreases line.len(),
{
    if line.len() == 0 {
        assert(before + line =~= before);
        assert(open_line(before) =~= line);
    } else {
        let whole = before + line;
        assert(line.last() != '\n') by {
            assert(line[line.len() - 1] == line.last());
        }
        assert(whole.drop_last() =~= before + line.drop_last());
        assert(!line.drop_last().contains('\n')) by {
            if line.drop_last().contains('\n') {
                let i = choose|i: int| 0 <= i < line.drop_last().len() && line.drop_last()[i] == '\n';
                assert(line[i] == '\n');
            }
        }
        lemma_open_line_grows(before, line.drop_last());
        assert(line.drop_last().push(line.last()) =~= line);
    }
}

/// Behind content that is empty or ends with a line feed, a line and its
/// line feed add that line, without its carriage return, unless it is
/// blank.
pub proof fn lemma_line_ended(before: Seq<char>, line: Seq<char>)
    requires
        before.len() == 0 || before.last() == '\n',
        !line.contains('\n'),
    ensures
        ended_lines(before + line + seq!['\n']) == with_line(
            ended_lines(before),
            without_cr(line),
        ),
        open_line(before + line + seq!['\n']) == Seq::<char>::empty(),
{
    let whole = before + line + seq!['\n'];
    assert(whole.drop_last() =~= before + line);
    lemma_open_line_grows(before, line);
}

/// Contents that agree on their ended lines and on their open line still
/// do so with the same characters behind each.
pub proof fn lemma_same_lines_extend(a: Seq<char>, b: Seq<char>, rest: Seq<char>)
    requires
        ended_lines(a) == ended_lines(b),
        open_line(a) == open_line(b),
    ensures
        ended_lines(a + rest) == ended_lines(b + rest),
        open_line(a + rest) == open_line(b + rest),
        stored_lines(a + rest) == stored_lines(b + rest),
    decreases rest.len(),
{
    if rest.len() == 0 {
        assert(a + rest =~= a);
        assert(b + rest =~= b);
    } else {
        lemma_same_lines_extend(a, b, rest.drop_last());
        assert((a + rest).drop_last() =~= a + rest.drop_last());
        assert((b + rest).drop_last() =~= b + rest.drop_last());
    }
}

/// A blank line put between two lines changes nothing of the lines that
/// hold a note: the content with it holds the same lines as the content
/// without it.
pub proof fn lemma_blank_line_skipped(before: Seq<char>, blank: Seq<char>, after: Seq<char>)
    requires
        before.len() == 0 || before.last() == '\n',
        !blank.contains('\n'),
        is_blank(without_cr(blank)),
    ensures
        stored_lines(before + blank + seq!['\n'] + after) == stored_lines(before + after),
{
    lemma_line_ended(before, blank);
    assert(open_line(before) =~= Seq::<char>::empty());
    lemma_same_lines_extend(before + blank + seq!['\n'], before, after);
}

/// A note's line and its line feed, added to content that is empty or
/// ends with a line feed, add that line behind the lines of the content.
pub proof fn lemma_line_appended(content: Seq<char>, line: Seq<char>)
    requires
        content.len() == 0 || content.last() == '\n',
        is_note_line(line),
    ensures
        stored_lines(content + line.push('\n')) == stored_lines(content).push(line),
{
    let none = Seq::<char>::empty();
    assert(encode_utf8(none).len() == 0);
    assert(content + line.push('\n') =~= content + line + seq!['\n']);
    lemma_line_ended(content, line);
    assert(open_line(content) =~= none);
}

/// The open line holds no line feed.
pub proof fn lemma_open_line_has_no_feed(s: Seq<char>)
    ensures
        !open_line(s).contains('\n'),
    decreases s.len(),
{
    if s.len() == 0 || s.last() == '\n' {
        assert(open_line(s) =~= Seq::<char>::empty());
    } else {
        lemma_open_line_has_no_feed(s.drop_last());
        let first = open_line(s.drop_last());
        if first.push(s.last()).contains('\n') {
            let i = choose|i: int| 0 <= i < first.len() + 1 && first.push(s.last())[i] == '\n';
            if i < first.len() {
                assert(first[i] == '\n');
                assert(first.contains('\n'));
            }
        }
    }
}

/// No line that holds a note is blank, and none holds a line feed.
pub proof fn lemma_stored_lines_hold_notes(content: Seq<char>)
    ensures
        forall|i: int|
            0 <= i < stored_lines(content).len() ==> {
                &&& !is_blank(#[trigger] stored_lines(content)[i])
                &&& !stored_lines(content)[i].contains('\n')
            },
{
    lemma_ended_lines_hold_notes(content);
    lemma_open_line_has_no_feed(content);
}

/// No ended line is blank, and none holds a line feed.
pub proof fn lemma_ended_lines_hold_notes(s: Seq<char>)
    ensures
        forall|i: int|
            0 <= i < ended_lines(s).len() ==> {
                &&& !is_blank(#[trigger] ended_lines(s)[i])
                &&& !ended_lines(s)[i].contains('\n')
            },
    decreases s.len(),
{
    if s.len() > 0 {
        lemma_ended_lines_hold_notes(s.drop_last());
        if s.last() == '\n' {
            let open = open_line(s.drop_last());
            lemma_open_line_has_no_feed(s.drop_last());
            let line = without_cr(open);
            if line.contains('\n') {
                let i = choose|i: int| 0 <= i < line.len() && line[i] == '\n';
                assert(open[i] == '\n');
                assert(open.contains('\n'));
            }
            let first = ended_lines(s.drop_last());
            let all = ended_lines(s);
            assert forall|i: int| 0 <= i < all.len() implies !is_blank(#[trigger] all[i])
                && !all[i].contains('\n') by {
                if i < first.len() {
                    assert(all[i] == first[i]);
                } else {
                    assert(all[i] == line);
                }
            }
        }
    }
}

/// A blank line at the end of the content, with no line feed behind it,
/// changes nothing of the lines that hold a note either.
pub proof fn lemma_blank_last_line_skipped(before: Seq<char>, blank: Seq<char>)
    requires
        before.len() == 0 || before.last() == '\n',
        !blank.contains('\n'),
        is_blank(blank),
    ensures
        stored_lines(before + blank) == stored_lines(before),
{
    lemma_open_line_grows(before, blank);
    assert(open_line(before) =~= Seq::<char>::empty());
    assert(encode_utf8(Seq::<char>::empty()).len() == 0);
}

/// Whether a line can be written to the store and read back as it is: it
/// is not blank, holds no line feed and ends with no carriage return.
pub open spec fn is_note_line(line: Seq<char>) -> bool {
    &&& !is_blank(line)
    &&& !line.contains('\n')
    &&& without_cr(line) == line
}

/// Lines that are written to the store are the lines read from it again,
/// in the same order.
pub proof fn lemma_read_written(lines: Seq<Seq<char>>)
    requires
        forall|i: int| 0 <= i < lines.len() ==> is_note_line(#[trigger] lines[i]),
    ensures
        ended_lines(written(lines)) == lines,
        open_line(written(lines)) == Seq::<char>::empty(),
        stored_lines(written(lines)) == lines,
    decreases lines.len(),
{
    let none = Seq::<char>::empty();
    assert(encode_utf8(none).len() == 0);
    if lines.len() == 0 {
        assert(written(lines) =~= none + none + seq!['\n']);
        lemma_line_ended(none, none);
        assert(ended_lines(none) =~= lines);
    } else if lines.len() == 1 {
        let line = lines[0];
        assert(written(lines) =~= none + line + seq!['\n']);
        lemma_line_ended(none, line);
        assert(ended_lines(none).push(line) =~= lines);
    } else {
        let first = lines.drop_last();
        let line = lines.last();
        lemma_read_written(first);
        assert(written(lines) =~= written(first) + line + seq!['\n']);
        lemma_line_ended(written(first), line);
        assert(first.push(line) =~= lines);
    }
}

/// Splits the content into the lines that hold a note.
pub fn note_lines(content: &[char]) -> (lines: Vec<Vec<char>>)
    ensures
        rows(lines@) == stored_lines(content@),
{
    let mut lines: Vec<Vec<char>> = Vec::new();
    let mut line: Vec<char> = Vec::new();
    let mut i: usize = 0;
    assert(rows(lines@) =~= ended_lines(content@.take(0)));
    while i < content.len()
        invariant
            i <= content.len(),
            rows(lines@) == ended_lines(content@.take(i as int)),
            line@ == open_line(content@.take(i as int)),
        decreases content.len() - i,
    {
        assert(content@.take(i + 1).drop_last() =~= content@.take(i as int));
        let c = content[i];
        if c == '\n' {
            let n = line.len();
            if n > 0 && line[n - 1] == '\r' {
                line.pop();
            }
            lines = keep_line(lines, line);
            line = Vec::new();
        } else {
            line.push(c);
        }
        i += 1;
    }
    assert(content@.take(i as int) =~= content@);
    keep_line(lines, line)
}

/// Adds `line` behind `lines` unless it is blank.
fn keep_line(lines: Vec<Vec<char>>, line: Vec<char>) -> (out: Vec<Vec<char>>)
    ensures
        rows(out@) == with_line(rows(lines@), line@),
{
    proof {
        lemma_blank(line@);
    }
    let mut out = lines;
    if line.len() == 0 || (line.len() == 1 && line[0] as u32 <= 0x7F) {
        out
    } else {
        out.push(line);
        assert(rows(out@) =~= rows(lines@).push(line@));
        out
    }
}

/// Appends to `out` the parts in order, with `sep` between each two.
pub fn push_joined(out: &mut Vec<char>, parts: &[String], sep: char)
    ensures
        final(out)@ == old(out)@ + joined(texts(parts@), sep),
{
    let ghost all = texts(parts@);
    let mut i: usize = 0;
    assert(all.take(0) =~= Seq::<Seq<char>>::empty());
    while i < parts.len()
        invariant
            i <= parts.len(),
            all == texts(parts@),
            out@ == old(out)@ + joined(all.take(i as int), sep),
        decreases parts.len() - i,
    {
        let ghost before = out@;
        if i > 0 {
            out.push(sep);
        }
        let part = chars_of(parts[i].as_str());
        let mut j: usize = 0;
        let ghost mid = out@;
        while j < part.len()
            invariant
                j <= part.len(),
                out@ == mid + part@.take(j as int),
            decreases part.len() - j,
        {
            out.push(part[j]);
            assert(part@.take(j + 1) =~= part@.take(j as int).push(part[j as int]));
            j += 1;
        }
        proof {
            assert(part@.take(j as int) =~= part@);
            let next = all.take(i + 1);
            assert(next.drop_last() =~= all.take(i as int));
            assert(next.last() == part@);
            if i == 0 {
                assert(joined(all.take(0), sep) =~= Seq::<char>::empty());
                assert(out@ =~= old(out)@ + joined(next, sep));
            } else {
                assert(out@ =~= old(out)@ + joined(next, sep));
            }
        }
        i += 1;
    }
    assert(all.take(i as int) =~= all);
}

} // verus!
