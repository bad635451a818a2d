//! Fields as lines of text.
//!
//! A list of fields is written as one text, a line for each field. A line
//! feed or a backslash inside a field is written as a backslash and a second
//! character, so a line never holds a line feed, and cutting the text at its
//! line feeds gives the fields again.

use crate::views::{lemma_deep_view_index, lemma_deep_view_push, lemma_take_push};
use vstd::prelude::*;
use vstd::string::*;

verus! {

/// How one character of a field is written in a line.
pub open spec fn escaped_char(c: char) -> Seq<char> {
    if c == '\n' {
        seq!['\\', 'n']
    } else if c == '\\' {
        seq!['\\', '\\']
    } else {
        seq![c]
    }
}

/// How a field is written in a line: character by character.
pub open spec fn escaped(field: Seq<char>) -> Seq<char>
    decreases field.len(),
{
    if field.len() == 0 {
        Seq::empty()
    } else {
        escaped(field.drop_last()) + escaped_char(field.last())
    }
}

/// `head` put in front of `tail`, where there is a `tail`.
pub open spec fn prefixed(head: Seq<char>, tail: Option<Seq<char>>) -> Option<Seq<char>> {
    match tail {
        Some(rest) => Some(head + rest),
        None => None,
    }
}

/// The field that a line stands for. A backslash must be followed by `n` or by
/// a second backslash; a line in which one is not stands for no field.
pub open spec fn unescaped(line: Seq<char>) -> Option<Seq<char>>
    decreases line.len(),
{
    if line.len() == 0 {
        Some(Seq::empty())
    } else if line[0] != '\\' {
        prefixed(seq![line[0]], unescaped(line.skip(1)))
    } else if line.len() >= 2 && line[1] == 'n' {
        prefixed(seq!['\n'], unescaped(line.skip(2)))
    } else if line.len() >= 2 && line[1] == '\\' {
        prefixed(seq!['\\'], unescaped(line.skip(2)))
    } else {
        None
    }
}

/// An escaped field holds no line feed.
pub proof fn lemma_escaped_has_no_line_feed(field: Seq<char>)
    ensures
        !escaped(field).contains('\n'),
    decreases field.len(),
{
    if field.len() > 0 {
        lemma_escaped_has_no_line_feed(field.drop_last());
        let front = escaped(field.drop_last());
        let back = escaped_char(field.last());
        assert forall|i: int| 0 <= i < (front + back).len() implies (front + back)[i] != '\n' by {
            if i < front.len() {
                assert(front.contains(front[i]));
            }
        }
    }
}

/// Reading an escaped field that is followed by more text gives the field,
/// followed by what the rest reads as.
pub proof fn lemma_unescaped_after_escaped(field: Seq<char>, rest: Seq<char>)
    ensures
        unescaped(escaped(field) + rest) == prefixed(field, unescaped(rest)),
    decreases field.len(),
{
    if field.len() == 0 {
        assert(escaped(field) + rest =~= rest);
        match unescaped(rest) {
            Some(r) => assert(field + r =~= r),
            None => {},
        }
    } else {
        let c = field.last();
        let front = field.drop_last();
        let tail = escaped_char(c) + rest;
        lemma_unescaped_after_escaped(front, tail);
        assert(escaped(field) + rest =~= escaped(front) + tail);
        if c == '\n' || c == '\\' {
            assert(tail.skip(2) =~= rest);
        } else {
            assert(tail.skip(1) =~= rest);
        }
        assert(unescaped(tail) == prefixed(seq![c], unescaped(rest)));
        match unescaped(rest) {
            Some(r) => assert(front + (seq![c] + r) =~= field + r),
            None => {},
        }
    }
}

/// Reading an escaped field gives the field.
pub proof fn lemma_unescaped_escaped(field: Seq<char>)
    ensures
        unescaped(escaped(field)) == Some(field),
{
    lemma_unescaped_after_escaped(field, Seq::empty());
    assert(escaped(field) + Seq::<char>::empty() =~= escaped(field));
    assert(field + Seq::<char>::empty() =~= field);
}

/// Writes a field as a line.
pub fn escape(field: &str) -> (line: String)
    ensures
        line@ == escaped(field@),
{
    let n = field.unicode_len();
    let mut line = String::new();
    let mut i: usize = 0;
    assert(field@.take(0) =~= Seq::<char>::empty());
    while i < n
        invariant
            i <= n,
            n == field@.len(),
            line@ == escaped(field@.take(i as int)),
        decreases n - i,
    {
        let c = field.get_char(i);
        proof {
            reveal_strlit("\\n");
            reveal_strlit("\\\\");
            assert(field@.take(i + 1).drop_last() =~= field@.take(i as int));
            assert(field@.take(i + 1).last() == c);
        }
        if c == '\n' {
            line.append("\\n");
            assert("\\n"@ =~= escaped_char(c));
        } else if c == '\\' {
            line.append("\\\\");
            assert("\\\\"@ =~= escaped_char(c));
        } else {
            line.append(field.substring_char(i, i + 1));
            assert(field@.subrange(i as int, i + 1) =~= escaped_char(c));
        }
        i += 1;
    }
    assert(field@.take(n as int) =~= field@);
    line
}

/// Reads a line as a field; `None` where a backslash is not followed by `n` or
/// by a second backslash.
pub fn unescape(line: &str) -> (field: Option<String>)
    ensures
        field.deep_view() == unescaped(line@),
{
    let n = line.unicode_len();
    let mut field = String::new();
    let mut i: usize = 0;
    assert(line@.skip(0) =~= line@);
    assert(field@ + line@ =~= line@);
    while i < n
        invariant
            i <= n,
            n == line@.len(),
            unescaped(line@) == prefixed(field@, unescaped(line@.skip(i as int))),
        decreases n - i,
    {
        let ghost rest = line@.skip(i as int);
        let ghost before = field@;
        let c = line.get_char(i);
        assert(rest[0] == c);
        if c != '\\' {
            field.append(line.substring_char(i, i + 1));
            i += 1;
            proof {
                assert(rest.skip(1) =~= line@.skip(i as int));
                assert(field@ =~= before + seq![c]);
                match unescaped(line@.skip(i as int)) {
                    Some(r) => assert(before + (seq![c] + r) =~= field@ + r),
                    None => {},
                }
            }
        } else {
            if i + 1 >= n {
                return None;
            }
            let d = line.get_char(i + 1);
            assert(rest[1] == d);
            proof {
                reveal_strlit("\n");
                reveal_strlit("\\");
            }
            if d == 'n' {
                field.append("\n");
                assert(field@ =~= before + seq!['\n']);
            } else if d == '\\' {
                field.append("\\");
                assert(field@ =~= before + seq!['\\']);
            } else {
                return None;
            }
            i += 2;
            proof {
                assert(rest.skip(2) =~= line@.skip(i as int));
                match unescaped(line@.skip(i as int)) {
                    Some(r) => {
                        assert(before + (seq!['\n'] + r) =~= before + seq!['\n'] + r);
                        assert(before + (seq!['\\'] + r) =~= before + seq!['\\'] + r);
                    },
                    None => {},
                }
            }
        }
    }
    assert(line@.skip(n as int) =~= Seq::<char>::empty());
    assert(field@ + Seq::<char>::empty() =~= field@);
    Some(field)
}

/// Lines put together, with a line feed between each two.
pub open spec fn joined(lines: Seq<Seq<char>>) -> Seq<char>
    decreases lines.len(),
{
    if lines.len() == 0 {
        Seq::empty()
    } else if lines.len() == 1 {
        lines[0]
    } else {
        joined(lines.drop_last()) + seq!['\n'] + lines.last()
    }
}

/// The lines of a text: what stands between its line feeds. A text of `k` line
/// feeds has `k + 1` lines, so the empty text has one empty line.
pub open spec fn split(text: Seq<char>) -> Seq<Seq<char>>
    decreases text.len(),
{
    if text.len() == 0 {
        seq![Seq::empty()]
    } else {
        let before = split(text.drop_last());
        if text.last() == '\n' {
            before.push(Seq::empty())
        } else {
            before.update(before.len() - 1, before.last().push(text.last()))
        }
    }
}

/// No line holds a line feed.
pub open spec fn single_lines(lines: Seq<Seq<char>>) -> bool {
    forall|i: int| 0 <= i < lines.len() ==> !(#[trigger] lines[i]).contains('\n')
}

/// A text has at least one line, and no line of it holds a line feed.
pub proof fn lemma_split_lines(text: Seq<char>)
    ensures
        split(text).len() >= 1,
        single_lines(split(text)),
    decreases text.len(),
{
    if text.len() > 0 {
        lemma_split_lines(text.drop_last());
        let before = split(text.drop_last());
        if text.last() != '\n' {
            let grown = before.last().push(text.last());
            assert forall|j: int| 0 <= j < grown.len() implies grown[j] != '\n' by {
                if j < before.last().len() {
                    assert(before.last().contains(before.last()[j]));
                }
            }
        }
    }
}

/// Text without a line feed, added to a text, lengthens its last line.
pub proof fn lemma_split_grows_last_line(text: Seq<char>, more: Seq<char>)
    requires
        !more.contains('\n'),
    ensures
        split(text).len() >= 1,
        split(text + more) == split(text).update(
            split(text).len() - 1,
            split(text).last() + more,
        ),
    decreases more.len(),
{
    lemma_split_lines(text);
    let lines = split(text);
    if more.len() == 0 {
        assert(text + more =~= text);
        assert(lines.last() + more =~= lines.last());
        assert(lines.update(lines.len() - 1, lines.last()) =~= lines);
    } else {
        let front = more.drop_last();
        assert forall|j: int| 0 <= j < front.len() implies front[j] != '\n' by {
            assert(more.contains(more[j]));
        }
        assert(more.contains(more.last()));
        lemma_split_grows_last_line(text, front);
        assert((text + more).drop_last() =~= text + front);
        let before = split(text + front);
        assert(before.last().push(more.last()) =~= lines.last() + more);
        assert(before.update(before.len() - 1, lines.last() + more) =~= lines.update(
            lines.len() - 1,
            lines.last() + more,
        ));
    }
}

/// One more line joined to at least one line.
pub proof fn lemma_joined_push(lines: Seq<Seq<char>>, line: Seq<char>)
    requires
        lines.len() >= 1,
    ensures
        joined(lines.push(line)) == joined(lines) + seq!['\n'] + line,
{
    assert(lines.push(line).drop_last() =~= lines);
}

/// Splitting what was joined gives the lines again.
pub proof fn lemma_split_joined(lines: Seq<Seq<char>>)
    requires
        lines.len() >= 1,
        single_lines(lines),
    ensures
        split(joined(lines)) == lines,
    decreases lines.len(),
{
    let last = lines.last();
    assert(!last.contains('\n'));
    if lines.len() == 1 {
        lemma_split_grows_last_line(Seq::empty(), last);
        assert(Seq::<char>::empty() + last =~= last);
        assert(split(Seq::<char>::empty()) =~= seq![Seq::<char>::empty()]);
        assert(seq![Seq::<char>::empty()].update(0, Seq::<char>::empty() + last) =~= lines);
    } else {
        let front = lines.drop_last();
        lemma_split_joined(front);
        let head = joined(front) + seq!['\n'];
        assert(head.drop_last() =~= joined(front));
        assert(split(head) == front.push(Seq::empty()));
        lemma_split_grows_last_line(head, last);
        assert(front.push(Seq::<char>::empty()).update(
            front.len() as int,
            Seq::<char>::empty() + last,
        ) =~= lines);
    }
}

/// Cuts a text into its lines.
pub fn split_lines(text: &str) -> (lines: Vec<String>)
    ensures
        lines.deep_view() == split(text@),
{
    let n = text.unicode_len();
    let mut lines: Vec<String> = Vec::new();
    let mut start: usize = 0;
    let mut i: usize = 0;
    proof {
        assert(text@.take(0) =~= Seq::<char>::empty());
        assert(lines.deep_view().push(text@.subrange(0, 0)) =~= seq![Seq::<char>::empty()]);
    }
    while i < n
        invariant
            start <= i <= n,
            n == text@.len(),
            split(text@.take(i as int)) == lines.deep_view().push(
                text@.subrange(start as int, i as int),
            ),
        decreases n - i,
    {
        let ghost before = lines;
        let ghost open_line = text@.subrange(start as int, i as int);
        let c = text.get_char(i);
        proof {
            assert(text@.take(i + 1).drop_last() =~= text@.take(i as int));
            assert(text@.take(i + 1).last() == c);
        }
        if c == '\n' {
            let line = text.substring_char(start, i).to_owned();
            lines.push(line);
            start = i + 1;
            proof {
                lemma_deep_view_push(before, lines, line);
                assert(text@.subrange(start as int, i + 1) =~= Seq::<char>::empty());
            }
        } else {
            proof {
                let closed = before.deep_view().push(open_line);
                assert(open_line.push(c) =~= text@.subrange(start as int, i + 1));
                assert(closed.update(closed.len() - 1, closed.last().push(c))
                    =~= before.deep_view().push(text@.subrange(start as int, i + 1)));
            }
        }
        i += 1;
    }
    let ghost before = lines;
    let line = text.substring_char(start, n).to_owned();
    lines.push(line);
    proof {
        lemma_deep_view_push(before, lines, line);
        assert(text@.take(n as int) =~= text@);
    }
    lines
}

/// Puts fields together as the lines of one text, each escaped.
pub fn join_escaped(fields: &Vec<String>) -> (text: String)
    ensures
        text@ == joined(escaped_all(fields.deep_view())),
{
    let ghost lines = escaped_all(fields.deep_view());
    let mut text = String::new();
    let mut i: usize = 0;
    assert(lines.take(0) =~= Seq::<Seq<char>>::empty());
    while i < fields.len()
        invariant
            i <= fields.len(),
            lines == escaped_all(fields.deep_view()),
            lines.len() == fields.len(),
            text@ == joined(lines.take(i as int)),
        decreases fields.len() - i,
    {
        let line = escape(fields[i].as_str());
        proof {
            reveal_strlit("\n");
            lemma_deep_view_index(*fields, i as int);
            lemma_take_push(lines, i as int);
            assert(line@ == lines[i as int]);
            if i > 0 {
                lemma_joined_push(lines.take(i as int), lines[i as int]);
            }
        }
        if i > 0 {
            text.append("\n");
            assert("\n"@ =~= seq!['\n']);
        }
        text.append(line.as_str());
        proof {
            if i == 0 {
                assert(Seq::<char>::empty() + line@ =~= line@);
            }
        }
        i += 1;
    }
    assert(lines.take(i as int) =~= lines);
    text
}

/// Every field escaped.
pub open spec fn escaped_all(fields: Seq<Seq<char>>) -> Seq<Seq<char>> {
    Seq::new(fields.len(), |i: int| escaped(fields[i]))
}

/// The fields that the lines stand for, where every line stands for one.
pub open spec fn unescaped_all(lines: Seq<Seq<char>>) -> Option<Seq<Seq<char>>> {
    if forall|i: int| 0 <= i < lines.len() ==> (#[trigger] unescaped(lines[i])) is Some {
        Some(Seq::new(lines.len(), |i: int| unescaped(lines[i])->0))
    } else {
        None
    }
}

/// Reads each line as a field; `None` where one of them stands for no field.
pub fn unescape_all(lines: &Vec<String>) -> (fields: Option<Vec<String>>)
    ensures
        fields.deep_view() == unescaped_all(lines.deep_view()),
{
    let ghost all = lines.deep_view();
    let mut fields: Vec<String> = Vec::new();
    let mut i: usize = 0;
    while i < lines.len()
        invariant
            i <= lines.len(),
            all == lines.deep_view(),
            all.len() == lines.len(),
            fields.deep_view().len() == i,
            forall|j: int| 0 <= j < i ==> (#[trigger] unescaped(all[j])) == Some(
                fields.deep_view()[j],
            ),
        decreases lines.len() - i,
    {
        let ghost before = fields;
        proof {
            lemma_deep_view_index(*lines, i as int);
        }
        match unescape(lines[i].as_str()) {
            Some(field) => {
                fields.push(field);
                proof {
                    lemma_deep_view_push(before, fields, field);
                }
            },
            None => {
                assert(unescaped(all[i as int]) is None);
                return None;
            },
        }
        i += 1;
    }
    assert(fields.deep_view() =~= unescaped_all(all)->0);
    Some(fields)
}

/// Whether two texts hold the same characters.
pub fn same_text(a: &str, b: &str) -> (same: bool)
    ensures
        same == (a@ == b@),
{
    a.to_owned() == b.to_owned()
}

/// A copy of a list of texts.
pub fn copy_texts(texts: &Vec<String>) -> (copy: Vec<String>)
    ensures
        copy.deep_view() == texts.deep_view(),
{
    let ghost wanted = texts.deep_view();
    let mut copy: Vec<String> = Vec::new();
    let mut i: usize = 0;
    assert(copy.deep_view() =~= wanted.take(0));
    while i < texts.len()
        invariant
            i <= texts.len(),
            wanted == texts.deep_view(),
            wanted.len() == texts.len(),
            copy.deep_view() == wanted.take(i as int),
        decreases texts.len() - i,
    {
        let ghost before = copy;
        let text = texts[i].clone();
        copy.push(text);
        proof {
            lemma_deep_view_push(before, copy, text);
            lemma_deep_view_index(*texts, i as int);
            lemma_take_push(wanted, i as int);
        }
        i += 1;
    }
    assert(wanted.take(i as int) =~= wanted);
    copy
}

} // verus!
