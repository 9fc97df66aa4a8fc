//! What the file processor computes from a file's text: its lines, and
//! whether and with what content the file must be rewritten.

use vstd::prelude::*;
use crate::laws::lemma_clean_all_lines;
use crate::normalize::{
    clean_all, clean_line, clean_lines, ends_with_newline, lemma_clean_line_facts, render,
    str_views, string_views,
};
use crate::whitespace::{lemma_trim_end_shape, trim_end};

verus! {

/// The lines of a text, each keeping its terminating newline: a line ends
/// right after each newline character, a last line without a newline holds
/// what follows the last newline, and no line is empty.
pub open spec fn split_lines(text: Seq<char>) -> Seq<Seq<char>>
    decreases text.len(),
{
    if text.len() == 0 {
        Seq::empty()
    } else {
        let rest = split_lines(text.drop_last());
        if rest.len() == 0 || ends_with_newline(rest.last()) {
            rest.push(seq![text.last()])
        } else {
            rest.update(rest.len() - 1, rest.last().push(text.last()))
        }
    }
}

/// Relies on `str::split_inclusive` with the newline character as pattern:
/// the text is cut after every newline, each piece keeping its newline, and
/// no empty piece is produced (an empty text has no pieces).
#[verifier::external_body]
fn split_inclusive_newline<'a>(text: &'a str) -> (r: Vec<&'a str>)
    ensures
        str_views(r@) == split_lines(text@),
{
    text.split_inclusive('\n').collect()
}

/// Written one after another, the lines give back the text; no line is
/// empty, and only the last may lack a newline.
pub proof fn lemma_split_lines_render(text: Seq<char>)
    ensures
        render(split_lines(text)) == text,
        forall|i: int| 0 <= i < split_lines(text).len() ==> #[trigger] split_lines(text)[i].len() > 0,
        forall|i: int|
            0 <= i < split_lines(text).len() - 1 ==> ends_with_newline(#[trigger] split_lines(text)[i]),
        well_framed(split_lines(text)),
    decreases text.len(),
{
    if text.len() > 0 {
        let rest = split_lines(text.drop_last());
        lemma_split_lines_render(text.drop_last());
        let c = text.last();
        if rest.len() == 0 || ends_with_newline(rest.last()) {
            rest.lemma_flatten_push(seq![c]);
            assert(rest.push(seq![c]).flatten() == rest.flatten() + seq![c]);
        } else {
            let last = rest.last().push(c);
            let front = rest.drop_last();
            assert(rest =~= front.push(rest.last()));
            front.lemma_flatten_push(rest.last());
            assert(rest.update(rest.len() - 1, last) =~= front.push(last));
            front.lemma_flatten_push(last);
            let lines = split_lines(text);
            assert forall|i: int, j: int| 0 <= i < lines.len() && 0 <= j < lines[i].len() - 1
                implies lines[i][j] != '\n' by {
                if i < lines.len() - 1 {
                    assert(lines[i] == rest[i]);
                } else if j < rest.last().len() - 1 {
                    assert(lines[i][j] == rest.last()[j]);
                } else {
                    assert(lines[i][j] == rest.last().last());
                }
            }
        }
        assert(text.drop_last().push(c) =~= text);
    }
}

/// Lines that a text splits into: none is empty, a newline stands only at
/// the end of a line, and every line but the last ends with one.
pub open spec fn well_framed(lines: Seq<Seq<char>>) -> bool {
    forall|i: int|
        0 <= i < lines.len() ==> {
            &&& #[trigger] lines[i].len() > 0
            &&& forall|j: int| 0 <= j < lines[i].len() - 1 ==> lines[i][j] != '\n'
            &&& i < lines.len() - 1 ==> ends_with_newline(lines[i])
        }
}

proof fn lemma_split_lines_last(text: Seq<char>)
    ensures
        text.len() > 0 ==> split_lines(text).len() > 0 && split_lines(text).last().len() > 0
            && split_lines(text).last().last() == text.last(),
        text.len() == 0 ==> split_lines(text).len() == 0,
{
}

proof fn lemma_split_lines_append(text: Seq<char>, line: Seq<char>)
    requires
        text.len() == 0 || text.last() == '\n',
        line.len() > 0,
        forall|j: int| 0 <= j < line.len() - 1 ==> line[j] != '\n',
    ensures
        split_lines(text + line) == split_lines(text).push(line),
    decreases line.len(),
{
    lemma_split_lines_last(text);
    if line.len() == 1 {
        assert((text + line).drop_last() =~= text);
        assert(seq![line.last()] =~= line);
    } else {
        let front = line.drop_last();
        lemma_split_lines_append(text, front);
        assert((text + line).drop_last() =~= text + front);
        assert(front.last() == line[line.len() - 2]);
        assert(front.push(line.last()) =~= line);
        assert(split_lines(text).push(front).update(split_lines(text).len() as int, line)
            =~= split_lines(text).push(line));
    }
}

/// Splitting the text of well-framed lines gives those lines back.
pub proof fn lemma_split_lines_of_render(lines: Seq<Seq<char>>)
    requires
        well_framed(lines),
    ensures
        split_lines(render(lines)) == lines,
    decreases lines.len(),
{
    if lines.len() > 0 {
        let front = lines.drop_last();
        let line = lines.last();
        assert(front.push(line) =~= lines);
        assert(well_framed(front)) by {
            assert forall|i: int| 0 <= i < front.len() implies #[trigger] front[i].len() > 0 by {
                assert(front[i] == lines[i]);
            }
            assert forall|i: int, j: int| 0 <= i < front.len() && 0 <= j < front[i].len() - 1
                implies front[i][j] != '\n' by {
                assert(front[i] == lines[i]);
            }
        }
        lemma_split_lines_of_render(front);
        front.lemma_flatten_push(line);
        if front.len() > 0 {
            let inner = front.drop_last();
            assert(inner.push(front.last()) =~= front);
            inner.lemma_flatten_push(front.last());
            assert(ends_with_newline(lines[front.len() - 1]));
        } else {
            assert(front.flatten() =~= Seq::<char>::empty());
        }
        lemma_split_lines_append(render(front), line);
    }
}

proof fn lemma_clean_line_framing(line: Seq<char>, normalize_eof: bool)
    requires
        forall|j: int| 0 <= j < line.len() - 1 ==> line[j] != '\n',
    ensures
        forall|j: int|
            0 <= j < clean_line(line, normalize_eof).len() - 1 ==> clean_line(line, normalize_eof)[j]
                != '\n',
        clean_line(line, normalize_eof).len() == 0 ==> !normalize_eof && !ends_with_newline(line),
{
    lemma_trim_end_shape(line);
    lemma_clean_line_facts(line, normalize_eof);
    let t = trim_end(line);
    assert forall|j: int| 0 <= j < t.len() implies t[j] != '\n' by {
        assert(t[j] == line[j]);
        if j == line.len() - 1 {
            assert(t.last() == line[j]);
        }
    }
    assert forall|j: int|
        0 <= j < clean_line(line, normalize_eof).len() - 1 implies clean_line(line, normalize_eof)[j]
            != '\n' by {
        assert(clean_line(line, normalize_eof)[j] == t[j]);
    }
}

/// The cleaned lines of a text differ from its lines exactly when, written
/// out, they differ from the text.
pub proof fn lemma_cleaned_framing(text: Seq<char>, normalize_eof: bool)
    ensures
        (clean_all(split_lines(text), normalize_eof) != split_lines(text)) == (render(
            clean_all(split_lines(text), normalize_eof),
        ) != text),
{
    let lines = split_lines(text);
    let c = clean_all(lines, normalize_eof);
    lemma_split_lines_render(text);
    lemma_clean_all_lines(lines, normalize_eof);
    assert forall|i: int| 0 <= i < c.len() implies {
        &&& forall|j: int| 0 <= j < #[trigger] c[i].len() - 1 ==> c[i][j] != '\n'
        &&& c[i].len() == 0 ==> !normalize_eof && i == lines.len() - 1
        &&& i < c.len() - 1 ==> ends_with_newline(c[i])
    } by {
        lemma_clean_line_framing(lines[i], normalize_eof);
        lemma_clean_line_facts(lines[i], normalize_eof);
    }
    if c != lines && render(c) == text {
        if well_framed(c) {
            lemma_split_lines_of_render(c);
        } else {
            let front = c.drop_last();
            assert(front.push(c.last()) =~= c);
            assert(c.last().len() == 0);
            assert(front.push(c.last()).flatten() == front.flatten() + c.last()) by {
                front.lemma_flatten_push(c.last());
            }
            assert(front.flatten() + c.last() =~= front.flatten());
            assert(well_framed(front)) by {
                assert forall|i: int| 0 <= i < front.len() implies #[trigger] front[i].len() > 0 by {
                    assert(front[i] == c[i]);
                }
                assert forall|i: int, j: int| 0 <= i < front.len() && 0 <= j < front[i].len() - 1
                    implies front[i][j] != '\n' by {
                    assert(front[i] == c[i]);
                }
            }
            lemma_split_lines_of_render(front);
        }
    }
}

/// Cleans the text of a file: splits it into lines, keeping each newline
/// with its line, and cleans those.
///
/// Returns the cleaned lines, and whether they differ from the file's lines
/// (only then must the file be rewritten).
pub fn clean_text(text: &str, normalize_eof_newlines: bool) -> (r: (Vec<String>, bool))
    ensures
        string_views(r.0@) == clean_all(split_lines(text@), normalize_eof_newlines),
        r.1 == (string_views(r.0@) != split_lines(text@)),
        r.1 == (render(string_views(r.0@)) != text@),
{
    let lines = split_inclusive_newline(text);
    proof {
        lemma_split_lines_render(text@);
    }
    let r = clean_lines(lines.as_slice(), normalize_eof_newlines);
    proof {
        lemma_cleaned_framing(text@, normalize_eof_newlines);
    }
    r
}

} // verus!
