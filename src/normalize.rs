//! The line normalizer: trailing whitespace is trimmed from every line, each
//! line gets a single terminating newline where one is owed, and trailing
//! blank lines at the end of the file are optionally removed.

use vstd::prelude::*;
use vstd::string::*;
use crate::whitespace::{is_white_space, trim_end, trimmed_len, lemma_trim_end_shape, lemma_trim_end_idempotent};

verus! {

/// The text of each string slice of a sequence.
pub open spec fn str_views(lines: Seq<&str>) -> Seq<Seq<char>> {
    lines.map_values(|l: &str| l@)
}

/// The text of each string of a sequence.
pub open spec fn string_views(lines: Seq<String>) -> Seq<Seq<char>> {
    lines.map_values(|l: String| l@)
}

/// Whether a line ends with its newline terminator.
pub open spec fn ends_with_newline(line: Seq<char>) -> bool {
    line.len() > 0 && line.last() == '\n'
}

/// A line with nothing but whitespace in it (its terminator included).
pub open spec fn is_blank(line: Seq<char>) -> bool {
    trim_end(line).len() == 0
}

/// One line cleaned: trailing whitespace (and the terminator with it) is
/// removed, then a single newline is put back where the line had one or
/// where every line must end in one.
pub open spec fn clean_line(line: Seq<char>, normalize_eof: bool) -> Seq<char> {
    if normalize_eof || ends_with_newline(line) {
        trim_end(line).push('\n')
    } else {
        trim_end(line)
    }
}

/// The lines with the run of blank lines at their end removed.
pub open spec fn drop_trailing_blank(lines: Seq<Seq<char>>) -> Seq<Seq<char>>
    decreases lines.len(),
{
    if lines.len() > 0 && is_blank(lines.last()) {
        drop_trailing_blank(lines.drop_last())
    } else {
        lines
    }
}

/// Each line cleaned in order; with `normalize_eof` the trailing blank lines
/// of the result are dropped as well.
pub open spec fn clean_all(lines: Seq<Seq<char>>, normalize_eof: bool) -> Seq<Seq<char>> {
    let mapped = lines.map_values(|l: Seq<char>| clean_line(l, normalize_eof));
    if normalize_eof {
        drop_trailing_blank(mapped)
    } else {
        mapped
    }
}

/// The text that a sequence of lines stands for: the lines written one after another.
pub open spec fn render(lines: Seq<Seq<char>>) -> Seq<char> {
    lines.flatten()
}

/// A line whose content, before its terminator if it has one, ends in whitespace.
pub open spec fn has_trailing_whitespace(line: Seq<char>) -> bool {
    let body = if ends_with_newline(line) {
        line.drop_last()
    } else {
        line
    };
    body.len() > 0 && is_white_space(body.last())
}

pub proof fn lemma_clean_line_facts(line: Seq<char>, normalize_eof: bool)
    ensures
        is_blank(clean_line(line, normalize_eof)) == (trim_end(line).len() == 0),
        (clean_line(line, normalize_eof) == line) == (if normalize_eof || ends_with_newline(line) {
            ends_with_newline(line) && trim_end(line).len() + 1 == line.len()
        } else {
            trim_end(line).len() == line.len()
        }),
        clean_line(clean_line(line, normalize_eof), normalize_eof) == clean_line(line, normalize_eof),
        !has_trailing_whitespace(clean_line(line, normalize_eof)),
        ends_with_newline(clean_line(line, normalize_eof)) == (normalize_eof || ends_with_newline(line)),
{
    lemma_trim_end_shape(line);
    lemma_trim_end_idempotent(line, '\n');
    let t = trim_end(line);
    assert(t.push('\n').drop_last() =~= t);
    if normalize_eof || ends_with_newline(line) {
        if ends_with_newline(line) && t.len() + 1 == line.len() {
            assert(t.push('\n') =~= line);
        }
    }
    if t.len() == line.len() {
        assert(t =~= line);
    }
}

pub proof fn lemma_drop_trailing_blank_shape(lines: Seq<Seq<char>>)
    ensures
        forall|j: int|
            drop_trailing_blank(lines).len() <= j < lines.len() ==> #[trigger] is_blank(lines[j]),
        drop_trailing_blank(lines).len() <= lines.len(),
        drop_trailing_blank(lines) =~= lines.subrange(0, drop_trailing_blank(lines).len() as int),
        drop_trailing_blank(lines).len() > 0 ==> !is_blank(drop_trailing_blank(lines).last()),
    decreases lines.len(),
{
    if lines.len() > 0 && is_blank(lines.last()) {
        lemma_drop_trailing_blank_shape(lines.drop_last());
        assert(lines.drop_last().subrange(0, drop_trailing_blank(lines).len() as int)
            =~= lines.subrange(0, drop_trailing_blank(lines).len() as int));
        assert forall|j: int|
            drop_trailing_blank(lines).len() <= j < lines.len() implies #[trigger] is_blank(
                lines[j],
            ) by {
            if j < lines.len() - 1 {
                assert(lines.drop_last()[j] == lines[j]);
            }
        }
    }
}

/// Cleans a file's lines, each given with its terminator if it has one.
///
/// Returns the cleaned lines, and whether they differ from the input.
pub fn clean_lines(lines: &[&str], normalize_eof_newlines: bool) -> (r: (Vec<String>, bool))
    ensures
        string_views(r.0@) == clean_all(str_views(lines@), normalize_eof_newlines),
        r.1 == (string_views(r.0@) != str_views(lines@)),
        !r.1 ==> render(string_views(r.0@)) == render(str_views(lines@)),
{
    let ghost input = str_views(lines@);
    let ghost mapped = input.map_values(|l: Seq<char>| clean_line(l, normalize_eof_newlines));
    let n: usize = lines.len();
    let mut out: Vec<String> = Vec::new();
    let mut keep: usize = 0;
    let mut first_diff: usize = n;
    let mut i: usize = 0;
    while i < n
        invariant
            n == lines@.len(),
            input == str_views(lines@),
            mapped == input.map_values(|l: Seq<char>| clean_line(l, normalize_eof_newlines)),
            i <= n,
            keep <= i,
            string_views(out@) =~= mapped.subrange(0, i as int),
            drop_trailing_blank(mapped.subrange(0, i as int)) =~= mapped.subrange(0, keep as int),
            first_diff == n || first_diff < i,
            first_diff < i ==> mapped[first_diff as int] != input[first_diff as int],
            forall|j: int| 0 <= j < i && j < first_diff ==> mapped[j] == input[j],
        decreases n - i,
    {
        let line: &str = lines[i];
        let len: usize = line.unicode_len();
        let k: usize = trimmed_len(line);
        proof {
            lemma_trim_end_shape(line@);
            lemma_clean_line_facts(line@, normalize_eof_newlines);
        }
        let has_newline: bool = len > 0 && line.get_char(len - 1) == '\n';
        let trimmed: &str = line.substring_char(0, k);
        let cleaned: String = if normalize_eof_newlines || has_newline {
            trimmed.to_owned().concat("\n")
        } else {
            trimmed.to_owned()
        };
        let same: bool = if normalize_eof_newlines || has_newline {
            has_newline && k == len - 1
        } else {
            k == len
        };
        proof {
            reveal_strlit("\n");
            assert(has_newline == ends_with_newline(line@));
            assert(trimmed@ =~= trim_end(line@));
            assert(cleaned@ =~= clean_line(line@, normalize_eof_newlines));
            assert(same == (mapped[i as int] == input[i as int]));
        }
        if !same && first_diff == n {
            first_diff = i;
        }
        out.push(cleaned);
        proof {
            let prev = mapped.subrange(0, i as int);
            let next = mapped.subrange(0, i + 1);
            assert(next.drop_last() =~= prev);
            assert(next.last() == mapped[i as int]);
        }
        if k > 0 {
            keep = i + 1;
        }
        i = i + 1;
    }
    assert(mapped.subrange(0, n as int) =~= mapped);
    if normalize_eof_newlines {
        out.truncate(keep);
    }
    let m: usize = out.len();
    let changed: bool = m != n || first_diff < m;
    proof {
        assert(string_views(out@) =~= mapped.subrange(0, m as int));
        if !changed {
            assert(string_views(out@) =~= input);
        }
        if m != n {
            assert(string_views(out@).len() != input.len());
        } else if first_diff < m {
            assert(string_views(out@)[first_diff as int] != input[first_diff as int]);
        }
    }
    (out, changed)
}

} // verus!
