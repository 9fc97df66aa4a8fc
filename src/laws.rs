//! Properties of the line normalizer that hold for every input.

use vstd::prelude::*;
use crate::whitespace::is_white_space;
use crate::normalize::{
    clean_all, clean_line, drop_trailing_blank, ends_with_newline, has_trailing_whitespace,
    is_blank, lemma_clean_line_facts, lemma_drop_trailing_blank_shape,
};

verus! {

/// Each kept line is the input line cleaned; without end-of-file
/// normalization every line is kept, and with it only blank ones are dropped,
/// all from the end.
pub proof fn lemma_clean_all_lines(lines: Seq<Seq<char>>, normalize_eof: bool)
    ensures
        clean_all(lines, normalize_eof).len() <= lines.len(),
        !normalize_eof ==> clean_all(lines, normalize_eof).len() == lines.len(),
        forall|i: int|
            0 <= i < clean_all(lines, normalize_eof).len() ==> #[trigger] clean_all(
                lines,
                normalize_eof,
            )[i] == clean_line(lines[i], normalize_eof),
        normalize_eof ==> forall|j: int|
            clean_all(lines, normalize_eof).len() <= j < lines.len() ==> #[trigger] is_blank(
                clean_line(lines[j], normalize_eof),
            ),
        normalize_eof && clean_all(lines, normalize_eof).len() > 0 ==> !is_blank(
            clean_all(lines, normalize_eof).last(),
        ),
{
    let mapped = lines.map_values(|l: Seq<char>| clean_line(l, normalize_eof));
    if normalize_eof {
        lemma_drop_trailing_blank_shape(mapped);
        assert forall|j: int|
            clean_all(lines, normalize_eof).len() <= j < lines.len() implies #[trigger] is_blank(
                clean_line(lines[j], normalize_eof),
            ) by {
            assert(is_blank(mapped[j]));
        }
    }
}

/// Cleaning is idempotent: cleaning lines that were already cleaned, with the
/// same setting, gives them back unchanged, so a second run reports no change.
pub proof fn lemma_clean_idempotent(lines: Seq<Seq<char>>, normalize_eof: bool)
    ensures
        clean_all(clean_all(lines, normalize_eof), normalize_eof) == clean_all(lines, normalize_eof),
{
    let c = clean_all(lines, normalize_eof);
    lemma_clean_all_lines(lines, normalize_eof);
    let mapped = c.map_values(|l: Seq<char>| clean_line(l, normalize_eof));
    assert forall|i: int| 0 <= i < c.len() implies mapped[i] == c[i] by {
        lemma_clean_line_facts(lines[i], normalize_eof);
    }
    assert(mapped =~= c);
}

/// No cleaned line ends in whitespace before its terminator; in particular
/// not in a space or a tab.
pub proof fn lemma_no_trailing_whitespace(lines: Seq<Seq<char>>, normalize_eof: bool)
    ensures
        forall|i: int|
            0 <= i < clean_all(lines, normalize_eof).len() ==> !has_trailing_whitespace(
                #[trigger] clean_all(lines, normalize_eof)[i],
            ),
        forall|c: char| (c == ' ' || c == '\t') ==> is_white_space(c),
{
    lemma_clean_all_lines(lines, normalize_eof);
    assert forall|i: int| 0 <= i < clean_all(lines, normalize_eof).len() implies !has_trailing_whitespace(
        #[trigger] clean_all(lines, normalize_eof)[i],
    ) by {
        lemma_clean_line_facts(lines[i], normalize_eof);
    }
}

/// With end-of-file normalization the cleaned lines never end in a blank
/// line: every input line up to the last one with content is kept (cleaned),
/// and only blank lines after it are dropped.
pub proof fn lemma_eof_collapse(lines: Seq<Seq<char>>)
    ensures
        clean_all(lines, true).len() > 0 ==> !is_blank(clean_all(lines, true).last()),
        clean_all(lines, true).len() <= lines.len(),
        forall|i: int|
            0 <= i < clean_all(lines, true).len() ==> #[trigger] clean_all(lines, true)[i]
                == clean_line(lines[i], true),
        forall|j: int| clean_all(lines, true).len() <= j < lines.len() ==> #[trigger] is_blank(lines[j]),
{
    lemma_clean_all_lines(lines, true);
    assert forall|j: int| clean_all(lines, true).len() <= j < lines.len() implies #[trigger] is_blank(
        lines[j],
    ) by {
        lemma_clean_line_facts(lines[j], true);
    }
}

/// Without end-of-file normalization no line is added or removed, and each
/// line keeps or lacks its newline terminator as it did in the input.
pub proof fn lemma_newlines_preserved(lines: Seq<Seq<char>>)
    ensures
        clean_all(lines, false).len() == lines.len(),
        forall|i: int|
            0 <= i < lines.len() ==> ends_with_newline(#[trigger] clean_all(lines, false)[i])
                == ends_with_newline(lines[i]),
{
    lemma_clean_all_lines(lines, false);
    assert forall|i: int| 0 <= i < lines.len() implies ends_with_newline(
        #[trigger] clean_all(lines, false)[i],
    ) == ends_with_newline(lines[i]) by {
        lemma_clean_line_facts(lines[i], false);
    }
}

} // verus!
