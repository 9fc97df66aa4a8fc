//! Which characters count as whitespace, and trimming them from the end of a line.

use vstd::prelude::*;
use vstd::string::*;

verus! {

/// The Unicode `White_Space` property: ASCII tab, line feed, vertical tab,
/// form feed, carriage return and space, plus the non-ASCII code points
/// that Unicode lists under that property.
pub open spec fn is_white_space(c: char) -> bool {
    let u = c as u32;
    (0x09 <= u && u <= 0x0d) || u == 0x20 || u == 0x85 || u == 0xa0 || u == 0x1680 || (0x2000
        <= u && u <= 0x200a) || u == 0x2028 || u == 0x2029 || u == 0x202f || u == 0x205f || u
        == 0x3000
}

/// Relies on `char::is_whitespace`, which is documented to hold exactly of
/// the characters with the Unicode `White_Space` property.
#[verifier::external_body]
pub(crate) fn is_whitespace(c: char) -> (r: bool)
    ensures
        r == is_white_space(c),
{
    c.is_whitespace()
}

/// `s` with every trailing whitespace character removed.
pub open spec fn trim_end(s: Seq<char>) -> Seq<char>
    decreases s.len(),
{
    if s.len() > 0 && is_white_space(s.last()) {
        trim_end(s.drop_last())
    } else {
        s
    }
}

/// The trimmed text is a prefix of the untrimmed one and does not end in whitespace.
pub proof fn lemma_trim_end_shape(s: Seq<char>)
    ensures
        trim_end(s).len() <= s.len(),
        trim_end(s) =~= s.subrange(0, trim_end(s).len() as int),
        trim_end(s).len() > 0 ==> !is_white_space(trim_end(s).last()),
    decreases s.len(),
{
    if s.len() > 0 && is_white_space(s.last()) {
        lemma_trim_end_shape(s.drop_last());
        assert(s.drop_last().subrange(0, trim_end(s).len() as int) =~= s.subrange(
            0,
            trim_end(s).len() as int,
        ));
    }
}

/// Trimming twice removes nothing more, and a whitespace character added at
/// the end is removed again.
pub proof fn lemma_trim_end_idempotent(s: Seq<char>, c: char)
    requires
        is_white_space(c),
    ensures
        trim_end(trim_end(s)) == trim_end(s),
        trim_end(trim_end(s).push(c)) == trim_end(s),
{
    lemma_trim_end_shape(s);
    assert(trim_end(s).push(c).drop_last() =~= trim_end(s));
}

/// The number of characters of `s` that remain once trailing whitespace is removed.
pub fn trimmed_len(s: &str) -> (n: usize)
    ensures
        n as int == trim_end(s@).len(),
{
    let mut i: usize = s.unicode_len();
    assert(s@.subrange(0, i as int) =~= s@);
    while i > 0 && is_whitespace(s.get_char(i - 1))
        invariant
            i <= s@.len(),
            trim_end(s@.subrange(0, i as int)) == trim_end(s@),
        decreases i,
    {
        assert(s@.subrange(0, i as int).drop_last() =~= s@.subrange(0, i - 1));
        i = i - 1;
    }
    assert(trim_end(s@.subrange(0, i as int)) == s@.subrange(0, i as int));
    i
}

} // verus!
