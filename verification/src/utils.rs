use vstd::prelude::*;
use crate::text::decimal;

verus! {

/// What `humansize::format_size(size, humansize::DECIMAL)` returns for `size`.
pub uninterp spec fn humansize_decimal(size: u64) -> Seq<char>;

/// Calls `humansize::format_size(size, humansize::DECIMAL)`. The text it returns is named by
/// `humansize_decimal`; below 1000 the formatter divides nothing, prints no decimal places and
/// the unit `B` after one space, so the text is the plain number followed by " B".
#[verifier::external_body]
fn humansize_format(size: u64) -> (r: String)
    ensures
        r@ == humansize_decimal(size),
        size < 1000 ==> r@ == decimal(size as nat) + seq![' ', 'B'],
{
    humansize::format_size(size, humansize::DECIMAL)
}

/// Human-readable file size with SI units (e.g. "1.2 MB").
pub fn format_size(size: u64) -> (r: String)
    ensures
        r@ == humansize_decimal(size),
        size < 1000 ==> r@ == decimal(size as nat) + seq![' ', 'B'],
{
    humansize_format(size)
}

/// Whether the first bytes of a file hold a NUL byte: the test by which a file counts as binary.
pub fn has_null_byte(prefix: &[u8]) -> (r: bool)
    ensures
        r == prefix@.contains(0u8),
{
    let mut i: usize = 0;
    while i < prefix.len()
        invariant
            0 <= i <= prefix.len(),
            forall|j: int| 0 <= j < i ==> prefix@[j] != 0u8,
        decreases prefix.len() - i,
    {
        if prefix[i] == 0 {
            return true;
        }
        i = i + 1;
    }
    false
}

} // verus!
