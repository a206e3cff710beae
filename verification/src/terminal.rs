//! Terminal size decisions: which detected sizes count, and the fallback size.

use vstd::prelude::*;

verus! {

/// The fallback terminal size: 80 columns by 24 rows.
pub open spec fn default_size() -> (usize, usize) {
    (80, 24)
}

/// A detected `(columns, rows)` size counts only when both are positive.
pub fn size_if_positive(cols: usize, rows: usize) -> (r: Option<(usize, usize)>)
    ensures
        r == (if cols > 0 && rows > 0 { Some((cols, rows)) } else { None }),
{
    if cols > 0 && rows > 0 {
        Some((cols, rows))
    } else {
        None
    }
}

/// The detected terminal size, or 80×24 when detection failed.
pub fn terminal_size_or_default(detected: Option<(usize, usize)>) -> (r: (usize, usize))
    ensures
        r == (match detected {
            Some(s) => s,
            None => default_size(),
        }),
{
    match detected {
        Some(s) => s,
        None => (80, 24),
    }
}

} // verus!
