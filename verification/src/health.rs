//! The volume health decision: a volume is healthy when a round-trip test
//! file could be written, read back unchanged, and removed.

use vstd::prelude::*;

verus! {

/// Judge one volume round trip: the write and the removal must have
/// succeeded, and the content read back must equal what was written.
pub fn volume_verdict(
    write_ok: bool,
    read_back: Option<&String>,
    expected: &str,
    remove_ok: bool,
) -> (r: bool)
    ensures
        r == (write_ok && remove_ok && match read_back {
            Some(s) => s@ == expected@,
            None => false,
        }),
{
    if !write_ok || !remove_ok {
        return false;
    }
    match read_back {
        Some(s) => crate::text::str_eq(s.as_str(), expected),
        None => false,
    }
}

} // verus!
