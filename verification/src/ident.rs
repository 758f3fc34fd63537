//! Identifiers of records: random, in the hyphenated form of a UUID.

use vstd::prelude::*;

verus! {

/// A decimal digit or one of the letters `a` to `f`.
pub open spec fn is_lower_hex(c: char) -> bool {
    ('0' <= c && c <= '9') || ('a' <= c && c <= 'f')
}

/// The character at place `i` fits the hyphenated form: a hyphen after the
/// groups of 8, 4, 4 and 4 digits, a lower-case hexadecimal digit elsewhere.
pub open spec fn fits_at(i: int, c: char) -> bool {
    if i == 8 || i == 13 || i == 18 || i == 23 {
        c == '-'
    } else {
        is_lower_hex(c)
    }
}

/// The hyphenated form of a version-4 UUID: 36 characters, 32 digits in
/// groups of 8-4-4-4-12, and the version digit 4 at the head of the third group.
pub open spec fn is_hyphenated_id(s: Seq<char>) -> bool {
    &&& s.len() == 36
    &&& forall|i: int| 0 <= i < 36 ==> fits_at(i, #[trigger] s[i])
    &&& s[14] == '4'
}

/// Draws a random version-4 UUID with `uuid::Uuid::new_v4` and writes it out
/// with its `Display` form. Trusted: the text has the hyphenated lower-case
/// form. Nothing is claimed about which digits come out, nor that two calls
/// differ. The call panics where the system offers no random bytes.
#[verifier::external_body]
pub(crate) fn random_id() -> (id: String)
    ensures
        is_hyphenated_id(id@),
{
    uuid::Uuid::new_v4().to_string()
}

} // verus!
