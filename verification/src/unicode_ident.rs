//! Which characters start and continue an identifier.
use vstd::prelude::*;

verus! {

/// Whether `c` has the Unicode property `XID_Start`.
pub uninterp spec fn xid_start(c: char) -> bool;

/// Whether `c` has the Unicode property `XID_Continue`.
pub uninterp spec fn xid_continue(c: char) -> bool;

/// An ASCII letter.
pub open spec fn ascii_letter(c: char) -> bool {
    ('a' <= c && c <= 'z') || ('A' <= c && c <= 'Z')
}

/// An ASCII decimal digit.
pub open spec fn ascii_digit(c: char) -> bool {
    '0' <= c && c <= '9'
}

/// Calls `unicode_ident::is_xid_start`.
///
/// The result is the property `XID_Start` of `c`, which is named and not
/// written out. Of an ASCII character it is stated: exactly the letters have it.
#[verifier::external_body]
pub(crate) fn is_xid_start(c: char) -> (r: bool)
    ensures
        r == xid_start(c),
        (c as u32) < 128 ==> r == ascii_letter(c),
{
    unicode_ident::is_xid_start(c)
}

/// Calls `unicode_ident::is_xid_continue`.
///
/// The result is the property `XID_Continue` of `c`, which is named and not
/// written out. Of an ASCII character it is stated: exactly the letters, the
/// digits and the underscore have it.
#[verifier::external_body]
pub(crate) fn is_xid_continue(c: char) -> (r: bool)
    ensures
        r == xid_continue(c),
        (c as u32) < 128 ==> r == (ascii_letter(c) || ascii_digit(c) || c == '_'),
{
    unicode_ident::is_xid_continue(c)
}

} // verus!
