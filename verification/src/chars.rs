use vstd::prelude::*;

verus! {

/// What `char::is_alphanumeric` returns for `c`: Unicode's Alphabetic or Numeric property.
pub uninterp spec fn unicode_alphanumeric(c: char) -> bool;

/// What `char::is_whitespace` returns for `c`: Unicode's White_Space property.
pub uninterp spec fn unicode_whitespace(c: char) -> bool;

pub open spec fn ascii_alphanumeric(c: char) -> bool {
    ('a' <= c && c <= 'z') || ('A' <= c && c <= 'Z') || ('0' <= c && c <= '9')
}

/// `char::is_alphanumeric`. Its documentation: true for characters with the Alphabetic or
/// Numeric property; among ASCII characters these are the letters and digits.
#[verifier::external_body]
pub fn is_alphanumeric(c: char) -> (r: bool)
    ensures
        r == unicode_alphanumeric(c),
        (c as u32) < 128 ==> (r == ascii_alphanumeric(c)),
{
    c.is_alphanumeric()
}

/// `char::is_whitespace`. Its documentation: true for characters with the White_Space
/// property; among ASCII characters these are space, tab, line feed, vertical tab, form feed
/// and carriage return.
#[verifier::external_body]
pub fn is_whitespace(c: char) -> (r: bool)
    ensures
        r == unicode_whitespace(c),
        (c as u32) < 128 ==> (r == (c == ' ' || c == '\t' || c == '\n' || c == '\r'
            || (c as u32) == 11 || (c as u32) == 12)),
{
    c.is_whitespace()
}

pub open spec fn hex_digit(c: char) -> bool {
    ('0' <= c && c <= '9') || ('a' <= c && c <= 'f') || ('A' <= c && c <= 'F')
}

pub fn is_hex_digit(c: char) -> (r: bool)
    ensures
        r == hex_digit(c),
{
    ('0' <= c && c <= '9') || ('a' <= c && c <= 'f') || ('A' <= c && c <= 'F')
}

/// What `str::to_lowercase` returns for `s`: Unicode lower-case mapping.
pub uninterp spec fn unicode_lowercase(s: Seq<char>) -> Seq<char>;

pub open spec fn all_ascii(s: Seq<char>) -> bool {
    forall|i: int| 0 <= i < s.len() ==> (#[trigger] s[i] as u32) < 128
}

/// `str::to_lowercase`. Its documentation: each character is mapped by its Unicode
/// lower-case mapping; on ASCII text that maps 'A'..='Z' to 'a'..='z' and keeps the rest.
#[verifier::external_body]
pub fn to_lowercase(s: &str) -> (r: String)
    ensures
        r@ == unicode_lowercase(s@),
        all_ascii(s@) ==> r@ == s@.map_values(|c: char| crate::text::lower(c)),
{
    s.to_lowercase()
}

/// What `str::to_uppercase` returns for `s`: Unicode upper-case mapping.
pub uninterp spec fn unicode_uppercase(s: Seq<char>) -> Seq<char>;

/// `str::to_uppercase`. Its documentation: each character is mapped by its Unicode
/// upper-case mapping, which may give more than one character; on ASCII text that maps
/// 'a'..='z' to 'A'..='Z' and keeps the rest.
#[verifier::external_body]
pub fn to_uppercase(s: &str) -> (r: String)
    ensures
        r@ == unicode_uppercase(s@),
{
    s.to_uppercase()
}

} // verus!
