//! Random identifiers for buckets and scratch files.
use vstd::prelude::*;
use crate::text::push_char;

verus! {

broadcast use vstd::string::group_string_axioms;

/// Whether `c` is a lower-case hexadecimal digit.
pub open spec fn is_lower_hex(c: char) -> bool {
    ('0' <= c && c <= '9') || ('a' <= c && c <= 'f')
}

/// Whether `s` is a UUID in its hyphenated lower-case form: 36 characters,
/// `-` at positions 8, 13, 18 and 23, hexadecimal digits elsewhere.
pub open spec fn is_uuid_text(s: Seq<char>) -> bool {
    &&& s.len() == 36
    &&& forall|i: int|
        0 <= i < 36 ==> if i == 8 || i == 13 || i == 18 || i == 23 {
            s[i] == '-'
        } else {
            is_lower_hex(#[trigger] s[i])
        }
}

/// `uuid::Uuid::new_v4().to_string()`. Trusted: the result is a random UUID
/// in the hyphenated lower-case form that uuid's `Display` writes; nothing
/// is said of which one.
#[verifier::external_body]
pub(crate) fn new_uuid() -> (res: String)
    ensures
        is_uuid_text(res@),
{
    uuid::Uuid::new_v4().to_string()
}

/// A new bucket name: a random UUID followed by `/`.
pub fn new_bucket_name() -> (res: String)
    ensures
        exists|id: Seq<char>| is_uuid_text(id) && res@ == id.push('/'),
{
    let mut id = new_uuid();
    let ghost i = id@;
    push_char(&mut id, '/');
    assert(is_uuid_text(i) && id@ == i.push('/'));
    id
}

/// A new scratch file name: a random UUID, `.`, and `suffix`.
pub fn scratch_file_name(suffix: &str) -> (res: String)
    ensures
        exists|id: Seq<char>| is_uuid_text(id) && res@ == id.push('.') + suffix@,
{
    let mut id = new_uuid();
    let ghost i = id@;
    push_char(&mut id, '.');
    id.append(suffix);
    assert(is_uuid_text(i) && id@ == i.push('.') + suffix@);
    id
}

} // verus!
