//! Fresh identifiers for new notes, notebooks and templates.

use crate::sandbox::{is_id_breaker, is_valid_id};
use vstd::prelude::*;

verus! {

/// A character of a written UUID: a digit, a lower-case hexadecimal letter,
/// or a hyphen.
pub open spec fn is_uuid_char(c: char) -> bool {
    ('0' <= c && c <= '9') || ('a' <= c && c <= 'f') || c == '-'
}

/// The shape of a UUID written in its hyphenated lower-case form: 36
/// characters, each a hexadecimal digit or a hyphen.
pub open spec fn is_uuid_text(s: Seq<char>) -> bool {
    s.len() == 36 && forall|i: int| 0 <= i < s.len() ==> is_uuid_char(#[trigger] s[i])
}

/// `Uuid::new_v4` of the uuid crate, written by `to_string`: a random UUID
/// in the hyphenated lower-case form. Which one, nothing says; only its
/// shape is claimed.
#[verifier::external_body]
pub(crate) fn random_uuid() -> (r: String)
    ensures
        is_uuid_text(r@),
{
    uuid::Uuid::new_v4().to_string()
}

/// Every written UUID is a valid identifier.
pub proof fn lemma_uuid_is_valid_id(s: Seq<char>)
    requires
        is_uuid_text(s),
    ensures
        is_valid_id(s),
{
    assert(seq!['.'].len() == 1);
    assert(seq!['.', '.'].len() == 2);
    assert forall|i: int| 0 <= i < s.len() implies !is_id_breaker(#[trigger] s[i]) by {
        assert(is_uuid_char(s[i]));
    }
}

/// A fresh identifier: a random UUID. It is a valid identifier.
pub fn new_id() -> (r: String)
    ensures
        is_uuid_text(r@),
        is_valid_id(r@),
{
    let id = random_uuid();
    proof {
        lemma_uuid_is_valid_id(id@);
    }
    id
}

} // verus!
