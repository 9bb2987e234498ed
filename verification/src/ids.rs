//! Correlation-id generation.
//!
//! A request is tagged by the caller's own id or by a freshly generated
//! universally unique one.  Two ids are reserved for the supervisor and
//! may never be registered for a caller: the keepalive ping id and the
//! version-query id.  A generated id is 36 characters long, so it can
//! collide with neither (they are 9 and 13 characters).

use vstd::prelude::*;

verus! {

/// Relies on `uuid::Uuid::new_v4` and its `Display` implementation: a
/// fresh random version-4 id rendered in hyphenated form, which is
/// always 36 characters long.  The value is random, so nothing more is
/// promised of it.
#[verifier::external_body]
pub fn fresh_id() -> (r: String)
    ensures
        r@.len() == 36,
{
    uuid::Uuid::new_v4().to_string()
}

} // verus!
