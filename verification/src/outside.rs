//! The narrow boundary to the surrounding process: parsed-content
//! values, snapshot identifiers, and the clock.
//!
//! Everything here is a declaration the verifier believes; each item
//! names the outside function it relies on.

use vstd::prelude::*;

verus! {

/// serde_json's tree of parsed configuration content.  The store
/// carries parsed values through opaquely and never looks inside them.
#[verifier::external_type_specification]
#[verifier::external_body]
pub struct ExValue(serde_json::Value);

/// Relies on serde_json's derived `Clone` for `Value`: cloning a parsed
/// tree yields a structurally equal tree.
pub assume_specification[ <serde_json::Value as Clone>::clone ](v: &serde_json::Value) -> (r:
    serde_json::Value)
    ensures
        r == *v,
;

/// Relies on uuid: `Uuid::new_v4` draws a random version-4 UUID, and its
/// `Display` rendering is the 36-character hyphenated lowercase form.
/// The identifier is random, so nothing is promised beyond its length.
#[verifier::external_body]
pub(crate) fn fresh_version_id() -> (r: String)
    ensures
        r@.len() == 36,
{
    uuid::Uuid::new_v4().to_string()
}

/// Relies on chrono: `Utc::now` reads the system clock and
/// `timestamp_millis` renders it as milliseconds since the Unix epoch.
/// The clock is outside the store's control, so nothing is promised of
/// the value.
#[verifier::external_body]
pub(crate) fn now_timestamp_millis() -> i64 {
    chrono::Utc::now().timestamp_millis()
}

} // verus!
