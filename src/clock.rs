use vstd::prelude::*;

verus! {

/// Relies on uuid::Uuid::new_v4 and the hyphenated text form of a UUID:
/// a random identifier, 36 characters long.
#[verifier::external_body]
fn random_uuid_text() -> (r: String)
    ensures
        r@.len() == 36,
{
    uuid::Uuid::new_v4().to_string()
}

/// Relies on chrono::Utc::now and DateTime::to_rfc3339: the current time as
/// RFC 3339 text.
#[verifier::external_body]
fn utc_now_rfc3339() -> (r: String) {
    chrono::Utc::now().to_rfc3339()
}

/// `n` new random row identifiers.
pub fn new_record_ids(n: usize) -> (r: Vec<String>)
    ensures
        r@.len() == n,
        forall|i: int| 0 <= i < n ==> (#[trigger] r@[i])@.len() == 36,
{
    let mut out: Vec<String> = Vec::new();
    let mut i: usize = 0;
    while i < n
        invariant
            i <= n,
            out@.len() == i,
            forall|k: int| 0 <= k < i ==> (#[trigger] out@[k])@.len() == 36,
        decreases n - i,
    {
        out.push(random_uuid_text());
        i += 1;
    }
    out
}

/// The current time, as the store's timestamps hold it.
pub fn current_timestamp() -> (r: String) {
    utc_now_rfc3339()
}

} // verus!
