//! Values that come from the machine: fresh identifiers and the current time.
use vstd::prelude::*;
use crate::types::Timestamp;

verus! {

/// A lower-case hexadecimal digit.
pub open spec fn is_lower_hex(c: char) -> bool {
    ('0' <= c && c <= '9') || ('a' <= c && c <= 'f')
}

/// The hyphenated form of a UUID: 36 characters, hyphens at 8, 13, 18 and 23,
/// lower-case hexadecimal digits elsewhere.
pub open spec fn is_hyphenated_uuid(s: Seq<char>) -> bool {
    &&& s.len() == 36
    &&& forall|i: int| 0 <= i < 36 ==> if i == 8 || i == 13 || i == 18 || i == 23 {
        #[trigger] s[i] == '-'
    } else {
        is_lower_hex(s[i])
    }
}

/// `uuid::Uuid::new_v4().to_string()`: a random UUID in its hyphenated lower-case form,
/// which is what `Uuid`'s `Display` writes. Which UUID comes back is left open. (The crate
/// panics where the operating system gives no random bytes, which no input brings about.)
#[verifier::external_body]
pub(crate) fn new_uuid() -> (id: String)
    ensures
        is_hyphenated_uuid(id@),
{
    uuid::Uuid::new_v4().to_string()
}

/// `chrono::Utc::now()`, as seconds and nanoseconds since the Unix epoch.
/// Nothing is stated of the time read. (The crate panics where the system clock is set
/// before 1970, which no input brings about.)
#[verifier::external_body]
pub(crate) fn now() -> Timestamp {
    let now = chrono::Utc::now();
    Timestamp { seconds: now.timestamp(), nanos: now.timestamp_subsec_nanos() }
}

} // verus!
