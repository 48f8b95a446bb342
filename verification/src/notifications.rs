//! Notifications raised for priority mail.
use vstd::prelude::*;

verus! {

/// The fields of a notification to insert (its id and creation time come from
/// the database).
#[derive(Debug)]
pub struct CreateNotification {
    pub sender_name: Option<String>,
    pub summary: String,
}

} // verus!
