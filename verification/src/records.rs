//! Records handed to the relational marketplace service: the row contents
//! computed by the core before they are inserted. The service itself only
//! moves these rows in and out of a SQL store.

use vstd::prelude::*;

verus! {

/// Progress row for a user who just entered a course.
#[derive(Clone, Copy, Debug, PartialEq, Eq, Structural)]
pub struct NewCourseProgress {
    pub user_id: i64,
    pub course_id: i64,
    pub progress: i16,
    pub completed: bool,
}

impl NewCourseProgress {
    /// A fresh progress record: zero percent, not completed.
    pub fn fresh(user_id: i64, course_id: i64) -> (r: NewCourseProgress)
        ensures
            r == (NewCourseProgress { user_id, course_id, progress: 0i16, completed: false }),
    {
        NewCourseProgress { user_id, course_id, progress: 0, completed: false }
    }
}

/// Marketplace-transaction row recorded for a course purchase.
pub struct NewMarketplaceTransaction {
    pub buyer_id: i64,
    pub course_id: i64,
    pub amount: i64,
    pub currency: String,
    pub transaction_hash: String,
    pub status: String,
}

impl NewMarketplaceTransaction {
    /// The row for a purchase awaiting settlement: status starts "Pending".
    pub fn pending(
        buyer_id: i64,
        course_id: i64,
        amount: i64,
        currency: String,
        transaction_hash: String,
    ) -> (r: NewMarketplaceTransaction)
        ensures
            r.buyer_id == buyer_id,
            r.course_id == course_id,
            r.amount == amount,
            r.currency == currency,
            r.transaction_hash == transaction_hash,
            r.status@ == "Pending"@,
    {
        NewMarketplaceTransaction {
            buyer_id,
            course_id,
            amount,
            currency,
            transaction_hash,
            status: "Pending".to_owned(),
        }
    }
}

} // verus!
