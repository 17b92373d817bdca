//! The library's services over its books, users and loans.
use vstd::prelude::*;
use crate::models::borrow_record::{fine, today_date, BorrowRecord};

pub mod book_service;
pub mod borrow_service;
pub mod user_service;

verus! {

/// A policy for the fine a loan owes.
pub trait FineCalculator {
    fn calculate(&self, borrow_record: &BorrowRecord) -> i64;
}

/// The library's policy: one unit per day overdue; nothing for a returned
/// book or one not yet due.
pub struct DefaultFineCalculator;

impl FineCalculator for DefaultFineCalculator {
    fn calculate(&self, borrow_record: &BorrowRecord) -> (f: i64)
        ensures
            f == fine(borrow_record@),
    {
        let today = today_date();
        if borrow_record.return_date().is_some() {
            return 0;
        }
        if !today.is_after(borrow_record.due_date()) {
            return 0;
        }
        today.days_since(borrow_record.due_date())
    }
}

} // verus!
