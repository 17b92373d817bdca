//! A loan of a book to a user.
use vstd::prelude::*;
use crate::models::date::{day_number, Date};

verus! {

/// The day loans are due from, and the day the library takes as today.
pub open spec fn loan_start() -> int {
    day_number(2024, 1, 1)
}

pub open spec fn today() -> int {
    day_number(2024, 1, 15)
}

/// How many days a loan runs.
pub open spec fn loan_days() -> int {
    30
}

/// A loan: who borrowed which book when, when it is due, and when it came back.
#[derive(Debug, Clone)]
pub struct BorrowRecord {
    pub id: String,
    pub user_id: String,
    pub book_isbn: String,
    pub borrow_date: Date,
    pub due_date: Date,
    pub return_date: Option<Date>,
}

/// The model of a [`BorrowRecord`]: dates as day numbers.
pub struct LoanV {
    pub id: Seq<char>,
    pub user_id: Seq<char>,
    pub book_isbn: Seq<char>,
    pub borrow_date: int,
    pub due_date: int,
    pub return_date: Option<int>,
}

impl View for BorrowRecord {
    type V = LoanV;

    open spec fn view(&self) -> LoanV {
        LoanV {
            id: self.id@,
            user_id: self.user_id@,
            book_isbn: self.book_isbn@,
            borrow_date: self.borrow_date@,
            due_date: self.due_date@,
            return_date: match self.return_date {
                Some(d) => Some(d@),
                None => None,
            },
        }
    }
}

/// A loan is overdue when today is after its due date and the book is not back.
pub open spec fn overdue(l: LoanV) -> bool {
    today() > l.due_date && l.return_date is None
}

/// The fine of a loan: one unit per day overdue, nothing when it is not overdue.
pub open spec fn fine(l: LoanV) -> int {
    if overdue(l) { today() - l.due_date } else { 0 }
}

pub(crate) fn today_date() -> (d: Date)
    ensures
        d@ == today(),
{
    match Date::from_ymd_opt(2024, 1, 15) {
        Some(d) => d,
        None => {
            assert(false);
            Date::from_ymd_opt(2024, 1, 15).unwrap()
        },
    }
}

impl BorrowRecord {
    /// A loan made on 2024-01-01, due thirty days later, not yet returned.
    pub fn new(id: String, user_id: String, book_isbn: String) -> (r: Self)
        ensures
            r.id@ == id@,
            r.user_id@ == user_id@,
            r.book_isbn@ == book_isbn@,
            r.borrow_date@ == loan_start(),
            r.due_date@ == loan_start() + loan_days(),
            r.return_date is None,
    {
        let borrow_date = match Date::from_ymd_opt(2024, 1, 1) {
            Some(d) => d,
            None => {
                assert(false);
                Date::from_ymd_opt(2024, 1, 1).unwrap()
            },
        };
        proof {
            reveal_with_fuel(crate::models::date::days_before_month, 12);
            assert(crate::models::date::min_day() < loan_start() < crate::models::date::max_day() - 30);
        }
        let due_date = borrow_date.add_days(30);
        BorrowRecord { id, user_id, book_isbn, borrow_date, due_date, return_date: None }
    }

    /// Whether the loan is overdue today.
    pub fn is_overdue(&self) -> (b: bool)
        ensures
            b == overdue(self@),
    {
        let today = today_date();
        today.is_after(&self.due_date) && self.return_date.is_none()
    }

    /// The fine owed today: the number of days overdue.
    pub fn calculate_fine(&self) -> (f: i64)
        ensures
            f == fine(self@),
    {
        if !self.is_overdue() {
            return 0;
        }
        let today = today_date();
        today.days_since(&self.due_date)
    }

    pub fn id(&self) -> (s: &str)
        ensures
            s@ == self.id@,
    {
        self.id.as_str()
    }

    pub fn user_id(&self) -> (s: &str)
        ensures
            s@ == self.user_id@,
    {
        self.user_id.as_str()
    }

    pub fn book_isbn(&self) -> (s: &str)
        ensures
            s@ == self.book_isbn@,
    {
        self.book_isbn.as_str()
    }

    pub fn borrow_date(&self) -> (d: &Date)
        ensures
            *d == self.borrow_date,
    {
        &self.borrow_date
    }

    pub fn due_date(&self) -> (d: &Date)
        ensures
            *d == self.due_date,
    {
        &self.due_date
    }

    pub fn return_date(&self) -> (d: &Option<Date>)
        ensures
            *d == self.return_date,
    {
        &self.return_date
    }
}

} // verus!
