//! The library's domain: books, users and loans.
pub mod book;
pub mod borrow_record;
pub mod date;
pub mod user;
