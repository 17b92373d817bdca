use sqlrustgo::models::book::Book;
use sqlrustgo::models::borrow_record::BorrowRecord;
use sqlrustgo::models::date::Date;
use sqlrustgo::models::user::{Student, Teacher, User};
use sqlrustgo::services::book_service::{contains_text, BookService};
use sqlrustgo::services::borrow_service::BorrowService;
use sqlrustgo::services::user_service::UserService;
use sqlrustgo::services::{DefaultFineCalculator, FineCalculator};

#[test]
fn test_is_overdue() {
    let record = BorrowRecord::new(
        "BR1".to_string(),
        "user1".to_string(),
        "978-7-115-41632-2".to_string(),
    );
    assert!(!record.is_overdue());
    let mut returned_record = record;
    returned_record.return_date = Some(Date::from_ymd_opt(2024, 1, 10).unwrap());
    assert!(!returned_record.is_overdue());
}

#[test]
fn test_is_overdue_true() {
    let mut record = BorrowRecord::new(
        "BR2".to_string(),
        "user2".to_string(),
        "978-7-302-33064-6".to_string(),
    );
    record.due_date = Date::from_ymd_opt(2024, 1, 10).unwrap();
    assert!(record.is_overdue());
}

#[test]
fn test_calculate_fine() {
    let record1 = BorrowRecord::new(
        "BR3".to_string(),
        "user3".to_string(),
        "978-7-115-41632-2".to_string(),
    );
    assert_eq!(record1.calculate_fine() as f64, 0.0);
    let mut record2 = BorrowRecord::new(
        "BR4".to_string(),
        "user4".to_string(),
        "978-7-302-33064-6".to_string(),
    );
    record2.due_date = Date::from_ymd_opt(2024, 1, 10).unwrap();
    assert_eq!(record2.calculate_fine() as f64, 5.0);
    let mut record3 = record2;
    record3.return_date = Some(Date::from_ymd_opt(2024, 1, 12).unwrap());
    assert_eq!(record3.calculate_fine() as f64, 0.0);
}

#[test]
fn dates_follow_the_calendar() {
    let d = Date::from_ymd_opt(2024, 1, 1).unwrap();
    let e = Date::from_ymd_opt(2024, 1, 31).unwrap();
    assert_eq!(d.add_days(30), e);
    assert_eq!(e.days_since(&d), 30);
    assert!(e.is_after(&d));
    assert!(!d.is_after(&d));
    assert!(Date::from_ymd_opt(2023, 2, 29).is_none());
    assert!(Date::from_ymd_opt(2024, 2, 29).is_some());
    assert!(Date::from_ymd_opt(2024, 13, 1).is_none());
    assert!(Date::from_ymd_opt(400000, 1, 1).is_none());
    let y1 = Date::from_ymd_opt(1, 1, 1).unwrap();
    let y0 = Date::from_ymd_opt(0, 1, 1).unwrap();
    assert_eq!(y1.days_since(&y0), 366);
    let mar = Date::from_ymd_opt(2024, 3, 1).unwrap();
    let feb = Date::from_ymd_opt(2024, 2, 1).unwrap();
    assert_eq!(mar.days_since(&feb), 29);
}

#[test]
fn new_record_is_due_in_thirty_days() {
    let r = BorrowRecord::new("BR9".into(), "u".into(), "isbn".into());
    assert_eq!(*r.borrow_date(), Date::from_ymd_opt(2024, 1, 1).unwrap());
    assert_eq!(*r.due_date(), Date::from_ymd_opt(2024, 1, 31).unwrap());
    assert_eq!(*r.return_date(), None);
    assert_eq!(r.id(), "BR9");
    assert_eq!(r.user_id(), "u");
    assert_eq!(r.book_isbn(), "isbn");
}

#[test]
fn default_fine_calculator_matches_record_fine() {
    let calc = DefaultFineCalculator;
    let mut r = BorrowRecord::new("BR1".into(), "u".into(), "b".into());
    assert_eq!(calc.calculate(&r), 0);
    r.due_date = Date::from_ymd_opt(2024, 1, 14).unwrap();
    assert_eq!(calc.calculate(&r), 1);
    assert_eq!(r.calculate_fine(), 1);
    r.due_date = Date::from_ymd_opt(2024, 1, 15).unwrap();
    assert_eq!(calc.calculate(&r), 0);
    r.due_date = Date::from_ymd_opt(2023, 12, 15).unwrap();
    assert_eq!(calc.calculate(&r), 31);
    r.return_date = Some(Date::from_ymd_opt(2024, 1, 2).unwrap());
    assert_eq!(calc.calculate(&r), 0);
}

#[test]
fn book_borrow_and_return() {
    let mut b = Book::new("111".into(), "Rust".into(), "Ann".into(), "Pub".into());
    assert!(b.available());
    assert_eq!(b.borrow(), Ok(()));
    assert!(!b.available());
    assert_eq!(b.borrow(), Err("图书不可借".to_string()));
    b.return_book();
    assert!(b.available());
    assert_eq!((b.isbn(), b.title(), b.author(), b.publisher()), ("111", "Rust", "Ann", "Pub"));
}

#[test]
fn book_service_search_and_availability() {
    let mut s = BookService::new();
    s.add_book(Book::new("978-1".into(), "Rust in Action".into(), "Tim".into(), "Manning".into()));
    s.add_book(Book::new("978-2".into(), "Go Programming".into(), "Alan".into(), "Addison".into()));
    let mut lent = Book::new("978-3".into(), "Deep Rust".into(), "Sam".into(), "Press".into());
    lent.borrow().unwrap();
    s.add_book(lent);
    assert_eq!(s.get_book_count(), 3);
    assert_eq!(s.get_book("978-2").unwrap().title(), "Go Programming");
    assert!(s.get_book("000").is_none());
    let hits: Vec<&str> = s.search_books("Rust").iter().map(|b| b.isbn()).collect();
    assert_eq!(hits, vec!["978-1", "978-3"]);
    assert_eq!(s.search_books("Addison").len(), 1);
    assert_eq!(s.search_books("978").len(), 3);
    assert_eq!(s.search_books("").len(), 3);
    assert!(s.search_books("Python").is_empty());
    let avail: Vec<&str> = s.get_available_books().iter().map(|b| b.isbn()).collect();
    assert_eq!(avail, vec!["978-1", "978-2"]);
    s.add_book(Book::new("978-1".into(), "Other".into(), "X".into(), "Y".into()));
    assert_eq!(s.get_book_count(), 3);
    assert_eq!(s.get_book("978-1").unwrap().title(), "Other");
    let order: Vec<&str> = s.search_books("").iter().map(|b| b.isbn()).collect();
    assert_eq!(order, vec!["978-1", "978-2", "978-3"]);
}

#[test]
fn substring_search() {
    assert!(contains_text("hello", "ell"));
    assert!(contains_text("hello", ""));
    assert!(!contains_text("hel", "hello"));
    assert!(contains_text("图书馆", "书"));
    assert!(!contains_text("abc", "ac"));
}

#[test]
fn users_and_limits() {
    let s = Student::new("S1".into(), "Li".into());
    let t = Teacher::new("T1".into(), "Wang".into());
    assert_eq!((s.id(), s.name(), s.borrow_limit()), ("S1", "Li", 5));
    assert_eq!((t.id(), t.name(), t.borrow_limit()), ("T1", "Wang", 10));
    let mut us = UserService::new();
    us.add_user(s);
    us.add_user(t);
    assert_eq!(us.get_user_count(), 2);
    let u = us.get_user("T1").unwrap();
    assert_eq!((u.id(), u.name(), u.borrow_limit()), ("T1", "Wang", 10));
    assert!(us.get_user("nobody").is_none());
    assert_eq!(us.get_all_users().len(), 2);
    us.add_user(Student::new("T1".into(), "Zhao".into()));
    assert_eq!(us.get_user_count(), 2);
    assert_eq!(us.get_user("T1").unwrap().borrow_limit(), 5);
}

#[test]
fn borrow_service_ids_and_queries() {
    let mut bs = BorrowService::new();
    let a = bs.borrow_book("u1", "b1");
    let b = bs.borrow_book("u2", "b2");
    let c = bs.borrow_book("u1", "b3");
    assert_eq!((a.as_str(), b.as_str(), c.as_str()), ("BR1", "BR2", "BR3"));
    for _ in 0..7 {
        bs.borrow_book("u3", "b4");
    }
    assert_eq!(bs.borrow_book("u3", "b5"), "BR11");
    let mine: Vec<&str> = bs.get_user_borrows("u1").iter().map(|r| r.book_isbn()).collect();
    assert_eq!(mine, vec!["b1", "b3"]);
    assert_eq!(bs.get_active_borrows().len(), 11);
    assert_eq!(bs.get_borrow_record("BR2").unwrap().user_id(), "u2");
    assert!(bs.get_borrow_record("BR99").is_none());
    assert!(bs.check_overdue_records().is_empty());
}
