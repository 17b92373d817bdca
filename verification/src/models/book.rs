//! A book of the library's collection.
use vstd::prelude::*;
use crate::text::text;

verus! {

/// A book: its identifying data and whether it is on the shelf.
#[derive(Debug, Clone)]
pub struct Book {
    isbn: String,
    title: String,
    author: String,
    publisher: String,
    available: bool,
    description: String,
}

/// The model of a [`Book`].
pub struct BookV {
    pub isbn: Seq<char>,
    pub title: Seq<char>,
    pub author: Seq<char>,
    pub publisher: Seq<char>,
    pub available: bool,
    pub description: Seq<char>,
}

impl View for Book {
    type V = BookV;

    closed spec fn view(&self) -> BookV {
        BookV {
            isbn: self.isbn@,
            title: self.title@,
            author: self.author@,
            publisher: self.publisher@,
            available: self.available,
            description: self.description@,
        }
    }
}

/// The message of a refused loan.
pub open spec fn unavailable_msg() -> Seq<char> {
    "图书不可借"@
}

impl Book {
    /// A new book, on the shelf, with an empty description.
    pub fn new(isbn: String, title: String, author: String, publisher: String) -> (b: Self)
        ensures
            b@ == (BookV {
                isbn: isbn@,
                title: title@,
                author: author@,
                publisher: publisher@,
                available: true,
                description: Seq::empty(),
            }),
    {
        let b = Book { isbn, title, author, publisher, available: true, description: String::new() };
        assert(b@.description =~= Seq::<char>::empty());
        b
    }

    /// Lends the book: succeeds only when it is on the shelf, and takes it off.
    pub fn borrow(&mut self) -> (r: Result<(), String>)
        ensures
            r is Ok <==> old(self)@.available,
            match r {
                Ok(_) => final(self)@ == (BookV { available: false, ..old(self)@ }),
                Err(m) => m@ == unavailable_msg() && final(self)@ == old(self)@,
            },
    {
        if self.available {
            self.available = false;
            Ok(())
        } else {
            Err(text("图书不可借"))
        }
    }

    /// Puts the book back on the shelf.
    pub fn return_book(&mut self)
        ensures
            final(self)@ == (BookV { available: true, ..old(self)@ }),
    {
        self.available = true;
    }

    pub fn isbn(&self) -> (s: &str)
        ensures
            s@ == self@.isbn,
    {
        self.isbn.as_str()
    }

    pub fn title(&self) -> (s: &str)
        ensures
            s@ == self@.title,
    {
        self.title.as_str()
    }

    pub fn author(&self) -> (s: &str)
        ensures
            s@ == self@.author,
    {
        self.author.as_str()
    }

    pub fn publisher(&self) -> (s: &str)
        ensures
            s@ == self@.publisher,
    {
        self.publisher.as_str()
    }

    pub fn available(&self) -> (b: bool)
        ensures
            b == self@.available,
    {
        self.available
    }
}

/// Lending a book that is on the shelf and taking it back leaves the book as it was.
pub proof fn law_borrow_then_return(b: BookV)
    requires
        b.available,
    ensures
        (BookV { available: true, ..(BookV { available: false, ..b }) }) == b,
{
}

} // verus!
