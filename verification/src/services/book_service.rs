//! The catalogue of the library's books.
use vstd::prelude::*;
use crate::models::book::{Book, BookV};
use crate::name_map::NameMap;
use crate::text::chars_of;

verus! {

/// `k` occurs in `s` as a run of consecutive characters.
pub open spec fn has_substring(s: Seq<char>, k: Seq<char>) -> bool {
    exists|i: int| 0 <= i && i + k.len() <= s.len() && #[trigger] s.subrange(i, i + k.len()) == k
}

/// A text contains every text that occurs in it as a run: `k` is found in
/// `a + k + b` whatever `a` and `b` are, and a text longer than `s` is never found in it.
pub proof fn law_has_substring(a: Seq<char>, k: Seq<char>, b: Seq<char>, s: Seq<char>)
    ensures
        has_substring(a + k + b, k),
        k.len() > s.len() ==> !has_substring(s, k),
{
    let t = a + k + b;
    assert(t.subrange(a.len() as int, (a.len() + k.len()) as int) =~= k);
}

/// The keyword occurs in the title, the author, the ISBN or the publisher.
pub open spec fn matches_keyword(b: BookV, k: Seq<char>) -> bool {
    has_substring(b.title, k) || has_substring(b.author, k) || has_substring(b.isbn, k)
        || has_substring(b.publisher, k)
}

fn occurs_at(s: &Vec<char>, k: &Vec<char>, i: usize) -> (b: bool)
    requires
        i + k@.len() <= s@.len(),
    ensures
        b == (s@.subrange(i as int, i + k@.len()) == k@),
{
    let n = s.len();
    let mut j: usize = 0;
    while j < k.len()
        invariant
            0 <= j <= k@.len(),
            i + k@.len() <= s@.len(),
            s@.len() == n,
            forall|t: int| 0 <= t < j ==> s@[i + t] == k@[t],
        decreases k@.len() - j,
    {
        if s[i + j] != k[j] {
            assert(s@.subrange(i as int, i + k@.len())[j as int] != k@[j as int]);
            return false;
        }
        j = j + 1;
    }
    assert(s@.subrange(i as int, i + k@.len()) =~= k@);
    true
}

/// Whether `k` occurs in `s`.
pub fn contains_text(s: &str, k: &str) -> (b: bool)
    ensures
        b == has_substring(s@, k@),
{
    let sc = chars_of(s);
    let kc = chars_of(k);
    if kc.len() > sc.len() {
        return false;
    }
    let last = sc.len() - kc.len();
    let mut i: usize = 0;
    loop
        invariant_except_break
            i <= last,
            last + kc@.len() == sc@.len(),
            sc@ == s@,
            kc@ == k@,
            forall|t: int| 0 <= t < i ==> #[trigger] sc@.subrange(t, t + kc@.len()) != kc@,
        ensures
            last + kc@.len() == sc@.len(),
            sc@ == s@,
            kc@ == k@,
            forall|t: int| 0 <= t <= last ==> #[trigger] sc@.subrange(t, t + kc@.len()) != kc@,
        decreases last - i,
    {
        if occurs_at(&sc, &kc, i) {
            return true;
        }
        if i == last {
            break;
        }
        i = i + 1;
    }
    assert(!has_substring(s@, k@)) by {
        if has_substring(s@, k@) {
            let t = choose|t: int| 0 <= t && t + k@.len() <= s@.len() && #[trigger] s@.subrange(t, t + k@.len()) == k@;
            assert(sc@.subrange(t, t + kc@.len()) == kc@);
        }
    }
    false
}

/// Adding books one after another to an empty catalogue leaves one book per
/// distinct ISBN among them: when each state is the one before it with
/// `bs[i]` added, the last state's ISBNs are exactly those of `bs`, and its
/// count is the number of distinct ISBNs in `bs`.
pub proof fn law_book_count(states: Seq<BookService>, bs: Seq<BookV>)
    requires
        states.len() == bs.len() + 1,
        states[0].books() == Map::<Seq<char>, BookV>::empty(),
        forall|i: int| 0 <= i < bs.len() ==> (#[trigger] states[i + 1]).books()
            == states[i].books().insert(bs[i].isbn, bs[i]),
    ensures
        states.last().books().dom() == bs.map_values(|b: BookV| b.isbn).to_set(),
        states.last().books().len() == bs.map_values(|b: BookV| b.isbn).to_set().len(),
    decreases bs.len(),
{
    let ks = bs.map_values(|b: BookV| b.isbn);
    if bs.len() > 0 {
        let n = bs.len() - 1;
        let s2 = states.drop_last();
        let b2 = bs.drop_last();
        assert forall|i: int| 0 <= i < b2.len() implies (#[trigger] s2[i + 1]).books()
            == s2[i].books().insert(b2[i].isbn, b2[i]) by {
            assert(s2[i + 1] == states[i + 1] && s2[i] == states[i] && b2[i] == bs[i]);
        }
        law_book_count(s2, b2);
        let k2 = b2.map_values(|b: BookV| b.isbn);
        assert(s2.last() == states[n]);
        assert(states.last() == states[n + 1]);
        assert(ks =~= k2.push(bs[n].isbn));
        assert forall|k: Seq<char>| ks.to_set().contains(k) <==> k2.to_set().insert(bs[n].isbn).contains(k) by {
            if ks.contains(k) {
                let j = choose|j: int| 0 <= j < ks.len() && ks[j] == k;
                if j < n {
                    assert(k2[j] == k);
                }
            }
            if k2.contains(k) {
                let j = choose|j: int| 0 <= j < k2.len() && k2[j] == k;
                assert(ks[j] == k);
            }
            if k == bs[n].isbn {
                assert(ks[n] == k);
            }
        }
        assert(ks.to_set() =~= k2.to_set().insert(bs[n].isbn));
        assert(states.last().books().dom() =~= ks.to_set());
    } else {
        assert(ks.to_set() =~= Set::<Seq<char>>::empty());
        assert(states.last().books().dom() =~= ks.to_set());
    }
}

/// The books, by ISBN.
pub struct BookService {
    books: NameMap<Book>,
}

impl BookService {
    /// The books, by ISBN.
    pub closed spec fn books(&self) -> Map<Seq<char>, BookV> {
        self.books.map().map_values(|b: Book| b@)
    }

    /// The books in the order their ISBNs were first added.
    pub closed spec fn shelf(&self) -> Seq<BookV> {
        self.books.keys().map_values(|k: Seq<char>| self.books.map()[k]@)
    }

    pub closed spec fn wf(&self) -> bool {
        self.books.wf() && forall|k: Seq<char>| #[trigger] self.books.map().contains_key(k)
            ==> self.books.map()[k]@.isbn == k
    }

    /// The catalogue is finite, and the shelf holds each of its books once:
    /// every entry is a stored book, no two entries share an ISBN, and every
    /// stored ISBN is on it.
    pub proof fn lemma_shelf(&self)
        requires
            self.wf(),
        ensures
            self.books().dom().finite(),
            self.shelf().len() == self.books().len(),
            forall|i: int| 0 <= i < self.shelf().len() ==> self.books().contains_key((#[trigger] self.shelf()[i]).isbn)
                && self.books()[self.shelf()[i].isbn] == self.shelf()[i],
            forall|i: int, j: int| 0 <= i < j < self.shelf().len()
                ==> (#[trigger] self.shelf()[i]).isbn != (#[trigger] self.shelf()[j]).isbn,
            forall|k: Seq<char>| #[trigger] self.books().contains_key(k) ==> exists|i: int|
                0 <= i < self.shelf().len() && (#[trigger] self.shelf()[i]).isbn == k,
    {
        self.books.lemma_keys();
        assert(self.books().dom() =~= self.books.map().dom());
        assert forall|i: int| 0 <= i < self.shelf().len() implies self.books().contains_key((#[trigger] self.shelf()[i]).isbn)
            && self.books()[self.shelf()[i].isbn] == self.shelf()[i] by {
            let k = self.books.keys()[i];
            assert(self.books.map().contains_key(k));
        }
        assert forall|i: int, j: int| 0 <= i < j < self.shelf().len()
            implies (#[trigger] self.shelf()[i]).isbn != (#[trigger] self.shelf()[j]).isbn by {
            assert(self.books.map().contains_key(self.books.keys()[i]));
            assert(self.books.map().contains_key(self.books.keys()[j]));
        }
        assert forall|k: Seq<char>| #[trigger] self.books().contains_key(k) implies exists|i: int|
            0 <= i < self.shelf().len() && (#[trigger] self.shelf()[i]).isbn == k by {
            assert(self.books.map().contains_key(k));
            let i = choose|i: int| 0 <= i < self.books.keys().len() && #[trigger] self.books.keys()[i] == k;
            assert(self.shelf()[i].isbn == k);
        }
    }

    /// The books a search for `k` returns, in shelf order.
    pub open spec fn search_hits(&self, k: Seq<char>) -> Seq<BookV> {
        self.shelf().filter(|b: BookV| matches_keyword(b, k))
    }

    /// The books offered for loan, in shelf order.
    pub open spec fn available_list(&self) -> Seq<BookV> {
        self.shelf().filter(|b: BookV| b.available)
    }

    /// A keyword search finds exactly the stored books whose title, author,
    /// ISBN or publisher contains the keyword: every book it returns is
    /// stored and has the keyword in one of those four fields, and every
    /// stored book that has it in any of them is returned.
    pub proof fn law_search_books(&self, k: Seq<char>)
        requires
            self.wf(),
        ensures
            forall|b: BookV| #[trigger] self.search_hits(k).contains(b) ==> {
                &&& self.books().contains_key(b.isbn)
                &&& self.books()[b.isbn] == b
                &&& has_substring(b.title, k) || has_substring(b.author, k) || has_substring(b.isbn, k)
                    || has_substring(b.publisher, k)
            },
            forall|key: Seq<char>| #[trigger] self.books().contains_key(key) && {
                let b = self.books()[key];
                has_substring(b.title, k) || has_substring(b.author, k) || has_substring(b.isbn, k)
                    || has_substring(b.publisher, k)
            } ==> self.search_hits(k).contains(self.books()[key]),
    {
        broadcast use vstd::seq_lib::group_filter_ensures;
        self.lemma_shelf();
        let sh = self.shelf();
        let pred = |b: BookV| matches_keyword(b, k);
        assert forall|b: BookV| #[trigger] sh.filter(pred).contains(b) implies {
            &&& self.books().contains_key(b.isbn)
            &&& self.books()[b.isbn] == b
            &&& has_substring(b.title, k) || has_substring(b.author, k) || has_substring(b.isbn, k)
                || has_substring(b.publisher, k)
        } by {
            sh.lemma_filter_contains_rev(pred, b);
            let i = choose|i: int| 0 <= i < sh.len() && sh[i] == b;
            assert(sh[i] == b);
            let j = choose|j: int| 0 <= j < sh.filter(pred).len() && sh.filter(pred)[j] == b;
            sh.lemma_filter_pred(pred, j);
        }
        assert forall|key: Seq<char>| #[trigger] self.books().contains_key(key) && {
            let b = self.books()[key];
            has_substring(b.title, k) || has_substring(b.author, k) || has_substring(b.isbn, k)
                || has_substring(b.publisher, k)
        } implies sh.filter(pred).contains(self.books()[key]) by {
            let i = choose|i: int| 0 <= i < sh.len() && (#[trigger] sh[i]).isbn == key;
            assert(self.books()[sh[i].isbn] == sh[i]);
            sh.lemma_filter_contains(pred, i);
        }
    }

    /// The books offered for loan are exactly the stored books that are available.
    pub proof fn law_available_books(&self)
        requires
            self.wf(),
        ensures
            forall|b: BookV| #[trigger] self.available_list().contains(b) ==> {
                &&& self.books().contains_key(b.isbn)
                &&& self.books()[b.isbn] == b
                &&& b.available
            },
            forall|key: Seq<char>| #[trigger] self.books().contains_key(key) && self.books()[key].available
                ==> self.available_list().contains(self.books()[key]),
    {
        self.lemma_shelf();
        let sh = self.shelf();
        let pred = |b: BookV| b.available;
        assert forall|b: BookV| #[trigger] sh.filter(pred).contains(b) implies {
            &&& self.books().contains_key(b.isbn)
            &&& self.books()[b.isbn] == b
            &&& b.available
        } by {
            sh.lemma_filter_contains_rev(pred, b);
            let i = choose|i: int| 0 <= i < sh.len() && sh[i] == b;
            assert(sh[i] == b);
            let j = choose|j: int| 0 <= j < sh.filter(pred).len() && sh.filter(pred)[j] == b;
            sh.lemma_filter_pred(pred, j);
        }
        assert forall|key: Seq<char>| #[trigger] self.books().contains_key(key) && self.books()[key].available
            implies sh.filter(pred).contains(self.books()[key]) by {
            let i = choose|i: int| 0 <= i < sh.len() && (#[trigger] sh[i]).isbn == key;
            assert(self.books()[sh[i].isbn] == sh[i]);
            sh.lemma_filter_contains(pred, i);
        }
    }

    /// An empty catalogue.
    pub fn new() -> (s: Self)
        ensures
            s.wf(),
            s.books() == Map::<Seq<char>, BookV>::empty(),
            s.shelf() == Seq::<BookV>::empty(),
    {
        let s = BookService { books: NameMap::new() };
        assert(s.books() =~= Map::<Seq<char>, BookV>::empty());
        assert(s.shelf() =~= Seq::<BookV>::empty());
        s
    }

    /// Adds a book under its ISBN, replacing any book with that ISBN: a new
    /// ISBN goes to the end of the shelf, a known one keeps its place.
    pub fn add_book(&mut self, book: Book)
        requires
            old(self).wf(),
        ensures
            final(self).wf(),
            final(self).books() == old(self).books().insert(book@.isbn, book@),
            final(self).books().len() == old(self).books().len()
                + (if old(self).books().contains_key(book@.isbn) { 0int } else { 1int }),
            !old(self).books().contains_key(book@.isbn) ==> final(self).shelf() == old(self).shelf().push(book@),
            old(self).books().contains_key(book@.isbn) ==> {
                &&& final(self).shelf().len() == old(self).shelf().len()
                &&& forall|i: int| 0 <= i < old(self).shelf().len() ==> #[trigger] final(self).shelf()[i]
                    == if old(self).shelf()[i].isbn == book@.isbn { book@ } else { old(self).shelf()[i] }
            },
    {
        let ghost before = self.books.map();
        let ghost old_self = *self;
        proof {
            old_self.lemma_shelf();
        }
        let key = book.isbn().to_string();
        self.books.insert(key, book);
        assert(self.books() =~= before.map_values(|b: Book| b@).insert(book@.isbn, book@));
        proof {
            self.lemma_shelf();
            old_self.books.lemma_keys();
            let ks = old_self.books.keys();
            if before.contains_key(book@.isbn) {
                assert forall|i: int| 0 <= i < old_self.shelf().len() implies #[trigger] self.shelf()[i]
                    == if old_self.shelf()[i].isbn == book@.isbn { book@ } else { old_self.shelf()[i] } by {
                    assert(before.contains_key(ks[i]));
                }
            } else {
                assert(self.books.keys() == ks.push(book@.isbn));
                assert forall|i: int| 0 <= i < ks.len() implies #[trigger] self.shelf()[i] == old_self.shelf()[i] by {
                    assert(before.contains_key(ks[i]));
                    assert(self.books.keys()[i] == ks[i]);
                }
                assert(self.shelf()[ks.len() as int] == book@);
                assert(self.shelf() =~= old_self.shelf().push(book@));
            }
        }
    }

    /// The book with that ISBN, if any.
    pub fn get_book(&self, book_isbn: &str) -> (r: Option<&Book>)
        requires
            self.wf(),
        ensures
            match r {
                Some(b) => self.books().contains_key(book_isbn@) && b@ == self.books()[book_isbn@],
                None => !self.books().contains_key(book_isbn@),
            },
    {
        self.books.get(book_isbn)
    }

    /// The books whose title, author, ISBN or publisher contains the keyword, in shelf order.
    pub fn search_books(&self, keyword: &str) -> (r: Vec<&Book>)
        requires
            self.wf(),
        ensures
            r@.map_values(|b: &Book| b@) == self.search_hits(keyword@),
    {
        let vals = self.books.value_list();
        let ghost sh = self.shelf();
        assert(vals@.map_values(|b: &Book| b@) =~= sh);
        let mut out: Vec<&Book> = Vec::new();
        let mut i: usize = 0;
        while i < vals.len()
            invariant
                0 <= i <= vals@.len(),
                sh == vals@.map_values(|b: &Book| b@),
                out@.map_values(|b: &Book| b@) == sh.take(i as int).filter(|b: BookV| matches_keyword(b, keyword@)),
            decreases vals@.len() - i,
        {
            let b = vals[i];
            assert(sh.take(i + 1).drop_last() =~= sh.take(i as int));
            assert(sh.take(i + 1).last() == b@);
            proof {
                reveal_with_fuel(Seq::filter, 1);
            }
            let hit = contains_text(b.title(), keyword) || contains_text(b.author(), keyword)
                || contains_text(b.isbn(), keyword) || contains_text(b.publisher(), keyword);
            let ghost prev = out@;
            if hit {
                out.push(b);
                assert(out@.map_values(|b: &Book| b@) =~= prev.map_values(|b: &Book| b@).push(b@));
            }
            i = i + 1;
        }
        assert(sh.take(vals@.len() as int) =~= sh);
        out
    }

    /// The number of books.
    pub fn get_book_count(&self) -> (n: usize)
        requires
            self.wf(),
        ensures
            n == self.books().len(),
    {
        assert(self.books().dom() =~= self.books.map().dom());
        self.books.len()
    }

    /// The books on the shelf, in shelf order.
    pub fn get_available_books(&self) -> (r: Vec<&Book>)
        requires
            self.wf(),
        ensures
            r@.map_values(|b: &Book| b@) == self.available_list(),
    {
        let vals = self.books.value_list();
        let ghost sh = self.shelf();
        assert(vals@.map_values(|b: &Book| b@) =~= sh);
        let mut out: Vec<&Book> = Vec::new();
        let mut i: usize = 0;
        while i < vals.len()
            invariant
                0 <= i <= vals@.len(),
                sh == vals@.map_values(|b: &Book| b@),
                out@.map_values(|b: &Book| b@) == sh.take(i as int).filter(|b: BookV| b.available),
            decreases vals@.len() - i,
        {
            let b = vals[i];
            assert(sh.take(i + 1).drop_last() =~= sh.take(i as int));
            assert(sh.take(i + 1).last() == b@);
            proof {
                reveal_with_fuel(Seq::filter, 1);
            }
            let ghost prev = out@;
            if b.available() {
                out.push(b);
                assert(out@.map_values(|b: &Book| b@) =~= prev.map_values(|b: &Book| b@).push(b@));
            }
            i = i + 1;
        }
        assert(sh.take(vals@.len() as int) =~= sh);
        out
    }
}

} // verus!
