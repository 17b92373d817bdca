//! The register of loans.
use vstd::prelude::*;
use crate::models::borrow_record::{loan_days, loan_start, overdue, today, BorrowRecord, LoanV};
use crate::name_map::NameMap;
use crate::text::{decimal, push_decimal, text};

verus! {

proof fn lemma_decimal_len(n: nat)
    ensures
        decimal(n).len() >= 1,
        n >= 10 ==> decimal(n).len() >= 2,
    decreases n,
{
    if n >= 10 {
        lemma_decimal_len(n / 10);
    }
}

/// Different numbers have different numerals.
pub proof fn lemma_decimal_injective(n: nat, m: nat)
    requires
        decimal(n) == decimal(m),
    ensures
        n == m,
    decreases n,
{
    lemma_decimal_len(n);
    lemma_decimal_len(m);
    let dn = decimal(n);
    let dm = decimal(m);
    assert(dn.last() == dm.last());
    if n >= 10 && m >= 10 {
        assert(dn.drop_last() =~= decimal(n / 10));
        assert(dm.drop_last() =~= decimal(m / 10));
        lemma_decimal_injective(n / 10, m / 10);
        assert(((48 + (n % 10) as int) as char) as int == 48 + n % 10);
        assert(((48 + (m % 10) as int) as char) as int == 48 + m % 10);
    } else if n < 10 && m < 10 {
        assert(((48 + n as int) as char) as int == 48 + n);
        assert(((48 + m as int) as char) as int == 48 + m);
    }
}

/// The id of the loan numbered `n`.
pub open spec fn loan_id(n: nat) -> Seq<char> {
    "BR"@ + decimal(n)
}

/// Loans with different numbers get different ids.
pub proof fn law_loan_ids_distinct(n: nat, m: nat)
    requires
        n != m,
    ensures
        loan_id(n) != loan_id(m),
{
    reveal_strlit("BR");
    if loan_id(n) == loan_id(m) {
        assert(loan_id(n).skip(2) =~= decimal(n));
        assert(loan_id(m).skip(2) =~= decimal(m));
        lemma_decimal_injective(n, m);
    }
}

/// The loans, by id; ids are `BR1`, `BR2`, ... in the order loans are made.
pub struct BorrowService {
    records: NameMap<BorrowRecord>,
    next_id: u32,
}

impl BorrowService {
    /// The loans, by id.
    pub closed spec fn records(&self) -> Map<Seq<char>, LoanV> {
        self.records.map().map_values(|r: BorrowRecord| r@)
    }

    /// The loans in the order they were made.
    pub closed spec fn loans(&self) -> Seq<LoanV> {
        self.records.keys().map_values(|k: Seq<char>| self.records.map()[k]@)
    }

    /// The number the next loan gets.
    pub closed spec fn next_number(&self) -> u32 {
        self.next_id
    }

    /// The loans are numbered from 1 up to the next number, in the order
    /// they were made, and each is filed under its own id.
    pub closed spec fn wf(&self) -> bool {
        &&& self.records.wf()
        &&& self.next_id >= 1
        &&& self.records.keys() == Seq::new((self.next_id - 1) as nat, |i: int| loan_id((i + 1) as nat))
        &&& forall|k: Seq<char>| #[trigger] self.records.map().contains_key(k) ==> self.records.map()[k]@.id == k
    }

    /// The loans made so far are those numbered 1 up to the next number, in
    /// that order, each once; every stored loan is among them.
    pub proof fn lemma_loans(&self)
        requires
            self.wf(),
        ensures
            self.loans().len() == self.next_number() - 1,
            forall|i: int| 0 <= i < self.loans().len() ==> {
                &&& (#[trigger] self.loans()[i]).id == loan_id((i + 1) as nat)
                &&& self.records().contains_key(self.loans()[i].id)
                &&& self.records()[self.loans()[i].id] == self.loans()[i]
            },
            forall|k: Seq<char>| #[trigger] self.records().contains_key(k) ==> exists|i: int|
                0 <= i < self.loans().len() && (#[trigger] self.loans()[i]).id == k,
    {
        self.records.lemma_keys();
        let ks = self.records.keys();
        assert forall|i: int| 0 <= i < self.loans().len() implies {
            &&& (#[trigger] self.loans()[i]).id == loan_id((i + 1) as nat)
            &&& self.records().contains_key(self.loans()[i].id)
            &&& self.records()[self.loans()[i].id] == self.loans()[i]
        } by {
            assert(self.records.map().contains_key(ks[i]));
        }
        assert forall|k: Seq<char>| #[trigger] self.records().contains_key(k) implies exists|i: int|
            0 <= i < self.loans().len() && (#[trigger] self.loans()[i]).id == k by {
            assert(self.records.map().contains_key(k));
            let i = choose|i: int| 0 <= i < ks.len() && #[trigger] ks[i] == k;
            assert(self.records.map().contains_key(ks[i]));
            assert(self.loans()[i].id == k);
        }
    }

    /// The loans of user `u`, in the order they were made.
    pub open spec fn user_loans(&self, u: Seq<char>) -> Seq<LoanV> {
        self.loans().filter(|l: LoanV| l.user_id == u)
    }

    /// The loans not yet returned, in the order they were made.
    pub open spec fn active_loans(&self) -> Seq<LoanV> {
        self.loans().filter(|l: LoanV| l.return_date is None)
    }

    /// The overdue loans, in the order they were made.
    pub open spec fn overdue_loans(&self) -> Seq<LoanV> {
        self.loans().filter(|l: LoanV| overdue(l))
    }

    /// A user's loans are exactly the stored loans made to that user.
    pub proof fn law_user_loans(&self, u: Seq<char>)
        requires
            self.wf(),
        ensures
            forall|l: LoanV| #[trigger] self.user_loans(u).contains(l)
                ==> self.records().contains_key(l.id) && self.records()[l.id] == l && l.user_id == u,
            forall|k: Seq<char>| #[trigger] self.records().contains_key(k) && self.records()[k].user_id == u
                ==> self.user_loans(u).contains(self.records()[k]),
    {
        self.lemma_loans();
        let ls = self.loans();
        let pred = |l: LoanV| l.user_id == u;
        assert forall|l: LoanV| #[trigger] ls.filter(pred).contains(l)
            implies self.records().contains_key(l.id) && self.records()[l.id] == l && l.user_id == u by {
            ls.lemma_filter_contains_rev(pred, l);
            let i = choose|i: int| 0 <= i < ls.len() && ls[i] == l;
            assert(ls[i] == l);
            let j = choose|j: int| 0 <= j < ls.filter(pred).len() && ls.filter(pred)[j] == l;
            ls.lemma_filter_pred(pred, j);
        }
        assert forall|k: Seq<char>| #[trigger] self.records().contains_key(k) && self.records()[k].user_id == u
            implies ls.filter(pred).contains(self.records()[k]) by {
            let i = choose|i: int| 0 <= i < ls.len() && (#[trigger] ls[i]).id == k;
            assert(self.records()[ls[i].id] == ls[i]);
            ls.lemma_filter_contains(pred, i);
        }
    }

    /// The active loans are exactly the stored loans whose book has not come back.
    pub proof fn law_active_loans(&self)
        requires
            self.wf(),
        ensures
            forall|l: LoanV| #[trigger] self.active_loans().contains(l)
                ==> self.records().contains_key(l.id) && self.records()[l.id] == l && l.return_date is None,
            forall|k: Seq<char>| #[trigger] self.records().contains_key(k) && self.records()[k].return_date is None
                ==> self.active_loans().contains(self.records()[k]),
    {
        self.lemma_loans();
        let ls = self.loans();
        let pred = |l: LoanV| l.return_date is None;
        assert forall|l: LoanV| #[trigger] ls.filter(pred).contains(l)
            implies self.records().contains_key(l.id) && self.records()[l.id] == l && l.return_date is None by {
            ls.lemma_filter_contains_rev(pred, l);
            let i = choose|i: int| 0 <= i < ls.len() && ls[i] == l;
            assert(ls[i] == l);
            let j = choose|j: int| 0 <= j < ls.filter(pred).len() && ls.filter(pred)[j] == l;
            ls.lemma_filter_pred(pred, j);
        }
        assert forall|k: Seq<char>| #[trigger] self.records().contains_key(k) && self.records()[k].return_date is None
            implies ls.filter(pred).contains(self.records()[k]) by {
            let i = choose|i: int| 0 <= i < ls.len() && (#[trigger] ls[i]).id == k;
            assert(self.records()[ls[i].id] == ls[i]);
            ls.lemma_filter_contains(pred, i);
        }
    }

    /// The overdue loans are exactly the stored loans due before today whose
    /// book has not come back.
    pub proof fn law_overdue_loans(&self)
        requires
            self.wf(),
        ensures
            forall|l: LoanV| #[trigger] self.overdue_loans().contains(l) ==> {
                &&& self.records().contains_key(l.id) && self.records()[l.id] == l
                &&& today() > l.due_date && l.return_date is None
            },
            forall|k: Seq<char>| #[trigger] self.records().contains_key(k) && today() > self.records()[k].due_date
                && self.records()[k].return_date is None
                ==> self.overdue_loans().contains(self.records()[k]),
    {
        self.lemma_loans();
        let ls = self.loans();
        let pred = |l: LoanV| overdue(l);
        assert forall|l: LoanV| #[trigger] ls.filter(pred).contains(l) implies {
            &&& self.records().contains_key(l.id) && self.records()[l.id] == l
            &&& today() > l.due_date && l.return_date is None
        } by {
            ls.lemma_filter_contains_rev(pred, l);
            let i = choose|i: int| 0 <= i < ls.len() && ls[i] == l;
            assert(ls[i] == l);
            let j = choose|j: int| 0 <= j < ls.filter(pred).len() && ls.filter(pred)[j] == l;
            ls.lemma_filter_pred(pred, j);
        }
        assert forall|k: Seq<char>| #[trigger] self.records().contains_key(k) && today() > self.records()[k].due_date
            && self.records()[k].return_date is None
            implies ls.filter(pred).contains(self.records()[k]) by {
            let i = choose|i: int| 0 <= i < ls.len() && (#[trigger] ls[i]).id == k;
            assert(self.records()[ls[i].id] == ls[i]);
            ls.lemma_filter_contains(pred, i);
        }
    }

    /// An empty register; the first loan is numbered 1.
    pub fn new() -> (s: Self)
        ensures
            s.wf(),
            s.records() == Map::<Seq<char>, LoanV>::empty(),
            s.next_number() == 1,
            s.loans() == Seq::<LoanV>::empty(),
    {
        let s = BorrowService { records: NameMap::new(), next_id: 1 };
        assert(s.records() =~= Map::<Seq<char>, LoanV>::empty());
        assert(s.records.keys() =~= Seq::new(0nat, |i: int| loan_id((i + 1) as nat)));
        assert(s.loans() =~= Seq::<LoanV>::empty());
        s
    }

    /// Records a loan of a book to a user, made today, and returns its id.
    pub fn borrow_book(&mut self, user_id: &str, book_isbn: &str) -> (id: String)
        requires
            old(self).wf(),
            old(self).next_number() < u32::MAX,
        ensures
            final(self).wf(),
            id@ == loan_id(old(self).next_number() as nat),
            final(self).next_number() == old(self).next_number() + 1,
            final(self).records() == old(self).records().insert(
                id@,
                LoanV {
                    id: id@,
                    user_id: user_id@,
                    book_isbn: book_isbn@,
                    borrow_date: loan_start(),
                    due_date: loan_start() + loan_days(),
                    return_date: None,
                },
            ),
            final(self).loans() == old(self).loans().push(
                LoanV {
                    id: id@,
                    user_id: user_id@,
                    book_isbn: book_isbn@,
                    borrow_date: loan_start(),
                    due_date: loan_start() + loan_days(),
                    return_date: None,
                },
            ),
    {
        let ghost before = self.records.map();
        let ghost old_self = *self;
        let ghost ks = self.records.keys();
        let ghost n = self.next_id;
        let mut record_id = text("BR");
        proof {
            reveal_strlit("BR");
        }
        push_decimal(&mut record_id, self.next_id as u64);
        proof {
            self.records.lemma_keys();
            assert(!before.contains_key(record_id@)) by {
                if before.contains_key(record_id@) {
                    let i = choose|i: int| 0 <= i < ks.len() && #[trigger] ks[i] == record_id@;
                    law_loan_ids_distinct((i + 1) as nat, n as nat);
                }
            }
        }
        self.next_id = self.next_id + 1;
        let record = BorrowRecord::new(record_id.clone(), user_id.to_string(), book_isbn.to_string());
        self.records.insert(record_id.clone(), record);
        assert(self.records() =~= before.map_values(|r: BorrowRecord| r@).insert(record_id@, record@));
        proof {
            assert(self.records.keys() == ks.push(record_id@));
            assert(self.records.keys() =~= Seq::new((self.next_id - 1) as nat, |i: int| loan_id((i + 1) as nat)));
            assert forall|i: int| 0 <= i < ks.len() implies #[trigger] self.loans()[i] == old_self.loans()[i] by {
                assert(before.contains_key(ks[i]));
            }
            assert(self.loans() =~= old_self.loans().push(record@));
        }
        record_id
    }

    /// The loan with that id, if any.
    pub fn get_borrow_record(&self, record_id: &str) -> (r: Option<&BorrowRecord>)
        requires
            self.wf(),
        ensures
            match r {
                Some(x) => self.records().contains_key(record_id@) && x@ == self.records()[record_id@],
                None => !self.records().contains_key(record_id@),
            },
    {
        self.records.get(record_id)
    }

    /// The loans of a user, in the order they were made.
    pub fn get_user_borrows(&self, user_id: &str) -> (r: Vec<&BorrowRecord>)
        requires
            self.wf(),
        ensures
            r@.map_values(|x: &BorrowRecord| x@) == self.user_loans(user_id@),
    {
        let vals = self.records.value_list();
        let ghost ls = self.loans();
        assert(vals@.map_values(|x: &BorrowRecord| x@) =~= ls);
        let mut out: Vec<&BorrowRecord> = Vec::new();
        let mut i: usize = 0;
        while i < vals.len()
            invariant
                0 <= i <= vals@.len(),
                ls == vals@.map_values(|x: &BorrowRecord| x@),
                out@.map_values(|x: &BorrowRecord| x@) == ls.take(i as int).filter(|l: LoanV| l.user_id == user_id@),
            decreases vals@.len() - i,
        {
            let x = vals[i];
            assert(ls.take(i + 1).drop_last() =~= ls.take(i as int));
            assert(ls.take(i + 1).last() == x@);
            proof {
                reveal_with_fuel(Seq::filter, 1);
            }
            let ghost prev = out@;
            if crate::bytes::str_eq(x.user_id(), user_id) {
                out.push(x);
                assert(out@.map_values(|x: &BorrowRecord| x@) =~= prev.map_values(|x: &BorrowRecord| x@).push(x@));
            }
            i = i + 1;
        }
        assert(ls.take(vals@.len() as int) =~= ls);
        out
    }

    /// The loans not yet returned, in the order they were made.
    pub fn get_active_borrows(&self) -> (r: Vec<&BorrowRecord>)
        requires
            self.wf(),
        ensures
            r@.map_values(|x: &BorrowRecord| x@) == self.active_loans(),
    {
        let vals = self.records.value_list();
        let ghost ls = self.loans();
        assert(vals@.map_values(|x: &BorrowRecord| x@) =~= ls);
        let mut out: Vec<&BorrowRecord> = Vec::new();
        let mut i: usize = 0;
        while i < vals.len()
            invariant
                0 <= i <= vals@.len(),
                ls == vals@.map_values(|x: &BorrowRecord| x@),
                out@.map_values(|x: &BorrowRecord| x@) == ls.take(i as int).filter(|l: LoanV| l.return_date is None),
            decreases vals@.len() - i,
        {
            let x = vals[i];
            assert(ls.take(i + 1).drop_last() =~= ls.take(i as int));
            assert(ls.take(i + 1).last() == x@);
            proof {
                reveal_with_fuel(Seq::filter, 1);
            }
            let ghost prev = out@;
            if x.return_date().is_none() {
                out.push(x);
                assert(out@.map_values(|x: &BorrowRecord| x@) =~= prev.map_values(|x: &BorrowRecord| x@).push(x@));
            }
            i = i + 1;
        }
        assert(ls.take(vals@.len() as int) =~= ls);
        out
    }

    /// The ids of the overdue loans, in the order they were made: what the
    /// check reports.
    pub fn check_overdue_records(&self) -> (r: Vec<String>)
        requires
            self.wf(),
        ensures
            r@.map_values(|s: String| s@) == self.overdue_loans().map_values(|l: LoanV| l.id),
    {
        let vals = self.records.value_list();
        let ghost ls = self.loans();
        assert(vals@.map_values(|x: &BorrowRecord| x@) =~= ls);
        let mut out: Vec<String> = Vec::new();
        let mut i: usize = 0;
        while i < vals.len()
            invariant
                0 <= i <= vals@.len(),
                ls == vals@.map_values(|x: &BorrowRecord| x@),
                out@.map_values(|s: String| s@) == ls.take(i as int).filter(|l: LoanV| overdue(l)).map_values(|l: LoanV| l.id),
            decreases vals@.len() - i,
        {
            let x = vals[i];
            assert(ls.take(i + 1).drop_last() =~= ls.take(i as int));
            assert(ls.take(i + 1).last() == x@);
            proof {
                reveal_with_fuel(Seq::filter, 1);
            }
            let ghost prev = out@;
            let ghost prevf = ls.take(i as int).filter(|l: LoanV| overdue(l));
            if x.is_overdue() {
                out.push(x.id.clone());
                assert(ls.take(i + 1).filter(|l: LoanV| overdue(l)) == prevf.push(x@));
                assert(prevf.push(x@).map_values(|l: LoanV| l.id) =~= prevf.map_values(|l: LoanV| l.id).push(x@.id));
                assert(out@.map_values(|s: String| s@) =~= prev.map_values(|s: String| s@).push(x@.id));
            }
            i = i + 1;
        }
        assert(ls.take(vals@.len() as int) =~= ls);
        out
    }
}

} // verus!
