//! The registry of library users.
use vstd::prelude::*;
use crate::models::user::User;
use crate::name_map::NameMap;

verus! {

/// What the registry keeps of a user: id, name and borrowing limit.
#[derive(Debug, Clone)]
pub struct UserRecord {
    pub id: String,
    pub name: String,
    pub borrow_limit: u32,
}

/// The model of a [`UserRecord`].
pub struct UserV {
    pub id: Seq<char>,
    pub name: Seq<char>,
    pub borrow_limit: u32,
}

impl View for UserRecord {
    type V = UserV;

    open spec fn view(&self) -> UserV {
        UserV { id: self.id@, name: self.name@, borrow_limit: self.borrow_limit }
    }
}

impl User for UserRecord {
    open spec fn user_id(&self) -> Seq<char> {
        self.id@
    }

    open spec fn user_name(&self) -> Seq<char> {
        self.name@
    }

    open spec fn limit(&self) -> u32 {
        self.borrow_limit
    }

    fn id(&self) -> (s: &str) {
        self.id.as_str()
    }

    fn name(&self) -> (s: &str) {
        self.name.as_str()
    }

    fn borrow_limit(&self) -> (n: u32) {
        self.borrow_limit
    }
}

fn copy_record(u: &UserRecord) -> (r: UserRecord)
    ensures
        r@ == u@,
{
    UserRecord { id: u.id.clone(), name: u.name.clone(), borrow_limit: u.borrow_limit }
}

/// The users, by id; adding a user under a known id replaces the earlier one.
pub struct UserService {
    users: NameMap<UserRecord>,
}

impl UserService {
    /// The users, by id.
    pub closed spec fn users(&self) -> Map<Seq<char>, UserV> {
        self.users.map().map_values(|u: UserRecord| u@)
    }

    pub closed spec fn wf(&self) -> bool {
        self.users.wf() && forall|k: Seq<char>| #[trigger] self.users.map().contains_key(k)
            ==> self.users.map()[k].id@ == k
    }

    /// The registry holds finitely many users.
    pub proof fn lemma_finite(&self)
        requires
            self.wf(),
        ensures
            self.users().dom().finite(),
    {
        self.users.lemma_keys();
        assert(self.users().dom() =~= self.users.map().dom());
    }

    /// An empty registry.
    pub fn new() -> (s: Self)
        ensures
            s.wf(),
            s.users() == Map::<Seq<char>, UserV>::empty(),
    {
        let s = UserService { users: NameMap::new() };
        assert(s.users() =~= Map::<Seq<char>, UserV>::empty());
        s
    }

    /// Registers a user under their id.
    pub fn add_user<T: User>(&mut self, user: T)
        requires
            old(self).wf(),
        ensures
            final(self).wf(),
            final(self).users() == old(self).users().insert(
                user.user_id(),
                UserV { id: user.user_id(), name: user.user_name(), borrow_limit: user.limit() },
            ),
            final(self).users().len() == old(self).users().len()
                + (if old(self).users().contains_key(user.user_id()) { 0int } else { 1int }),
    {
        proof {
            self.lemma_finite();
        }
        let ghost before = self.users.map();
        let rec = UserRecord {
            id: user.id().to_string(),
            name: user.name().to_string(),
            borrow_limit: user.borrow_limit(),
        };
        let key = user.id().to_string();
        self.users.insert(key, rec);
        assert(self.users() =~= before.map_values(|u: UserRecord| u@).insert(user.user_id(), rec@));
    }

    /// The user with that id, if any.
    pub fn get_user(&self, user_id: &str) -> (r: Option<UserRecord>)
        requires
            self.wf(),
        ensures
            match r {
                Some(u) => self.users().contains_key(user_id@) && u@ == self.users()[user_id@],
                None => !self.users().contains_key(user_id@),
            },
    {
        match self.users.get(user_id) {
            Some(u) => Some(copy_record(u)),
            None => None,
        }
    }

    /// The number of users.
    pub fn get_user_count(&self) -> (n: usize)
        requires
            self.wf(),
        ensures
            n == self.users().len(),
    {
        assert(self.users().dom() =~= self.users.map().dom());
        self.users.len()
    }

    /// All users, each once.
    pub fn get_all_users(&self) -> (r: Vec<UserRecord>)
        requires
            self.wf(),
        ensures
            r@.len() == self.users().len(),
            forall|i: int| 0 <= i < r@.len() ==> self.users().contains_key((#[trigger] r@[i]).id@)
                && self.users()[r@[i].id@] == r@[i]@,
            forall|i: int, j: int| 0 <= i < j < r@.len() ==> (#[trigger] r@[i]).id@ != (#[trigger] r@[j]).id@,
            forall|k: Seq<char>| #[trigger] self.users().contains_key(k) ==> exists|i: int|
                0 <= i < r@.len() && (#[trigger] r@[i]).id@ == k,
    {
        proof {
            self.users.lemma_keys();
        }
        let vals = self.users.value_list();
        let mut out: Vec<UserRecord> = Vec::new();
        let mut i: usize = 0;
        while i < vals.len()
            invariant
                0 <= i <= vals@.len(),
                self.wf(),
                vals@.len() == self.users.keys().len(),
                self.users.keys().no_duplicates(),
                forall|j: int| 0 <= j < vals@.len() ==> *(#[trigger] vals@[j]) == self.users.map()[self.users.keys()[j]],
                forall|j: int| 0 <= j < self.users.keys().len() ==> #[trigger] self.users.map().contains_key(self.users.keys()[j]),
                out@.len() == i,
                forall|j: int| 0 <= j < i ==> (#[trigger] out@[j])@ == vals@[j]@,
            decreases vals@.len() - i,
        {
            out.push(copy_record(vals[i]));
            i = i + 1;
        }
        assert(self.users().dom() =~= self.users.map().dom());
        assert forall|a: int| 0 <= a < out@.len() implies self.users().contains_key((#[trigger] out@[a]).id@)
            && self.users()[out@[a].id@] == out@[a]@ by {
            let ks = self.users.keys();
            assert(self.users.map().contains_key(ks[a]));
            assert(out@[a].id@ == ks[a]);
        }
        assert forall|a: int, b: int| 0 <= a < b < out@.len() implies (#[trigger] out@[a]).id@ != (#[trigger] out@[b]).id@ by {
            let ks = self.users.keys();
            assert(self.users.map().contains_key(ks[a]));
            assert(self.users.map().contains_key(ks[b]));
            assert(ks[a] != ks[b]);
            assert(out@[a].id@ == ks[a]);
            assert(out@[b].id@ == ks[b]);
        }
        assert forall|k: Seq<char>| #[trigger] self.users().contains_key(k) implies exists|i: int|
            0 <= i < out@.len() && (#[trigger] out@[i]).id@ == k by {
            let ks = self.users.keys();
            assert(self.users.map().contains_key(k));
            let i = choose|i: int| 0 <= i < ks.len() && #[trigger] ks[i] == k;
            assert(self.users.map().contains_key(ks[i]));
            assert(out@[i].id@ == k);
        }
        out
    }
}

} // verus!
