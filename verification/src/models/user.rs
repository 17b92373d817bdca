//! Library users: students and teachers.
use vstd::prelude::*;

verus! {

/// A library user: an id, a name and how many books they may hold at once.
pub trait User {
    /// The user's id.
    spec fn user_id(&self) -> Seq<char>;

    /// The user's name.
    spec fn user_name(&self) -> Seq<char>;

    /// How many books the user may hold at once.
    spec fn limit(&self) -> u32;

    fn id(&self) -> (s: &str)
        ensures
            s@ == self.user_id(),
    ;

    fn name(&self) -> (s: &str)
        ensures
            s@ == self.user_name(),
    ;

    fn borrow_limit(&self) -> (n: u32)
        ensures
            n == self.limit(),
    ;
}

/// A student, who may hold five books.
#[derive(Debug, Clone)]
pub struct Student {
    pub student_id: String,
    pub name: String,
}

impl Student {
    pub fn new(student_id: String, name: String) -> (s: Self)
        ensures
            s.student_id@ == student_id@,
            s.name@ == name@,
    {
        Student { student_id, name }
    }
}

impl User for Student {
    open spec fn user_id(&self) -> Seq<char> {
        self.student_id@
    }

    open spec fn user_name(&self) -> Seq<char> {
        self.name@
    }

    open spec fn limit(&self) -> u32 {
        5
    }

    fn id(&self) -> (s: &str) {
        self.student_id.as_str()
    }

    fn name(&self) -> (s: &str) {
        self.name.as_str()
    }

    fn borrow_limit(&self) -> (n: u32) {
        5
    }
}

/// A teacher, who may hold ten books.
#[derive(Debug, Clone)]
pub struct Teacher {
    pub teacher_id: String,
    pub name: String,
}

impl Teacher {
    pub fn new(teacher_id: String, name: String) -> (t: Self)
        ensures
            t.teacher_id@ == teacher_id@,
            t.name@ == name@,
    {
        Teacher { teacher_id, name }
    }
}

impl User for Teacher {
    open spec fn user_id(&self) -> Seq<char> {
        self.teacher_id@
    }

    open spec fn user_name(&self) -> Seq<char> {
        self.name@
    }

    open spec fn limit(&self) -> u32 {
        10
    }

    fn id(&self) -> (s: &str) {
        self.teacher_id.as_str()
    }

    fn name(&self) -> (s: &str) {
        self.name.as_str()
    }

    fn borrow_limit(&self) -> (n: u32) {
        10
    }
}

} // verus!
