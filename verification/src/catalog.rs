//! The catalog: the column definitions of each table, by table name.
use vstd::prelude::*;
use crate::name_map::NameMap;

verus! {

/// The model of a list of column definitions: (name, type) pairs.
pub open spec fn columns_view(c: Seq<(String, String)>) -> Seq<(Seq<char>, Seq<char>)> {
    c.map_values(|p: (String, String)| (p.0@, p.1@))
}

/// Makes an independent copy of a list of column definitions.
pub fn copy_columns(c: &Vec<(String, String)>) -> (out: Vec<(String, String)>)
    ensures
        columns_view(out@) == columns_view(c@),
{
    let mut out: Vec<(String, String)> = Vec::new();
    let mut i: usize = 0;
    while i < c.len()
        invariant
            0 <= i <= c@.len(),
            out@.len() == i,
            forall|j: int| 0 <= j < i ==> (#[trigger] out@[j]).0@ == c@[j].0@ && out@[j].1@ == c@[j].1@,
        decreases c@.len() - i,
    {
        let (n, t) = (c[i].0.clone(), c[i].1.clone());
        out.push((n, t));
        i = i + 1;
    }
    assert(columns_view(out@) =~= columns_view(c@));
    out
}

/// Table metadata: the column definitions of each table.
pub struct Catalog {
    tables: NameMap<Vec<(String, String)>>,
}

impl Catalog {
    /// The column definitions of each table, by table name.
    pub closed spec fn view_map(&self) -> Map<Seq<char>, Seq<(Seq<char>, Seq<char>)>> {
        self.tables.map().map_values(|c: Vec<(String, String)>| columns_view(c@))
    }

    /// The names are distinct.
    pub closed spec fn wf(&self) -> bool {
        self.tables.wf()
    }

    /// An empty catalog.
    pub fn new() -> (c: Self)
        ensures
            c.wf(),
            c.view_map() == Map::<Seq<char>, Seq<(Seq<char>, Seq<char>)>>::empty(),
    {
        let c = Catalog { tables: NameMap::new() };
        assert(c.view_map() =~= Map::<Seq<char>, Seq<(Seq<char>, Seq<char>)>>::empty());
        c
    }

    /// Records a table's columns, replacing any earlier record under that name.
    pub fn create_table(&mut self, name: &str, columns: Vec<(String, String)>)
        requires
            old(self).wf(),
        ensures
            final(self).wf(),
            final(self).view_map() == old(self).view_map().insert(name@, columns_view(columns@)),
    {
        let ghost before = self.tables.map();
        self.tables.insert(name.to_string(), columns);
        assert(self.view_map() =~= before.map_values(|c: Vec<(String, String)>| columns_view(c@)).insert(
            name@,
            columns_view(columns@),
        ));
    }

    /// Forgets a table; says whether there was one.
    pub fn drop_table(&mut self, name: &str) -> (b: bool)
        requires
            old(self).wf(),
        ensures
            final(self).wf(),
            b == old(self).view_map().contains_key(name@),
            final(self).view_map() == old(self).view_map().remove(name@),
    {
        let ghost before = self.tables.map();
        let r = self.tables.remove(name);
        assert(self.view_map() =~= before.map_values(|c: Vec<(String, String)>| columns_view(c@)).remove(name@));
        r.is_some()
    }

    /// A copy of a table's columns, if the table is known.
    pub fn table(&self, name: &str) -> (r: Option<Vec<(String, String)>>)
        requires
            self.wf(),
        ensures
            match r {
                Some(c) => self.view_map().contains_key(name@) && columns_view(c@) == self.view_map()[name@],
                None => !self.view_map().contains_key(name@),
            },
    {
        match self.tables.get(name) {
            Some(c) => Some(copy_columns(c)),
            None => None,
        }
    }

    /// The names of all known tables, each once.
    pub fn tables(&self) -> (r: Vec<String>)
        requires
            self.wf(),
        ensures
            r@.map_values(|s: String| s@).no_duplicates(),
            r@.map_values(|s: String| s@).to_set() == self.view_map().dom(),
    {
        proof {
            self.tables.lemma_keys();
        }
        let r = self.tables.key_list();
        assert(self.view_map().dom() =~= self.tables.map().dom());
        r
    }
}

impl Default for Catalog {
    fn default() -> (c: Self)
        ensures
            c.wf(),
            c.view_map() == Map::<Seq<char>, Seq<(Seq<char>, Seq<char>)>>::empty(),
    {
        Catalog::new()
    }
}

/// A table recorded in the catalog is read back with the columns it was
/// recorded with, other tables are untouched, and once dropped it is gone.
pub proof fn law_catalog_round_trip(
    before: Catalog,
    created: Catalog,
    dropped: Catalog,
    name: Seq<char>,
    cols: Seq<(Seq<char>, Seq<char>)>,
)
    requires
        created.view_map() == before.view_map().insert(name, cols),
        dropped.view_map() == created.view_map().remove(name),
    ensures
        created.view_map().contains_key(name),
        created.view_map()[name] == cols,
        forall|n: Seq<char>| n != name ==> #[trigger] created.view_map().contains_key(n) == before.view_map().contains_key(n),
        !dropped.view_map().contains_key(name),
        dropped.view_map() == before.view_map().remove(name),
{
    assert(dropped.view_map() =~= before.view_map().remove(name));
}

} // verus!
