//! Memoised table schemas: ordered column names with their parallel type
//! names. The store's catalogue is probed outside the library; the answers
//! are seeded here and never invalidated during a run.

use vstd::prelude::*;
use crate::operation::view_string_seq;
use crate::strutil::str_eq;

verus! {

/// One table's schema: ordered column names and the parallel type names.
pub struct TableSchema {
    pub table: String,
    pub columns: Vec<String>,
    pub types: Vec<String>,
}

/// Mathematical image of one schema entry.
#[verifier::ext_equal]
pub ghost struct SchemaModel {
    pub columns: Seq<Seq<char>>,
    pub types: Seq<Seq<char>>,
}

impl View for TableSchema {
    type V = SchemaModel;

    open spec fn view(&self) -> SchemaModel {
        SchemaModel {
            columns: view_string_seq(self.columns@),
            types: view_string_seq(self.types@),
        }
    }
}

pub open spec fn entries_view(s: Seq<TableSchema>) -> Map<Seq<char>, SchemaModel>
    decreases s.len(),
{
    if s.len() == 0 {
        Map::empty()
    } else {
        entries_view(s.drop_last()).insert(s.last().table@, s.last()@)
    }
}

/// A table-name-keyed cache of schemas, with distinct keys.
pub struct SchemaCache {
    pub entries: Vec<TableSchema>,
}

impl SchemaCache {
    pub open spec fn wf(&self) -> bool {
        forall|i: int, j: int|
            0 <= i < j < self.entries@.len() ==> self.entries@[i].table@ != self.entries@[j].table@
    }

    pub open spec fn view(&self) -> Map<Seq<char>, SchemaModel> {
        entries_view(self.entries@)
    }

    pub fn new() -> (r: SchemaCache)
        ensures
            r.wf(),
            r@ == Map::<Seq<char>, SchemaModel>::empty(),
    {
        SchemaCache { entries: Vec::new() }
    }

    /// The position of `table` in the entry list, if it is known.
    fn position_of(&self, table: &str) -> (r: Option<usize>)
        ensures
            match r {
                Some(i) => i < self.entries@.len() && self.entries@[i as int].table@ == table@,
                None => forall|i: int|
                    0 <= i < self.entries@.len() ==> self.entries@[i].table@ != table@,
            },
    {
        let n = self.entries.len();
        let mut i: usize = 0;
        while i < n
            invariant
                n == self.entries@.len(),
                i <= n,
                forall|j: int| 0 <= j < i ==> self.entries@[j].table@ != table@,
            decreases n - i,
        {
            if str_eq(self.entries[i].table.as_str(), table) {
                return Some(i);
            }
            i += 1;
        }
        None
    }

    pub fn contains(&self, table: &str) -> (r: bool)
        requires
            self.wf(),
        ensures
            r == self@.contains_key(table@),
    {
        let r = self.position_of(table);
        proof {
            lemma_entries_view_characterises(self.entries@, table@);
        }
        r.is_some()
    }

    /// Record a schema for a table not seen before; a known table is left as
    /// it was first recorded.
    pub fn insert(&mut self, table: String, columns: Vec<String>, types: Vec<String>)
        requires
            old(self).wf(),
        ensures
            final(self).wf(),
            final(self)@ == if old(self)@.contains_key(table@) {
                old(self)@
            } else {
                old(self)@.insert(
                    table@,
                    SchemaModel {
                        columns: view_string_seq(columns@),
                        types: view_string_seq(types@),
                    },
                )
            },
    {
        proof {
            lemma_entries_view_characterises(self.entries@, table@);
        }
        if self.position_of(&table).is_some() {
            return ;
        }
        let entry = TableSchema { table, columns, types };
        let ghost pre = self.entries@;
        self.entries.push(entry);
        proof {
            assert(self.entries@.drop_last() =~= pre);
            assert forall|i: int, j: int|
                0 <= i < j < self.entries@.len() implies self.entries@[i].table@
                != self.entries@[j].table@ by {
                if j < pre.len() {
                } else {
                    lemma_entries_view_characterises(pre, self.entries@[j].table@);
                }
            }
        }
    }

    /// The recorded columns and types of `table`, if known.
    pub fn get(&self, table: &str) -> (r: Option<(Vec<String>, Vec<String>)>)
        requires
            self.wf(),
        ensures
            match r {
                Some(p) => self@.contains_key(table@) && self@[table@] == (SchemaModel {
                    columns: view_string_seq(p.0@),
                    types: view_string_seq(p.1@),
                }),
                None => !self@.contains_key(table@),
            },
    {
        proof {
            lemma_entries_view_characterises(self.entries@, table@);
        }
        match self.position_of(table) {
            Some(i) => {
                proof {
                    lemma_entries_view_at(self.entries@, i as int);
                }
                let e = &self.entries[i];
                let cols = clone_strings(&e.columns);
                let tys = clone_strings(&e.types);
                Some((cols, tys))
            },
            None => None,
        }
    }
}

fn clone_strings(v: &Vec<String>) -> (r: Vec<String>)
    ensures
        view_string_seq(r@) == view_string_seq(v@),
        r@.len() == v@.len(),
{
    let mut r: Vec<String> = Vec::new();
    let mut i: usize = 0;
    while i < v.len()
        invariant
            i <= v@.len(),
            r@.len() == i,
            forall|j: int| 0 <= j < i ==> r@[j]@ == v@[j]@,
        decreases v@.len() - i,
    {
        r.push(v[i].clone());
        i += 1;
    }
    proof {
        assert(view_string_seq(r@) =~= view_string_seq(v@));
    }
    r
}

/// A table name is a key of the cache's view exactly when some entry holds it.
proof fn lemma_entries_view_characterises(s: Seq<TableSchema>, t: Seq<char>)
    ensures
        entries_view(s).contains_key(t) <==> exists|i: int| 0 <= i < s.len() && s[i].table@ == t,
    decreases s.len(),
{
    if s.len() > 0 {
        lemma_entries_view_characterises(s.drop_last(), t);
        if entries_view(s).contains_key(t) {
            if s.last().table@ != t {
                let i = choose|i: int| 0 <= i < s.drop_last().len() && s.drop_last()[i].table@ == t;
                assert(s[i].table@ == t);
            }
        }
        if exists|i: int| 0 <= i < s.len() && s[i].table@ == t {
            let i = choose|i: int| 0 <= i < s.len() && s[i].table@ == t;
            if i < s.len() - 1 {
                assert(s.drop_last()[i].table@ == t);
            }
        }
    }
}

/// With distinct keys, the view maps each entry's name to that entry's model.
proof fn lemma_entries_view_at(s: Seq<TableSchema>, i: int)
    requires
        0 <= i < s.len(),
        forall|a: int, b: int| 0 <= a < b < s.len() ==> s[a].table@ != s[b].table@,
    ensures
        entries_view(s).contains_key(s[i].table@),
        entries_view(s)[s[i].table@] == s[i]@,
    decreases s.len(),
{
    if i == s.len() - 1 {
    } else {
        assert(s.drop_last()[i] == s[i]);
        lemma_entries_view_at(s.drop_last(), i);
        assert(s.last().table@ != s[i].table@);
    }
}

} // verus!
