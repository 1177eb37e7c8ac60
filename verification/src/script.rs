//! User scripts over the navigable snapshot, and the machinery of the
//! last-non-null analysis: per-step row accumulation keyed by row id, and
//! the tabular results it yields. The store queries themselves are run by
//! the script's driver, which hands each step's rows back here.

use vstd::prelude::*;
use vstd::pervasive::VecAdditionalExecFns;
use crate::manager::SnapshotManager;
use crate::operation::view_string_seq;
use crate::strutil::{dec_str_i64, fmt_i64};

verus! {

/// One row of a script's tabular output.
#[derive(Debug, Clone)]
pub struct ScriptResult {
    pub columns: Vec<String>,
    pub values: Vec<String>,
}

/// A user-written analysis that walks the snapshot. The caller owns the
/// store and performs each operation the walk hands out against it.
pub trait PensieveScript {
    fn execute(&mut self, manager: &mut SnapshotManager) -> Result<Vec<ScriptResult>, String>;

    fn headers(&self) -> Vec<String>;
}

/// The map an entry list stands for: row id to last seen value.
pub open spec fn pairs_map(s: Seq<(i64, String)>) -> Map<i64, Seq<char>>
    decreases s.len(),
{
    if s.len() == 0 {
        Map::empty()
    } else {
        pairs_map(s.drop_last()).insert(s.last().0, s.last().1@)
    }
}

/// Replacing the entry that holds a key updates the map it stands for.
proof fn lemma_pairs_map_update(s: Seq<(i64, String)>, i: int, p: (i64, String))
    requires
        0 <= i < s.len(),
        s[i].0 == p.0,
        forall|a: int| 0 <= a < s.len() && a != i ==> s[a].0 != p.0,
    ensures
        pairs_map(s.update(i, p)) == pairs_map(s).insert(p.0, p.1@),
    decreases s.len(),
{
    if i == s.len() - 1 {
        assert(s.update(i, p).drop_last() =~= s.drop_last());
        assert(s.update(i, p).last() == p);
        assert(pairs_map(s.update(i, p)) =~= pairs_map(s).insert(p.0, p.1@));
    } else {
        assert(s.update(i, p).drop_last() =~= s.drop_last().update(i, p));
        assert forall|a: int|
            0 <= a < s.drop_last().len() && a != i implies s.drop_last()[a].0 != p.0 by {
            assert(s.drop_last()[a] == s[a]);
        }
        lemma_pairs_map_update(s.drop_last(), i, p);
        assert(s.last().0 != p.0);
        assert(pairs_map(s.update(i, p)) =~= pairs_map(s).insert(p.0, p.1@));
    }
}

/// Inserting an entry with a fresh key inserts it into the map.
proof fn lemma_pairs_map_insert(s: Seq<(i64, String)>, i: int, p: (i64, String))
    requires
        0 <= i <= s.len(),
        forall|a: int| 0 <= a < s.len() ==> s[a].0 != p.0,
    ensures
        pairs_map(s.insert(i, p)) == pairs_map(s).insert(p.0, p.1@),
    decreases s.len(),
{
    if i == s.len() {
        assert(s.insert(i, p).drop_last() =~= s);
        assert(s.insert(i, p).last() == p);
    } else {
        assert(s.insert(i, p).drop_last() =~= s.drop_last().insert(i, p));
        assert forall|a: int| 0 <= a < s.drop_last().len() implies s.drop_last()[a].0 != p.0 by {
            assert(s.drop_last()[a] == s[a]);
        }
        lemma_pairs_map_insert(s.drop_last(), i, p);
        assert(s.last().0 != p.0);
        assert(s.insert(i, p).last() == s.last());
        assert(pairs_map(s.insert(i, p)) =~= pairs_map(s).insert(p.0, p.1@));
    }
}

/// A run of observed rows folded into the id-to-value map, first to last.
pub open spec fn fold_rows(m: Map<i64, Seq<char>>, rows: Seq<(i64, String)>) -> Map<
    i64,
    Seq<char>,
>
    decreases rows.len(),
{
    if rows.len() == 0 {
        m
    } else {
        fold_rows(m.insert(rows[0].0, rows[0].1@), rows.drop_first())
    }
}

/// Tracks, for each row id, the value last seen in the probed column,
/// ordered by id throughout.
pub struct LastValues {
    pub entries: Vec<(i64, String)>,
}

impl LastValues {
    /// Entries are strictly increasing by id.
    pub open spec fn wf(&self) -> bool {
        forall|a: int, b: int|
            0 <= a < b < self.entries@.len() ==> self.entries@[a].0 < self.entries@[b].0
    }

    pub open spec fn view(&self) -> Map<i64, Seq<char>> {
        pairs_map(self.entries@)
    }

    pub fn new() -> (r: LastValues)
        ensures
            r.wf(),
            r@ == Map::<i64, Seq<char>>::empty(),
            r.entries@.len() == 0,
    {
        LastValues { entries: Vec::new() }
    }

    /// Record one observed row: a fresh id is inserted in id order, a known
    /// id keeps the newest value.
    pub fn record(&mut self, id: i64, value: String)
        requires
            old(self).wf(),
        ensures
            final(self).wf(),
            final(self)@ == old(self)@.insert(id, value@),
    {
        let ghost pre = self.entries@;
        let n = self.entries.len();
        let mut i: usize = 0;
        while i < n
            invariant
                old(self).wf(),
                n == self.entries@.len(),
                i <= n,
                forall|a: int| 0 <= a < i ==> self.entries@[a].0 < id,
                self.entries@ == pre,
                pre == old(self).entries@,
            decreases n - i,
        {
            let here = self.entries[i].0;
            if here == id {
                proof {
                    assert forall|a: int| 0 <= a < pre.len() && a != i implies pre[a].0 != id by {
                        if a > i {
                            assert(pre[i as int].0 < pre[a].0);
                        }
                    }
                }
                self.entries.set(i, (id, value));
                proof {
                    lemma_pairs_map_update(pre, i as int, self.entries@[i as int]);
                }
                return ;
            }
            if here > id {
                proof {
                    assert forall|a: int| 0 <= a < pre.len() implies pre[a].0 != id by {
                        if a > i {
                            assert(pre[i as int].0 <= pre[a].0);
                        }
                    }
                }
                self.entries.insert(i, (id, value));
                proof {
                    lemma_pairs_map_insert(pre, i as int, self.entries@[i as int]);
                    assert forall|a: int, b: int|
                        0 <= a < b < self.entries@.len() implies self.entries@[a].0
                        < self.entries@[b].0 by {
                        if a < i && b > i {
                            assert(self.entries@[a] == pre[a]);
                            assert(self.entries@[b] == pre[b - 1]);
                        } else if a == i && b > i {
                            assert(self.entries@[b] == pre[b - 1]);
                            assert(pre[i as int].0 <= pre[b - 1].0);
                        } else if b == i {
                            assert(self.entries@[a] == pre[a]);
                        } else if a < i && b < i {
                            assert(self.entries@[a] == pre[a] && self.entries@[b] == pre[b]);
                        } else {
                            assert(self.entries@[a] == pre[a - 1] && self.entries@[b] == pre[b
                                - 1]);
                        }
                    }
                }
                return ;
            }
            i += 1;
        }
        proof {
            assert forall|a: int| 0 <= a < pre.len() implies pre[a].0 != id by {}
        }
        self.entries.push((id, value));
        proof {
            assert(self.entries@.drop_last() =~= pre);
            assert(pairs_map(self.entries@) =~= pairs_map(pre).insert(id, value@));
        }
    }
}

/// The analysis that reports, per row id, the last non-null value a column
/// took anywhere in the walk.
#[derive(Debug)]
pub struct LastNonNullScript {
    pub table_name: String,
    pub column_name: String,
}

impl LastNonNullScript {
    /// The probe run against the store at each step of the walk.
    pub fn build_query(&self) -> (r: String)
        ensures
            r@ == "SELECT id, CAST("@ + self.column_name@ + " AS VARCHAR) FROM "@
                + self.table_name@ + " WHERE "@ + self.column_name@ + " IS NOT NULL"@,
    {
        let mut out = String::new();
        out.append("SELECT id, CAST(");
        out.append(self.column_name.as_str());
        out.append(" AS VARCHAR) FROM ");
        out.append(self.table_name.as_str());
        out.append(" WHERE ");
        out.append(self.column_name.as_str());
        out.append(" IS NOT NULL");
        out
    }

    /// The output column names.
    pub fn headers(&self) -> (r: Vec<String>)
        ensures
            view_string_seq(r@) == seq!["id"@, "last_non_null_value"@],
    {
        let mut r: Vec<String> = Vec::new();
        let a: &str = "id";
        let b: &str = "last_non_null_value";
        r.push(a.to_owned());
        r.push(b.to_owned());
        proof {
            assert(view_string_seq(r@) =~= seq!["id"@, "last_non_null_value"@]);
        }
        r
    }

    /// Fold one step's rows into the accumulator, first to last.
    pub fn observe_rows(&self, last: &mut LastValues, rows: Vec<(i64, String)>)
        requires
            old(last).wf(),
        ensures
            final(last).wf(),
            final(last)@ == fold_rows(old(last)@, rows@),
    {
        let ghost all = rows@;
        let mut rows = rows;
        while rows.len() > 0
            invariant
                last.wf(),
                fold_rows(last@, rows@) == fold_rows(old(last)@, all),
            decreases rows@.len(),
        {
            let ghost rpre = rows@;
            let (id, value) = rows.remove(0);
            proof {
                assert(rows@ =~= rpre.drop_first());
                assert((id, value) == rpre[0]);
            }
            last.record(id, value);
        }
        proof {
            assert(fold_rows(last@, rows@) == last@);
        }
    }

    /// One output row per observed id, in ascending id order, each carrying
    /// the id's last recorded value.
    pub fn collect_results(&self, last: &LastValues) -> (r: Vec<ScriptResult>)
        requires
            last.wf(),
        ensures
            r@.len() == last.entries@.len(),
            forall|i: int|
                0 <= i < r@.len() ==> view_string_seq(#[trigger] r@[i].columns@) == seq![
                    "id"@,
                    "last_non_null_value"@,
                ] && view_string_seq(r@[i].values@) == seq![
                    dec_str_i64(last.entries@[i].0 as int),
                    last.entries@[i].1@,
                ],
    {
        let n = last.entries.len();
        let mut r: Vec<ScriptResult> = Vec::new();
        let mut i: usize = 0;
        while i < n
            invariant
                n == last.entries@.len(),
                i <= n,
                r@.len() == i,
                forall|a: int|
                    0 <= a < i ==> view_string_seq(#[trigger] r@[a].columns@) == seq![
                        "id"@,
                        "last_non_null_value"@,
                    ] && view_string_seq(r@[a].values@) == seq![
                        dec_str_i64(last.entries@[a].0 as int),
                        last.entries@[a].1@,
                    ],
            decreases n - i,
        {
            let id = last.entries[i].0;
            let value = last.entries[i].1.clone();
            let mut values: Vec<String> = Vec::new();
            values.push(fmt_i64(id));
            values.push(value);
            proof {
                assert(view_string_seq(values@) =~= seq![
                    dec_str_i64(last.entries@[i as int].0 as int),
                    last.entries@[i as int].1@,
                ]);
            }
            let columns = self.headers();
            let ghost cols_view = view_string_seq(columns@);
            let ghost vals_view = view_string_seq(values@);
            let ghost rpre = r@;
            r.push(ScriptResult { columns, values });
            proof {
                assert forall|a: int|
                    0 <= a < i + 1 implies view_string_seq(#[trigger] r@[a].columns@) == seq![
                    "id"@,
                    "last_non_null_value"@,
                ] && view_string_seq(r@[a].values@) == seq![
                    dec_str_i64(last.entries@[a].0 as int),
                    last.entries@[a].1@,
                ] by {
                    if a == i {
                        assert(view_string_seq(r@[a].columns@) == cols_view);
                        assert(view_string_seq(r@[a].values@) == vals_view);
                    } else {
                        assert(r@[a] == rpre[a]);
                        assert(view_string_seq(rpre[a].columns@) == seq![
                            "id"@,
                            "last_non_null_value"@,
                        ]);
                    }
                }
            }
            i += 1;
        }
        r
    }
}

} // verus!
