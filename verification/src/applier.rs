//! Turning row operations into store statements, and deciding whether the
//! store's current state admits an operation as a real change.

use vstd::prelude::*;
use crate::operation::{
    view_string_seq, wf_op, BinlogOperation, OpModel, OperationType,
};
use crate::schema::{SchemaCache, SchemaModel};
use crate::strutil::str_eq;

verus! {

/// `parts` joined with the separator `sep` between consecutive parts.
pub open spec fn join(parts: Seq<Seq<char>>, sep: Seq<char>) -> Seq<char>
    decreases parts.len(),
{
    if parts.len() == 0 {
        Seq::empty()
    } else if parts.len() == 1 {
        parts[0]
    } else {
        parts[0] + sep + join(parts.drop_first(), sep)
    }
}

pub open spec fn eq_pair(col: Seq<char>, val: Seq<char>) -> Seq<char> {
    col + " = "@ + val
}

/// One `col = val` fragment per column, in column order.
pub open spec fn set_parts(cols: Seq<Seq<char>>, vals: Seq<Seq<char>>) -> Seq<Seq<char>> {
    Seq::new(cols.len(), |i: int| eq_pair(cols[i], vals[i]))
}

/// `col = val` fragments for the columns at or after `i` whose value is not
/// the literal token NULL; SQL `= NULL` never matches, so those columns
/// cannot identify a row.
pub open spec fn where_parts_from(cols: Seq<Seq<char>>, vals: Seq<Seq<char>>, i: int) -> Seq<
    Seq<char>,
>
    decreases cols.len() - i,
{
    if i < 0 || i >= cols.len() || i >= vals.len() {
        Seq::empty()
    } else if vals[i] == "NULL"@ {
        where_parts_from(cols, vals, i + 1)
    } else {
        seq![eq_pair(cols[i], vals[i])] + where_parts_from(cols, vals, i + 1)
    }
}

pub open spec fn where_parts(cols: Seq<Seq<char>>, vals: Seq<Seq<char>>) -> Seq<Seq<char>> {
    where_parts_from(cols, vals, 0)
}

pub open spec fn insert_sql(op: OpModel) -> Seq<char> {
    "INSERT INTO "@ + op.table_name + " ("@ + join(op.columns, ", "@) + ") VALUES ("@ + join(
        op.after_values.unwrap(),
        ", "@,
    ) + ");"@
}

pub open spec fn update_sql(op: OpModel) -> Seq<char> {
    let sets = join(set_parts(op.columns, op.after_values.unwrap()), ", "@);
    let wheres = where_parts(op.columns, op.before_values.unwrap());
    if wheres.len() == 0 {
        "UPDATE "@ + op.table_name + " SET "@ + sets + ";"@
    } else {
        "UPDATE "@ + op.table_name + " SET "@ + sets + " WHERE "@ + join(wheres, " AND "@) + ";"@
    }
}

pub open spec fn delete_sql(op: OpModel) -> Seq<char> {
    let wheres = where_parts(op.columns, op.before_values.unwrap());
    if wheres.len() == 0 {
        "DELETE FROM "@ + op.table_name + ";"@
    } else {
        "DELETE FROM "@ + op.table_name + " WHERE "@ + join(wheres, " AND "@) + ";"@
    }
}

/// The store statement for an operation: INSERT lists every column and its
/// after image; UPDATE sets every column and identifies the row by its
/// non-NULL before values; DELETE identifies the row the same way.
pub open spec fn sql_for(op: OpModel) -> Seq<char> {
    match op.operation_type {
        OperationType::Insert => insert_sql(op),
        OperationType::Update => update_sql(op),
        OperationType::Delete => delete_sql(op),
    }
}

/// The decision table of the conditional applier. `current` is the row the
/// store holds under the operation's identifying image, if any.
pub open spec fn should_apply_spec(op: OpModel, current: Option<Seq<Seq<char>>>) -> bool {
    match op.operation_type {
        OperationType::Insert => match current {
            None => true,
            Some(cur) => cur != op.after_values.unwrap(),
        },
        OperationType::Update | OperationType::Delete => match current {
            None => false,
            Some(cur) => cur == op.before_values.unwrap(),
        },
    }
}

/// Column types whose fetched values are re-quoted as string literals.
pub open spec fn is_texty(ty: Seq<char>) -> bool {
    ||| crate::strutil::contains_seq(ty, "VARCHAR"@)
    ||| crate::strutil::contains_seq(ty, "TEXT"@)
    ||| crate::strutil::contains_seq(ty, "CHAR"@)
    ||| crate::strutil::contains_seq(ty, "TIMESTAMP"@)
    ||| crate::strutil::contains_seq(ty, "DATE"@)
}

/// How one fetched value is brought back to the log's literal form: SQL NULL
/// becomes the token NULL, text-like and temporal values are single-quoted,
/// booleans normalise to 1/0, and everything else passes through.
pub open spec fn literal_of(ty: Seq<char>, v: Option<Seq<char>>) -> Seq<char> {
    match v {
        None => "NULL"@,
        Some(v) => if is_texty(ty) {
            "'"@ + v + "'"@
        } else if crate::strutil::contains_seq(ty, "BOOL"@) {
            if v == "true"@ || v == "t"@ {
                "1"@
            } else if v == "false"@ || v == "f"@ {
                "0"@
            } else {
                v
            }
        } else {
            v
        },
    }
}

pub open spec fn type_at(types: Seq<Seq<char>>, i: int) -> Seq<char> {
    if 0 <= i < types.len() {
        types[i]
    } else {
        Seq::empty()
    }
}

pub open spec fn literalize_spec(types: Seq<Seq<char>>, raw: Seq<Option<Seq<char>>>) -> Seq<
    Seq<char>,
> {
    Seq::new(raw.len(), |i: int| literal_of(type_at(types, i), raw[i]))
}

pub open spec fn view_opt_strings(s: Seq<Option<String>>) -> Seq<Option<Seq<char>>> {
    s.map_values(
        |v: Option<String>|
            match v {
                Some(x) => Some(x@),
                None => None,
            },
    )
}

/// The probe that fetches the row identified by the non-NULL values of an
/// image, reading every column back as text. `None` when no column can
/// identify the row.
pub open spec fn cast_parts(cols: Seq<Seq<char>>) -> Seq<Seq<char>> {
    Seq::new(cols.len(), |i: int| "CAST("@ + cols[i] + " AS VARCHAR)"@)
}

pub open spec fn fetch_query_spec(
    table: Seq<char>,
    cols: Seq<Seq<char>>,
    identifying: Seq<Seq<char>>,
) -> Option<Seq<char>> {
    let wheres = where_parts(cols, identifying);
    if wheres.len() == 0 {
        None
    } else {
        Some(
            "SELECT "@ + join(cast_parts(cols), ", "@) + " FROM "@ + table + " WHERE "@ + join(
                wheres,
                " AND "@,
            ) + " LIMIT 1"@,
        )
    }
}

proof fn lemma_join_push(parts: Seq<Seq<char>>, sep: Seq<char>, p: Seq<char>)
    ensures
        join(parts.push(p), sep) == if parts.len() == 0 {
            p
        } else {
            join(parts, sep) + sep + p
        },
    decreases parts.len(),
{
    if parts.len() == 0 {
        assert(join(parts.push(p), sep) == parts.push(p)[0]);
        assert(parts.push(p)[0] == p);
    } else {
        lemma_join_push(parts.drop_first(), sep, p);
        assert(parts.push(p).drop_first() =~= parts.drop_first().push(p));
        if parts.len() == 1 {
            assert(join(parts.push(p), sep) == parts[0] + sep + join(
                parts.drop_first().push(p),
                sep,
            ));
            assert(join(parts.drop_first().push(p), sep) == p);
        } else {
            assert(join(parts.push(p), sep) == parts[0] + sep + (join(parts.drop_first(), sep)
                + sep + p));
            assert(parts[0] + sep + (join(parts.drop_first(), sep) + sep + p) =~= (parts[0] + sep
                + join(parts.drop_first(), sep)) + sep + p);
        }
    }
}

/// Join the parts with the separator between consecutive parts.
pub fn join_strings(parts: &Vec<String>, sep: &str) -> (r: String)
    ensures
        r@ == join(view_string_seq(parts@), sep@),
{
    let ghost vp = view_string_seq(parts@);
    let mut out = String::new();
    let n = parts.len();
    let mut i: usize = 0;
    while i < n
        invariant
            n == parts@.len(),
            vp == view_string_seq(parts@),
            i <= n,
            out@ == join(vp.take(i as int), sep@),
        decreases n - i,
    {
        if i > 0 {
            out.append(sep);
        }
        out.append(parts[i].as_str());
        proof {
            assert(vp.take(i + 1) =~= vp.take(i as int).push(vp[i as int]));
            lemma_join_push(vp.take(i as int), sep@, vp[i as int]);
            assert(vp[i as int] == parts@[i as int]@);
        }
        i += 1;
    }
    proof {
        assert(vp.take(n as int) =~= vp);
    }
    out
}

/// `col = val` as a fresh string.
fn eq_pair_string(col: &String, val: &String) -> (r: String)
    ensures
        r@ == eq_pair(col@, val@),
{
    let mut out = col.clone();
    out.append(" = ");
    out.append(val.as_str());
    out
}

fn build_set_parts(cols: &Vec<String>, vals: &Vec<String>) -> (r: Vec<String>)
    requires
        cols@.len() == vals@.len(),
    ensures
        view_string_seq(r@) == set_parts(view_string_seq(cols@), view_string_seq(vals@)),
{
    let n = cols.len();
    let mut r: Vec<String> = Vec::new();
    let mut i: usize = 0;
    while i < n
        invariant
            n == cols@.len(),
            n == vals@.len(),
            i <= n,
            r@.len() == i,
            forall|j: int| 0 <= j < i ==> r@[j]@ == eq_pair(cols@[j]@, vals@[j]@),
        decreases n - i,
    {
        r.push(eq_pair_string(&cols[i], &vals[i]));
        i += 1;
    }
    proof {
        assert(view_string_seq(r@) =~= set_parts(view_string_seq(cols@), view_string_seq(vals@)));
    }
    r
}

fn build_where_parts(cols: &Vec<String>, vals: &Vec<String>) -> (r: Vec<String>)
    requires
        cols@.len() == vals@.len(),
    ensures
        view_string_seq(r@) == where_parts(view_string_seq(cols@), view_string_seq(vals@)),
{
    let ghost vc = view_string_seq(cols@);
    let ghost vv = view_string_seq(vals@);
    let n = cols.len();
    let mut r: Vec<String> = Vec::new();
    let mut i: usize = 0;
    while i < n
        invariant
            n == cols@.len(),
            n == vals@.len(),
            vc == view_string_seq(cols@),
            vv == view_string_seq(vals@),
            i <= n,
            view_string_seq(r@) + where_parts_from(vc, vv, i as int) == where_parts_from(vc, vv, 0),
        decreases n - i,
    {
        let ghost pre = view_string_seq(r@);
        if !str_eq(vals[i].as_str(), "NULL") {
            r.push(eq_pair_string(&cols[i], &vals[i]));
            proof {
                assert(view_string_seq(r@) =~= pre.push(eq_pair(vc[i as int], vv[i as int])));
                assert(vv[i as int] != "NULL"@);
                assert(where_parts_from(vc, vv, i as int) == seq![
                    eq_pair(vc[i as int], vv[i as int]),
                ] + where_parts_from(vc, vv, i + 1));
                assert(pre.push(eq_pair(vc[i as int], vv[i as int])) + where_parts_from(
                    vc,
                    vv,
                    i + 1,
                ) =~= pre + where_parts_from(vc, vv, i as int));
            }
        } else {
            proof {
                assert(vv[i as int] == "NULL"@);
            }
        }
        i += 1;
    }
    proof {
        assert(where_parts_from(vc, vv, n as int) =~= Seq::<Seq<char>>::empty());
        assert(view_string_seq(r@) + where_parts_from(vc, vv, n as int) =~= view_string_seq(r@));
    }
    r
}

fn build_cast_parts(cols: &Vec<String>) -> (r: Vec<String>)
    ensures
        view_string_seq(r@) == cast_parts(view_string_seq(cols@)),
{
    let n = cols.len();
    let mut r: Vec<String> = Vec::new();
    let mut i: usize = 0;
    while i < n
        invariant
            n == cols@.len(),
            i <= n,
            r@.len() == i,
            forall|j: int| 0 <= j < i ==> r@[j]@ == "CAST("@ + cols@[j]@ + " AS VARCHAR)"@,
        decreases n - i,
    {
        let mut part = String::new();
        part.append("CAST(");
        part.append(cols[i].as_str());
        part.append(" AS VARCHAR)");
        r.push(part);
        i += 1;
    }
    proof {
        assert(view_string_seq(r@) =~= cast_parts(view_string_seq(cols@)));
    }
    r
}

/// Element-wise equality of two lists of strings.
pub fn vec_string_eq(a: &Vec<String>, b: &Vec<String>) -> (r: bool)
    ensures
        r == (view_string_seq(a@) == view_string_seq(b@)),
{
    let n = a.len();
    if n != b.len() {
        proof {
            assert(view_string_seq(a@).len() != view_string_seq(b@).len());
        }
        return false;
    }
    let mut i: usize = 0;
    while i < n
        invariant
            n == a@.len(),
            n == b@.len(),
            i <= n,
            forall|j: int| 0 <= j < i ==> a@[j]@ == b@[j]@,
        decreases n - i,
    {
        if !str_eq(a[i].as_str(), b[i].as_str()) {
            proof {
                assert(view_string_seq(a@)[i as int] != view_string_seq(b@)[i as int]);
            }
            return false;
        }
        i += 1;
    }
    proof {
        assert(view_string_seq(a@) =~= view_string_seq(b@));
    }
    true
}

/// Re-literalise one fetched value per its column type.
fn literal_of_exec(ty: &str, v: &Option<String>) -> (r: String)
    ensures
        r@ == literal_of(
            ty@,
            match v {
                Some(x) => Some(x@),
                None => None,
            },
        ),
{
    match v {
        None => {
            let s: &str = "NULL";
            s.to_owned()
        },
        Some(v) => {
            let texty = crate::strutil::str_contains(ty, "VARCHAR") || crate::strutil::str_contains(
                ty,
                "TEXT",
            ) || crate::strutil::str_contains(ty, "CHAR") || crate::strutil::str_contains(
                ty,
                "TIMESTAMP",
            ) || crate::strutil::str_contains(ty, "DATE");
            if texty {
                let mut out = String::new();
                out.append("'");
                out.append(v.as_str());
                out.append("'");
                out
            } else if crate::strutil::str_contains(ty, "BOOL") {
                if str_eq(v.as_str(), "true") || str_eq(v.as_str(), "t") {
                    let s: &str = "1";
                    s.to_owned()
                } else if str_eq(v.as_str(), "false") || str_eq(v.as_str(), "f") {
                    let s: &str = "0";
                    s.to_owned()
                } else {
                    v.clone()
                }
            } else {
                v.clone()
            }
        },
    }
}

/// Bring a fetched row back to the log's literal form, column by column; a
/// column past the end of the type list counts as untyped.
pub fn literalize_row(types: &Vec<String>, raw: &Vec<Option<String>>) -> (r: Vec<String>)
    ensures
        view_string_seq(r@) == literalize_spec(view_string_seq(types@), view_opt_strings(raw@)),
{
    let n = raw.len();
    let mut r: Vec<String> = Vec::new();
    let mut i: usize = 0;
    while i < n
        invariant
            n == raw@.len(),
            i <= n,
            r@.len() == i,
            forall|j: int|
                0 <= j < i ==> r@[j]@ == literal_of(
                    type_at(view_string_seq(types@), j),
                    view_opt_strings(raw@)[j],
                ),
        decreases n - i,
    {
        let empty_ty: &str = "";
        let ty: &str = if i < types.len() {
            types[i].as_str()
        } else {
            empty_ty
        };
        proof {
            reveal_strlit("");
            assert(ty@ == type_at(view_string_seq(types@), i as int));
        }
        r.push(literal_of_exec(ty, &raw[i]));
        i += 1;
    }
    proof {
        assert(view_string_seq(r@) =~= literalize_spec(
            view_string_seq(types@),
            view_opt_strings(raw@),
        ));
    }
    r
}

/// The row the store holds under the operation's identifying image right
/// after its own statement runs: the after image for Insert and Update,
/// nothing for Delete.
pub open spec fn row_after_apply(op: OpModel) -> Option<Seq<Seq<char>>> {
    match op.operation_type {
        OperationType::Insert | OperationType::Update => Some(op.after_values.unwrap()),
        OperationType::Delete => None,
    }
}

/// Applying an operation makes it a skip thereafter: against the row its own
/// statement leaves behind, the decision table always says skip, so a second
/// consecutive apply never mutates the store. The one excluded input is an
/// Update whose two images are identical, which the store cannot tell apart
/// from its own after-state.
pub proof fn lemma_second_apply_skips(op: OpModel)
    requires
        wf_op(op),
        op.operation_type == OperationType::Update ==> op.before_values != op.after_values,
    ensures
        !should_apply_spec(op, row_after_apply(op)),
{
}

/// An operation whose after image equals the row the store currently holds
/// is a skip: the change is already reflected. For an Update this holds when
/// its images differ; one whose images are identical is excluded.
pub proof fn lemma_after_image_present_is_skip(op: OpModel)
    requires
        wf_op(op),
        op.operation_type == OperationType::Insert || (op.operation_type == OperationType::Update
            && op.before_values != op.after_values),
    ensures
        !should_apply_spec(op, Some(op.after_values.unwrap())),
{
}

/// Decides, for each operation, whether the store's current state admits it
/// as a meaningful change, and what statement performs it. Holds the memoised
/// table schemas; the store itself lives outside the library.
pub struct OperationApplier {
    pub schema: SchemaCache,
}

impl OperationApplier {
    pub open spec fn wf(&self) -> bool {
        self.schema.wf()
    }

    pub open spec fn view(&self) -> Map<Seq<char>, SchemaModel> {
        self.schema@
    }

    pub fn new() -> (r: OperationApplier)
        ensures
            r.wf(),
            r@ == Map::<Seq<char>, SchemaModel>::empty(),
    {
        OperationApplier { schema: SchemaCache::new() }
    }

    /// Seed the schema of one table, as the store's catalogue reported it.
    pub fn insert_schema(&mut self, table: String, columns: Vec<String>, types: Vec<String>)
        requires
            old(self).wf(),
        ensures
            final(self).wf(),
            final(self)@ == if old(self)@.contains_key(table@) {
                old(self)@
            } else {
                old(self)@.insert(
                    table@,
                    SchemaModel {
                        columns: view_string_seq(columns@),
                        types: view_string_seq(types@),
                    },
                )
            },
    {
        self.schema.insert(table, columns, types)
    }

    /// The memoised schema of a table: columns and parallel types, both empty
    /// when the table is unknown.
    pub fn get_table_schema(&self, table: &str) -> (r: (Vec<String>, Vec<String>))
        requires
            self.wf(),
        ensures
            self@.contains_key(table@) ==> self@[table@] == (SchemaModel {
                columns: view_string_seq(r.0@),
                types: view_string_seq(r.1@),
            }),
            !self@.contains_key(table@) ==> r.0@.len() == 0 && r.1@.len() == 0,
    {
        match self.schema.get(table) {
            Some(p) => p,
            None => (Vec::new(), Vec::new()),
        }
    }

    /// The store statement for an operation.
    pub fn generate_sql(&self, op: &BinlogOperation) -> (r: String)
        requires
            wf_op(op@),
        ensures
            r@ == sql_for(op@),
    {
        match op.operation_type {
            OperationType::Insert => {
                let vals = op.after_values.as_ref().unwrap();
                let mut out = String::new();
                out.append("INSERT INTO ");
                out.append(op.table_name.as_str());
                out.append(" (");
                let cols_joined = join_strings(&op.columns, ", ");
                out.append(cols_joined.as_str());
                out.append(") VALUES (");
                let vals_joined = join_strings(vals, ", ");
                out.append(vals_joined.as_str());
                out.append(");");
                proof {
                    assert(out@ =~= insert_sql(op@));
                }
                out
            },
            OperationType::Update => {
                let before = op.before_values.as_ref().unwrap();
                let after = op.after_values.as_ref().unwrap();
                let sets = build_set_parts(&op.columns, after);
                let wheres = build_where_parts(&op.columns, before);
                let sets_joined = join_strings(&sets, ", ");
                let mut out = String::new();
                out.append("UPDATE ");
                out.append(op.table_name.as_str());
                out.append(" SET ");
                out.append(sets_joined.as_str());
                if wheres.len() == 0 {
                    out.append(";");
                } else {
                    out.append(" WHERE ");
                    let wheres_joined = join_strings(&wheres, " AND ");
                    out.append(wheres_joined.as_str());
                    out.append(";");
                }
                proof {
                    assert(out@ =~= update_sql(op@));
                }
                out
            },
            OperationType::Delete => {
                let before = op.before_values.as_ref().unwrap();
                let wheres = build_where_parts(&op.columns, before);
                let mut out = String::new();
                out.append("DELETE FROM ");
                out.append(op.table_name.as_str());
                if wheres.len() == 0 {
                    out.append(";");
                } else {
                    out.append(" WHERE ");
                    let wheres_joined = join_strings(&wheres, " AND ");
                    out.append(wheres_joined.as_str());
                    out.append(";");
                }
                proof {
                    assert(out@ =~= delete_sql(op@));
                }
                out
            },
        }
    }

    /// The probe statement whose answer decides `should_apply`: identify the
    /// row by the operation's non-NULL identifying values. `None` when no
    /// column identifies the row or the table has no known column types; the
    /// caller then treats the row as absent.
    pub fn fetch_current_row_query(
        &self,
        table: &str,
        columns: &Vec<String>,
        identifying: &Vec<String>,
    ) -> (r: Option<String>)
        requires
            self.wf(),
            columns@.len() == identifying@.len(),
        ensures
            ({
                let q = fetch_query_spec(
                    table@,
                    view_string_seq(columns@),
                    view_string_seq(identifying@),
                );
                let known = self@.contains_key(table@) && self@[table@].types.len() > 0;
                match r {
                    Some(s) => known && q == Some(s@),
                    None => !known || q is None,
                }
            }),
    {
        let wheres = build_where_parts(columns, identifying);
        if wheres.len() == 0 {
            return None;
        }
        let (_, types) = self.get_table_schema(table);
        if types.len() == 0 {
            return None;
        }
        let casts = build_cast_parts(columns);
        let mut out = String::new();
        out.append("SELECT ");
        let casts_joined = join_strings(&casts, ", ");
        out.append(casts_joined.as_str());
        out.append(" FROM ");
        out.append(table);
        out.append(" WHERE ");
        let wheres_joined = join_strings(&wheres, " AND ");
        out.append(wheres_joined.as_str());
        out.append(" LIMIT 1");
        proof {
            assert(Some(out@) =~= fetch_query_spec(
                table@,
                view_string_seq(columns@),
                view_string_seq(identifying@),
            ));
        }
        Some(out)
    }

    /// The conditional applier's decision, given the row the store currently
    /// holds under the operation's identifying image.
    pub fn should_apply(&self, op: &BinlogOperation, current: &Option<Vec<String>>) -> (r: bool)
        requires
            wf_op(op@),
        ensures
            r == should_apply_spec(
                op@,
                match current {
                    Some(c) => Some(view_string_seq(c@)),
                    None => None,
                },
            ),
    {
        match op.operation_type {
            OperationType::Insert => {
                let after = op.after_values.as_ref().unwrap();
                match current {
                    None => true,
                    Some(cur) => !vec_string_eq(cur, after),
                }
            },
            OperationType::Update | OperationType::Delete => {
                let before = op.before_values.as_ref().unwrap();
                match current {
                    None => false,
                    Some(cur) => vec_string_eq(cur, before),
                }
            },
        }
    }

    /// The statement to run for `op`, or `None` when the operation must be
    /// skipped: the action half of one conditional-apply step.
    pub fn conditional_statement(
        &self,
        op: &BinlogOperation,
        current: &Option<Vec<String>>,
    ) -> (r: Option<String>)
        requires
            wf_op(op@),
        ensures
            ({
                let cur = match current {
                    Some(c) => Some(view_string_seq(c@)),
                    None => None,
                };
                match r {
                    Some(s) => should_apply_spec(op@, cur) && s@ == sql_for(op@),
                    None => !should_apply_spec(op@, cur),
                }
            }),
    {
        if self.should_apply(op, current) {
            Some(self.generate_sql(op))
        } else {
            None
        }
    }
}

} // verus!
