//! The structured row-operation model: one row-level change with optional
//! before/after images, and its inversion.

use vstd::prelude::*;

verus! {

/// The three shapes of a row-level change.
#[derive(Debug, Clone, Copy, PartialEq, Eq, Structural)]
pub enum OperationType {
    Insert,
    Update,
    Delete,
}

/// One row-level change read from the change log.
///
/// `columns` is the ordered list of column names; `before_values` and
/// `after_values`, when present, are parallel lists of SQL-literal-formatted
/// values (the literal token `NULL` stands for SQL NULL).
#[derive(Debug, Clone)]
pub struct BinlogOperation {
    pub timestamp: Option<String>,
    pub position: Option<u32>,
    pub operation_type: OperationType,
    pub table_name: String,
    pub database: String,
    pub columns: Vec<String>,
    pub before_values: Option<Vec<String>>,
    pub after_values: Option<Vec<String>>,
}

/// Mathematical image of a `BinlogOperation`: every string replaced by its
/// character sequence.
#[verifier::ext_equal]
pub ghost struct OpModel {
    pub timestamp: Option<Seq<char>>,
    pub position: Option<u32>,
    pub operation_type: OperationType,
    pub table_name: Seq<char>,
    pub database: Seq<char>,
    pub columns: Seq<Seq<char>>,
    pub before_values: Option<Seq<Seq<char>>>,
    pub after_values: Option<Seq<Seq<char>>>,
}

pub open spec fn view_opt_string(s: Option<String>) -> Option<Seq<char>> {
    match s {
        Some(s) => Some(s@),
        None => None,
    }
}

pub open spec fn view_string_seq(v: Seq<String>) -> Seq<Seq<char>> {
    v.map_values(|s: String| s@)
}

pub open spec fn view_opt_string_seq(v: Option<Vec<String>>) -> Option<Seq<Seq<char>>> {
    match v {
        Some(v) => Some(view_string_seq(v@)),
        None => None,
    }
}

impl View for BinlogOperation {
    type V = OpModel;

    open spec fn view(&self) -> OpModel {
        OpModel {
            timestamp: view_opt_string(self.timestamp),
            position: self.position,
            operation_type: self.operation_type,
            table_name: self.table_name@,
            database: self.database@,
            columns: view_string_seq(self.columns@),
            before_values: view_opt_string_seq(self.before_values),
            after_values: view_opt_string_seq(self.after_values),
        }
    }
}

/// The view of a whole operation stream.
pub open spec fn view_ops(v: Seq<BinlogOperation>) -> Seq<OpModel> {
    v.map_values(|o: BinlogOperation| o@)
}

/// The presence invariant of the model: the before image exists exactly for
/// Update and Delete, the after image exactly for Insert and Update.
pub open spec fn images_present(op: OpModel) -> bool {
    &&& op.before_values is Some <==> (op.operation_type == OperationType::Update
        || op.operation_type == OperationType::Delete)
    &&& op.after_values is Some <==> (op.operation_type == OperationType::Insert
        || op.operation_type == OperationType::Update)
}

/// Full well-formedness: images are present per kind and, when present, have
/// exactly one value per column.
pub open spec fn wf_op(op: OpModel) -> bool {
    &&& images_present(op)
    &&& (op.before_values matches Some(b) ==> b.len() == op.columns.len())
    &&& (op.after_values matches Some(a) ==> a.len() == op.columns.len())
}

/// What `invert` returns: Insert becomes Delete (the after image moves to the
/// before side), Delete becomes Insert (the before image moves to the after
/// side), Update swaps its images. All other fields are preserved.
pub open spec fn invert_op(op: OpModel) -> OpModel {
    match op.operation_type {
        OperationType::Insert => OpModel {
            operation_type: OperationType::Delete,
            before_values: op.after_values,
            after_values: None,
            ..op
        },
        OperationType::Update => OpModel {
            before_values: op.after_values,
            after_values: op.before_values,
            ..op
        },
        OperationType::Delete => OpModel {
            operation_type: OperationType::Insert,
            before_values: None,
            after_values: op.before_values,
            ..op
        },
    }
}

fn clone_string_vec(v: &Vec<String>) -> (r: Vec<String>)
    ensures
        view_string_seq(r@) == view_string_seq(v@),
        r@.len() == v@.len(),
{
    let mut r: Vec<String> = Vec::new();
    let mut i: usize = 0;
    while i < v.len()
        invariant
            i <= v@.len(),
            r@.len() == i,
            forall|j: int| 0 <= j < i ==> r@[j]@ == v@[j]@,
        decreases v@.len() - i,
    {
        r.push(v[i].clone());
        i += 1;
    }
    proof {
        assert(view_string_seq(r@) =~= view_string_seq(v@));
    }
    r
}

fn clone_opt_string_vec(v: &Option<Vec<String>>) -> (r: Option<Vec<String>>)
    ensures
        view_opt_string_seq(r) == view_opt_string_seq(*v),
{
    match v {
        Some(v) => Some(clone_string_vec(v)),
        None => None,
    }
}

pub(crate) fn clone_opt_string(s: &Option<String>) -> (r: Option<String>)
    ensures
        view_opt_string(r) == view_opt_string(*s),
{
    match s {
        Some(s) => Some(s.clone()),
        None => None,
    }
}

impl OperationType {
    /// The keyword the log writes for this kind.
    pub fn label(&self) -> (r: &'static str)
        ensures
            r@ == match self {
                OperationType::Insert => "INSERT"@,
                OperationType::Update => "UPDATE"@,
                OperationType::Delete => "DELETE"@,
            },
    {
        match self {
            OperationType::Insert => "INSERT",
            OperationType::Update => "UPDATE",
            OperationType::Delete => "DELETE",
        }
    }
}

/// The one-line description of an operation: timestamp (or the word null),
/// position (or zero), kind, database and table.
pub open spec fn describe_op(op: OpModel) -> Seq<char> {
    (match op.timestamp {
        Some(t) => t,
        None => "null"@,
    }) + " "@ + crate::strutil::dec_str_i64(
        match op.position {
            Some(p) => p as int,
            None => 0,
        },
    ) + " "@ + (match op.operation_type {
        OperationType::Insert => "INSERT"@,
        OperationType::Update => "UPDATE"@,
        OperationType::Delete => "DELETE"@,
    }) + " "@ + op.database + " "@ + op.table_name
}

/// A copy of the operation with the same view.
pub(crate) fn clone_op(op: &BinlogOperation) -> (r: BinlogOperation)
    ensures
        r@ == op@,
{
    let r = BinlogOperation {
        timestamp: clone_opt_string(&op.timestamp),
        position: op.position,
        operation_type: op.operation_type,
        table_name: op.table_name.clone(),
        database: op.database.clone(),
        columns: clone_string_vec(&op.columns),
        before_values: clone_opt_string_vec(&op.before_values),
        after_values: clone_opt_string_vec(&op.after_values),
    };
    proof {
        assert(r@ =~= op@);
    }
    r
}

impl BinlogOperation {
    /// The one-line description of this operation.
    pub fn describe(&self) -> (r: String)
        ensures
            r@ == describe_op(self@),
    {
        let mut out = match &self.timestamp {
            Some(t) => t.clone(),
            None => {
                let s: &str = "null";
                s.to_owned()
            },
        };
        out.append(" ");
        let pos = crate::strutil::fmt_i64(match self.position {
            Some(p) => p as i64,
            None => 0,
        });
        out.append(pos.as_str());
        out.append(" ");
        out.append(self.operation_type.label());
        out.append(" ");
        out.append(self.database.as_str());
        out.append(" ");
        out.append(self.table_name.as_str());
        out
    }

    /// The inverse operation: applying it undoes this operation.
    pub fn invert(&self) -> (r: BinlogOperation)
        ensures
            r@ == invert_op(self@),
    {
        let (operation_type, before_values, after_values) = match self.operation_type {
            OperationType::Insert => (
                OperationType::Delete,
                clone_opt_string_vec(&self.after_values),
                None,
            ),
            OperationType::Update => (
                OperationType::Update,
                clone_opt_string_vec(&self.after_values),
                clone_opt_string_vec(&self.before_values),
            ),
            OperationType::Delete => (
                OperationType::Insert,
                None,
                clone_opt_string_vec(&self.before_values),
            ),
        };
        let r = BinlogOperation {
            timestamp: clone_opt_string(&self.timestamp),
            position: self.position,
            operation_type,
            table_name: self.table_name.clone(),
            database: self.database.clone(),
            columns: clone_string_vec(&self.columns),
            before_values,
            after_values,
        };
        proof {
            assert(r@ =~= invert_op(self@));
        }
        r
    }
}

/// Inversion is an involution: inverting twice restores the operation, for
/// every operation whose images are present per its kind.
pub proof fn lemma_invert_involution(op: OpModel)
    requires
        images_present(op),
    ensures
        invert_op(invert_op(op)) == op,
{
    assert(invert_op(invert_op(op)) =~= op);
}

/// Inversion preserves well-formedness and swaps which images are present.
pub proof fn lemma_invert_wf(op: OpModel)
    requires
        wf_op(op),
    ensures
        wf_op(invert_op(op)),
        invert_op(op).columns == op.columns,
{
}

} // verus!
