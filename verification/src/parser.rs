//! The change-log parser: a single forward pass over the log's lines that
//! yields the committed operation stream, gated by the live table schema.
//!
//! The pass is a small state machine. In the scanning state a line may frame
//! a transaction, stamp a timestamp or position, or start an operation; while
//! an operation's image sections are read the machine sits in a fields state,
//! and an operation against an unknown table is skipped line by line. A line
//! that ends an image section is then handled again as a scanning line.

use vstd::prelude::*;
use vstd::pervasive::VecAdditionalExecFns;
use crate::lines::{
    col_val_capture, col_val_capture_exec, extract_db_table, extract_db_table_exec,
    has_op_marker, has_op_marker_exec, line_is_begin, line_is_begin_exec, line_is_commit,
    line_is_commit_exec, line_is_rollback, line_is_rollback_exec, op_start, op_start_exec,
    pos_capture, pos_capture_exec, starts_hash3, starts_hash3_exec, ts_capture, ts_capture_exec,
};
use crate::operation::{
    clone_opt_string, view_opt_string, view_ops, view_string_seq, wf_op, BinlogOperation,
    OpModel, OperationType,
};
use crate::schema::{SchemaCache, SchemaModel};
use crate::strutil::{contains_seq, dec_val, str_contains};

verus! {

/// A malformed column index inside a column-value line.
#[derive(Debug)]
pub struct ParseError;

impl ParseError {
    /// A human-readable description of the failure.
    pub fn message(&self) -> (r: String)
        ensures
            r@ == "malformed column index in column-value line"@,
    {
        let s: &str = "malformed column index in column-value line";
        s.to_owned()
    }
}

/// The store catalogue returned no column types for a probed table.
#[derive(Debug)]
pub struct NoSchemaTypesFoundError;

impl NoSchemaTypesFoundError {
    /// A human-readable description of the failure.
    pub fn message(&self) -> (r: String)
        ensures
            r@ == "catalogue query returned no table column types"@,
    {
        let s: &str = "catalogue query returned no table column types";
        s.to_owned()
    }
}

/// The operation being assembled while its image sections are read.
#[verifier::ext_equal]
pub ghost struct FieldsModel {
    pub kind: OperationType,
    pub database: Seq<char>,
    pub table: Seq<char>,
    pub columns: Seq<Seq<char>>,
    pub before: Seq<Seq<char>>,
    pub after: Seq<Seq<char>>,
    pub in_set: bool,
    pub timestamp: Option<Seq<char>>,
    pub position: Option<u32>,
}

#[verifier::ext_equal]
pub ghost enum PMode {
    Scanning,
    Fields(FieldsModel),
    Skipping,
}

/// The parser's whole state between lines.
#[verifier::ext_equal]
pub ghost struct PState {
    pub in_tx: bool,
    pub pending: Seq<OpModel>,
    pub emitted: Seq<OpModel>,
    pub cur_ts: Option<Seq<char>>,
    pub cur_pos: Option<u32>,
    pub mode: PMode,
}

pub open spec fn init_state() -> PState {
    PState {
        in_tx: false,
        pending: Seq::empty(),
        emitted: Seq::empty(),
        cur_ts: None,
        cur_pos: None,
        mode: PMode::Scanning,
    }
}

/// A fresh image: one literal NULL per column.
pub open spec fn nulls(n: nat) -> Seq<Seq<char>> {
    Seq::new(n, |i: int| "NULL"@)
}

pub open spec fn schema_has_columns(schema: Map<Seq<char>, SchemaModel>, t: Seq<char>) -> bool {
    schema.contains_key(t) && schema[t].columns.len() > 0
}

/// The operation an assembled fields state stands for: the before image
/// exists except for Insert, the after image except for Delete.
pub open spec fn op_of_fields(f: FieldsModel) -> OpModel {
    OpModel {
        timestamp: f.timestamp,
        position: f.position,
        operation_type: f.kind,
        table_name: f.table,
        database: f.database,
        columns: f.columns,
        before_values: if f.kind == OperationType::Insert {
            None
        } else {
            Some(f.before)
        },
        after_values: if f.kind == OperationType::Delete {
            None
        } else {
            Some(f.after)
        },
    }
}

/// Close the operation being assembled. Inside a transaction it joins the
/// pending buffer; outside one it is tolerated but not emitted.
pub open spec fn finalize(st: PState, f: FieldsModel) -> PState {
    if st.in_tx {
        PState { pending: st.pending.push(op_of_fields(f)), mode: PMode::Scanning, ..st }
    } else {
        PState { mode: PMode::Scanning, ..st }
    }
}

/// Record one `@K=V` value: the 1-based index `k` lands in the image being
/// read; an index outside the column range is ignored.
pub open spec fn fields_set(f: FieldsModel, k: nat, v: Seq<char>) -> FieldsModel {
    if 1 <= k <= f.columns.len() {
        if f.in_set {
            FieldsModel { after: f.after.update(k - 1, v), ..f }
        } else {
            FieldsModel { before: f.before.update(k - 1, v), ..f }
        }
    } else {
        f
    }
}

/// One scanning-state line: transaction framing first, then timestamp and
/// position stamps, then an operation start gated by the schema.
pub open spec fn scan_step(st: PState, l: Seq<char>, schema: Map<Seq<char>, SchemaModel>) -> PState {
    if line_is_begin(l) {
        PState { in_tx: true, pending: Seq::empty(), mode: PMode::Scanning, ..st }
    } else if line_is_commit(l) {
        PState {
            in_tx: false,
            pending: Seq::empty(),
            emitted: if st.in_tx {
                st.emitted + st.pending
            } else {
                st.emitted
            },
            mode: PMode::Scanning,
            ..st
        }
    } else if line_is_rollback(l) {
        PState {
            in_tx: false,
            pending: if st.in_tx {
                Seq::empty()
            } else {
                st.pending
            },
            mode: PMode::Scanning,
            ..st
        }
    } else {
        let ts = match ts_capture(l) {
            Some(t) => Some(t),
            None => st.cur_ts,
        };
        let pos = match pos_capture(l) {
            Some(p) => Some(p),
            None => st.cur_pos,
        };
        let st2 = PState { cur_ts: ts, cur_pos: pos, mode: PMode::Scanning, ..st };
        match op_start(l) {
            None => st2,
            Some((kind, path)) => {
                let (db, table) = extract_db_table(path);
                if schema_has_columns(schema, table) {
                    let cols = schema[table].columns;
                    PState {
                        mode: PMode::Fields(
                            FieldsModel {
                                kind,
                                database: db,
                                table,
                                columns: cols,
                                before: nulls(cols.len()),
                                after: nulls(cols.len()),
                                in_set: kind == OperationType::Insert,
                                timestamp: ts,
                                position: pos,
                            },
                        ),
                        ..st2
                    }
                } else {
                    PState { mode: PMode::Skipping, ..st2 }
                }
            },
        }
    }
}

/// One line of the parse. `None` stands for the one surfacing failure: a
/// column index whose digits overflow the index type.
pub open spec fn step(st: PState, l: Seq<char>, schema: Map<Seq<char>, SchemaModel>) -> Option<
    PState,
> {
    match st.mode {
        PMode::Scanning => Some(scan_step(st, l, schema)),
        PMode::Skipping => {
            if !starts_hash3(l) || has_op_marker(l) {
                Some(scan_step(PState { mode: PMode::Scanning, ..st }, l, schema))
            } else {
                Some(st)
            }
        },
        PMode::Fields(f) => {
            if !starts_hash3(l) || has_op_marker(l) {
                Some(scan_step(finalize(st, f), l, schema))
            } else if f.kind == OperationType::Update && !f.in_set && contains_seq(
                l,
                "### SET"@,
            ) {
                Some(PState { mode: PMode::Fields(FieldsModel { in_set: true, ..f }), ..st })
            } else {
                match col_val_capture(l) {
                    None => Some(st),
                    Some((digits, v)) => {
                        let k = dec_val(digits);
                        if k > usize::MAX {
                            None
                        } else {
                            Some(PState { mode: PMode::Fields(fields_set(f, k, v)), ..st })
                        }
                    },
                }
            }
        },
    }
}

/// The whole pass, line by line from the left.
pub open spec fn parse_fold(
    st: PState,
    lines: Seq<Seq<char>>,
    schema: Map<Seq<char>, SchemaModel>,
) -> Option<PState>
    decreases lines.len(),
{
    if lines.len() == 0 {
        Some(st)
    } else {
        match step(st, lines[0], schema) {
            None => None,
            Some(s2) => parse_fold(s2, lines.drop_first(), schema),
        }
    }
}

/// What parsing a whole log yields: the committed operations, in order. An
/// operation still being assembled at end of input never reaches the output,
/// since only a COMMIT line publishes the pending buffer.
pub open spec fn parse_result(lines: Seq<Seq<char>>, schema: Map<Seq<char>, SchemaModel>) -> Option<
    Seq<OpModel>,
> {
    match parse_fold(init_state(), lines, schema) {
        None => None,
        Some(st) => Some(st.emitted),
    }
}

/// The structural invariant the parse maintains: buffered and emitted
/// operations are well formed, an assembled image has one value per column,
/// and nothing is pending outside a transaction.
pub open spec fn state_wf(st: PState) -> bool {
    &&& forall|i: int| 0 <= i < st.emitted.len() ==> wf_op(#[trigger] st.emitted[i])
    &&& forall|i: int| 0 <= i < st.pending.len() ==> wf_op(#[trigger] st.pending[i])
    &&& (st.mode matches PMode::Fields(f) ==> f.before.len() == f.columns.len() && f.after.len()
        == f.columns.len())
    &&& (!st.in_tx ==> st.pending.len() == 0)
}

/// An image being assembled holds one value per column.
pub open spec fn mode_lens_ok(st: PState) -> bool {
    st.mode matches PMode::Fields(f) ==> f.before.len() == f.columns.len() && f.after.len()
        == f.columns.len()
}

/// The exec image of `FieldsModel`.
pub struct FieldsBuild {
    pub kind: OperationType,
    pub database: String,
    pub table: String,
    pub columns: Vec<String>,
    pub before: Vec<String>,
    pub after: Vec<String>,
    pub in_set: bool,
    pub timestamp: Option<String>,
    pub position: Option<u32>,
}

impl View for FieldsBuild {
    type V = FieldsModel;

    open spec fn view(&self) -> FieldsModel {
        FieldsModel {
            kind: self.kind,
            database: self.database@,
            table: self.table@,
            columns: view_string_seq(self.columns@),
            before: view_string_seq(self.before@),
            after: view_string_seq(self.after@),
            in_set: self.in_set,
            timestamp: view_opt_string(self.timestamp),
            position: self.position,
        }
    }
}

pub enum LineMode {
    Scanning,
    Fields(FieldsBuild),
    Skipping,
}

impl View for LineMode {
    type V = PMode;

    open spec fn view(&self) -> PMode {
        match self {
            LineMode::Scanning => PMode::Scanning,
            LineMode::Fields(f) => PMode::Fields(f@),
            LineMode::Skipping => PMode::Skipping,
        }
    }
}

/// The exec image of `PState`.
pub struct ParserState {
    pub in_tx: bool,
    pub pending: Vec<BinlogOperation>,
    pub emitted: Vec<BinlogOperation>,
    pub cur_ts: Option<String>,
    pub cur_pos: Option<u32>,
    pub mode: LineMode,
}

impl View for ParserState {
    type V = PState;

    open spec fn view(&self) -> PState {
        PState {
            in_tx: self.in_tx,
            pending: view_ops(self.pending@),
            emitted: view_ops(self.emitted@),
            cur_ts: view_opt_string(self.cur_ts),
            cur_pos: self.cur_pos,
            mode: self.mode@,
        }
    }
}

fn null_vec(n: usize) -> (r: Vec<String>)
    ensures
        view_string_seq(r@) == nulls(n as nat),
{
    let mut r: Vec<String> = Vec::new();
    let mut i: usize = 0;
    while i < n
        invariant
            i <= n,
            r@.len() == i,
            forall|j: int| 0 <= j < i ==> r@[j]@ == "NULL"@,
        decreases n - i,
    {
        let s: &str = "NULL";
        r.push(s.to_owned());
        i += 1;
    }
    proof {
        assert(view_string_seq(r@) =~= nulls(n as nat));
    }
    r
}

/// Handle one line in the scanning state.
fn scan_line(st: ParserState, l: &str, schema: &SchemaCache) -> (r: ParserState)
    requires
        schema.wf(),
    ensures
        r@ == scan_step(st@, l@, schema@),
        mode_lens_ok(r@),
{
    let ghost pre = st@;
    let ParserState { in_tx, mut pending, mut emitted, mut cur_ts, mut cur_pos, mode: _ } = st;
    if line_is_begin_exec(l) {
        let r = ParserState {
            in_tx: true,
            pending: Vec::new(),
            emitted,
            cur_ts,
            cur_pos,
            mode: LineMode::Scanning,
        };
        proof {
            assert(r@ =~~= scan_step(pre, l@, schema@));
        }
        return r;
    }
    if line_is_commit_exec(l) {
        if in_tx {
            let ghost before_emitted = view_ops(emitted@);
            emitted.append(&mut pending);
            proof {
                assert(view_ops(emitted@) =~= before_emitted + pre.pending);
            }
        }
        let r = ParserState {
            in_tx: false,
            pending: Vec::new(),
            emitted,
            cur_ts,
            cur_pos,
            mode: LineMode::Scanning,
        };
        proof {
            assert(r@ =~~= scan_step(pre, l@, schema@));
        }
        return r;
    }
    if line_is_rollback_exec(l) {
        if in_tx {
            pending = Vec::new();
        }
        let r = ParserState {
            in_tx: false,
            pending,
            emitted,
            cur_ts,
            cur_pos,
            mode: LineMode::Scanning,
        };
        proof {
            assert(r@ =~~= scan_step(pre, l@, schema@));
        }
        return r;
    }
    if let Some(t) = ts_capture_exec(l) {
        cur_ts = Some(t);
    }
    if let Some(p) = pos_capture_exec(l) {
        cur_pos = Some(p);
    }
    let mut mode = LineMode::Scanning;
    if let Some((kind, path)) = op_start_exec(l) {
        let (db, table) = extract_db_table_exec(path.as_str());
        let known = match schema.get(table.as_str()) {
            Some((cols, _)) => {
                if cols.len() > 0 {
                    Some(cols)
                } else {
                    None
                }
            },
            None => None,
        };
        match known {
            Some(cols) => {
                let n = cols.len();
                let before = null_vec(n);
                let after = null_vec(n);
                let in_set = match kind {
                    OperationType::Insert => true,
                    _ => false,
                };
                let timestamp = clone_opt_string(&cur_ts);
                mode = LineMode::Fields(
                    FieldsBuild {
                        kind,
                        database: db,
                        table,
                        columns: cols,
                        before,
                        after,
                        in_set,
                        timestamp,
                        position: cur_pos,
                    },
                );
            },
            None => {
                mode = LineMode::Skipping;
            },
        }
    }
    let r = ParserState { in_tx, pending, emitted, cur_ts, cur_pos, mode };
    proof {
        assert(r@ =~~= scan_step(pre, l@, schema@));
    }
    r
}

/// Close the operation being assembled and return to scanning.
fn finalize_exec(st: ParserState, f: FieldsBuild) -> (r: ParserState)
    ensures
        r@ == finalize(st@, f@),
{
    let ghost pre = st@;
    let ghost fm = f@;
    let mut st = st;
    st.mode = LineMode::Scanning;
    let FieldsBuild { kind, database, table, columns, before, after, in_set: _, timestamp, position } =
        f;
    let before_values = match kind {
        OperationType::Insert => None,
        _ => Some(before),
    };
    let after_values = match kind {
        OperationType::Delete => None,
        _ => Some(after),
    };
    let op = BinlogOperation {
        timestamp,
        position,
        operation_type: kind,
        table_name: table,
        database,
        columns,
        before_values,
        after_values,
    };
    proof {
        assert(op@ =~~= op_of_fields(fm));
    }
    if st.in_tx {
        st.pending.push(op);
        proof {
            assert(view_ops(st.pending@) =~~= pre.pending.push(op_of_fields(fm)));
        }
    }
    proof {
        assert(st@ =~~= finalize(pre, fm));
    }
    st
}

/// Handle one line from any state.
pub fn step_line(st: ParserState, l: &str, schema: &SchemaCache) -> (r: Result<
    ParserState,
    ParseError,
>)
    requires
        schema.wf(),
        mode_lens_ok(st@),
    ensures
        match r {
            Ok(s2) => step(st@, l@, schema@) == Some(s2@) && mode_lens_ok(s2@),
            Err(_) => step(st@, l@, schema@) is None,
        },
{
    let ghost pre = st@;
    let ParserState { in_tx, pending, emitted, cur_ts, cur_pos, mode } = st;
    let rest = ParserState { in_tx, pending, emitted, cur_ts, cur_pos, mode: LineMode::Scanning };
    match mode {
        LineMode::Scanning => Ok(scan_line(rest, l, schema)),
        LineMode::Skipping => {
            if !starts_hash3_exec(l) || has_op_marker_exec(l) {
                Ok(scan_line(rest, l, schema))
            } else {
                Ok(ParserState { mode: LineMode::Skipping, ..rest })
            }
        },
        LineMode::Fields(f) => {
            if !starts_hash3_exec(l) || has_op_marker_exec(l) {
                let st2 = finalize_exec(rest, f);
                Ok(scan_line(st2, l, schema))
            } else {
                let is_update = match f.kind {
                    OperationType::Update => true,
                    _ => false,
                };
                if is_update && !f.in_set && str_contains(l, "### SET") {
                    let f2 = FieldsBuild { in_set: true, ..f };
                    proof {
                        assert(f2@ =~~= FieldsModel { in_set: true, ..f@ });
                    }
                    Ok(ParserState { mode: LineMode::Fields(f2), ..rest })
                } else {
                    match col_val_capture_exec(l) {
                        None => Ok(ParserState { mode: LineMode::Fields(f), ..rest }),
                        Some((digits, v)) => {
                            proof {
                                assert(digits@.subrange(0, digits@.len() as int) =~= digits@);
                            }
                            let kv = match crate::strutil::parse_dec(
                                digits.as_str(),
                                0,
                                digits.unicode_len(),
                            ) {
                                Some(kv) => kv,
                                None => {
                                    proof {
                                        assert(dec_val(digits@) > usize::MAX);
                                    }
                                    return Err(ParseError);
                                },
                            };
                            if kv > (usize::MAX as u64) {
                                return Err(ParseError);
                            }
                            let k = kv as usize;
                            let mut f = f;
                            let ghost fpre = f@;
                            if 1 <= k && k <= f.columns.len() {
                                if f.in_set {
                                    f.after.set(k - 1, v);
                                } else {
                                    f.before.set(k - 1, v);
                                }
                            }
                            proof {
                                if 1 <= k && k <= fpre.columns.len() {
                                    if fpre.in_set {
                                        assert(view_string_seq(f.after@) =~= fpre.after.update(
                                            k - 1,
                                            v@,
                                        ));
                                    } else {
                                        assert(view_string_seq(f.before@) =~= fpre.before.update(
                                            k - 1,
                                            v@,
                                        ));
                                    }
                                }
                                assert(f@ =~~= fields_set(fpre, dec_val(digits@), v@));
                            }
                            Ok(ParserState { mode: LineMode::Fields(f), ..rest })
                        },
                    }
                }
            }
        },
    }
}

/// One scanning line preserves the parse invariant.
proof fn lemma_scan_preserves_wf(st: PState, l: Seq<char>, schema: Map<Seq<char>, SchemaModel>)
    requires
        state_wf(st),
    ensures
        state_wf(scan_step(st, l, schema)),
{
    let s2 = scan_step(st, l, schema);
    if line_is_begin(l) {
    } else if line_is_commit(l) {
        if st.in_tx {
            assert forall|i: int| 0 <= i < s2.emitted.len() implies wf_op(
                #[trigger] s2.emitted[i],
            ) by {
                if i < st.emitted.len() {
                } else {
                    assert(s2.emitted[i] == st.pending[i - st.emitted.len()]);
                }
            }
        }
    } else {
    }
}

/// One line of any kind preserves the parse invariant.
pub proof fn lemma_step_preserves_wf(
    st: PState,
    l: Seq<char>,
    schema: Map<Seq<char>, SchemaModel>,
    s2: PState,
)
    requires
        state_wf(st),
        step(st, l, schema) == Some(s2),
    ensures
        state_wf(s2),
{
    match st.mode {
        PMode::Scanning => {
            lemma_scan_preserves_wf(st, l, schema);
        },
        PMode::Skipping => {
            if !starts_hash3(l) || has_op_marker(l) {
                lemma_scan_preserves_wf(PState { mode: PMode::Scanning, ..st }, l, schema);
            }
        },
        PMode::Fields(f) => {
            if !starts_hash3(l) || has_op_marker(l) {
                let fin = finalize(st, f);
                assert(wf_op(op_of_fields(f)));
                assert(state_wf(fin));
                lemma_scan_preserves_wf(fin, l, schema);
            }
        },
    }
}

/// The whole pass preserves the parse invariant.
proof fn lemma_fold_preserves_wf(st: PState, lines: Seq<Seq<char>>, schema: Map<Seq<char>, SchemaModel>)
    requires
        state_wf(st),
    ensures
        parse_fold(st, lines, schema) matches Some(s2) ==> state_wf(s2),
    decreases lines.len(),
{
    if lines.len() > 0 {
        match step(st, lines[0], schema) {
            None => {},
            Some(m) => {
                lemma_step_preserves_wf(st, lines[0], schema, m);
                lemma_fold_preserves_wf(m, lines.drop_first(), schema);
            },
        }
    }
}

/// Only a COMMIT line ever extends the emitted stream.
pub proof fn lemma_step_emits_only_on_commit(
    st: PState,
    l: Seq<char>,
    schema: Map<Seq<char>, SchemaModel>,
)
    requires
        !line_is_commit(l),
    ensures
        step(st, l, schema) matches Some(s2) ==> s2.emitted == st.emitted,
{
}

/// A run of lines without a COMMIT contributes nothing to the emitted
/// stream, however it parses.
pub proof fn lemma_no_commit_no_emit(
    st: PState,
    lines: Seq<Seq<char>>,
    schema: Map<Seq<char>, SchemaModel>,
)
    requires
        forall|i: int| 0 <= i < lines.len() ==> !line_is_commit(#[trigger] lines[i]),
    ensures
        parse_fold(st, lines, schema) matches Some(s2) ==> s2.emitted == st.emitted,
    decreases lines.len(),
{
    if lines.len() > 0 {
        match step(st, lines[0], schema) {
            None => {},
            Some(m) => {
                lemma_step_emits_only_on_commit(st, lines[0], schema);
                assert(forall|i: int|
                    0 <= i < lines.drop_first().len() ==> !line_is_commit(
                        #[trigger] lines.drop_first()[i],
                    ));
                lemma_no_commit_no_emit(m, lines.drop_first(), schema);
            },
        }
    }
}

/// Splitting the pass at any point gives the same outcome.
proof fn lemma_fold_append(
    st: PState,
    a: Seq<Seq<char>>,
    b: Seq<Seq<char>>,
    schema: Map<Seq<char>, SchemaModel>,
)
    ensures
        parse_fold(st, a + b, schema) == (match parse_fold(st, a, schema) {
            None => None::<PState>,
            Some(m) => parse_fold(m, b, schema),
        }),
    decreases a.len(),
{
    if a.len() == 0 {
        assert(a + b =~= b);
    } else {
        assert((a + b)[0] == a[0]);
        match step(st, a[0], schema) {
            None => {},
            Some(m) => {
                assert((a + b).drop_first() =~= a.drop_first() + b);
                lemma_fold_append(m, a.drop_first(), b, schema);
            },
        }
    }
}

/// Processing a ROLLBACK line leaves the emitted stream alone, empties the
/// pending buffer and closes the transaction.
proof fn lemma_rollback_line(st: PState, l: Seq<char>, schema: Map<Seq<char>, SchemaModel>)
    requires
        state_wf(st),
        line_is_rollback(l),
    ensures
        step(st, l, schema) matches Some(s2) ==> s2.emitted == st.emitted && s2.pending.len() == 0
            && !s2.in_tx,
{
    reveal_strlit("ROLLBACK");
    reveal_strlit("BEGIN");
    reveal_strlit("COMMIT");
    reveal_strlit("###");
    crate::strutil::lemma_first_char(l, "ROLLBACK"@);
    assert(l[0] == 'R');
    assert(!line_is_begin(l)) by {
        if line_is_begin(l) {
            crate::strutil::lemma_first_char(l, "BEGIN"@);
        }
    }
    assert(!line_is_commit(l)) by {
        if line_is_commit(l) {
            crate::strutil::lemma_first_char(l, "COMMIT"@);
        }
    }
    assert(!starts_hash3(l)) by {
        if starts_hash3(l) {
            crate::strutil::lemma_first_char(l, "###"@);
        }
    }
    match st.mode {
        PMode::Scanning => {},
        PMode::Skipping => {},
        PMode::Fields(f) => {
            assert(step(st, l, schema) == Some(scan_step(finalize(st, f), l, schema)));
        },
    }
}

/// A rolled-back transaction contributes zero operations: a BEGIN line, any
/// body without a COMMIT, and a ROLLBACK line leave the emitted stream as it
/// was, with nothing pending and no transaction open.
pub proof fn lemma_rollback_discards(
    st: PState,
    begin_l: Seq<char>,
    body: Seq<Seq<char>>,
    rollback_l: Seq<char>,
    schema: Map<Seq<char>, SchemaModel>,
)
    requires
        state_wf(st),
        line_is_begin(begin_l),
        line_is_rollback(rollback_l),
        forall|i: int| 0 <= i < body.len() ==> !line_is_commit(#[trigger] body[i]),
    ensures
        parse_fold(st, seq![begin_l] + body + seq![rollback_l], schema) matches Some(s2)
            ==> s2.emitted == st.emitted && s2.pending.len() == 0 && !s2.in_tx,
{
    let prefix = seq![begin_l] + body;
    lemma_fold_append(st, prefix, seq![rollback_l], schema);
    match parse_fold(st, prefix, schema) {
        None => {},
        Some(m) => {
            assert(!line_is_commit(begin_l)) by {
                reveal_strlit("BEGIN");
                reveal_strlit("COMMIT");
                crate::strutil::lemma_first_char(begin_l, "BEGIN"@);
                if line_is_commit(begin_l) {
                    crate::strutil::lemma_first_char(begin_l, "COMMIT"@);
                }
            }
            assert forall|i: int| 0 <= i < prefix.len() implies !line_is_commit(
                #[trigger] prefix[i],
            ) by {
                if i > 0 {
                    assert(prefix[i] == body[i - 1]);
                }
            }
            lemma_no_commit_no_emit(st, prefix, schema);
            lemma_fold_preserves_wf(st, prefix, schema);
            lemma_rollback_line(m, rollback_l, schema);
            assert(parse_fold(m, seq![rollback_l], schema) == (match step(m, rollback_l, schema) {
                None => None::<PState>,
                Some(s2) => parse_fold(s2, seq![rollback_l].drop_first(), schema),
            }));
            assert(seq![rollback_l].drop_first() =~= Seq::<Seq<char>>::empty());
        },
    }
}

/// A committed transaction contributes exactly its buffered operations, in
/// the order they were encountered: a COMMIT line seen while scanning
/// appends the pending buffer to the emitted stream unchanged.
pub proof fn lemma_commit_flushes_pending(
    st: PState,
    l: Seq<char>,
    schema: Map<Seq<char>, SchemaModel>,
)
    requires
        line_is_commit(l),
        st.mode is Scanning,
    ensures
        step(st, l, schema) matches Some(s2) ==> s2.emitted == st.emitted + (if st.in_tx {
            st.pending
        } else {
            Seq::<OpModel>::empty()
        }) && s2.pending.len() == 0 && !s2.in_tx,
{
    assert(!line_is_begin(l)) by {
        reveal_strlit("BEGIN");
        reveal_strlit("COMMIT");
        crate::strutil::lemma_first_char(l, "COMMIT"@);
        if line_is_begin(l) {
            crate::strutil::lemma_first_char(l, "BEGIN"@);
        }
    }
    if !st.in_tx {
        assert(st.emitted + Seq::<OpModel>::empty() =~= st.emitted);
    }
}

/// Between the framing lines, a step appends at most one operation to the
/// pending buffer and leaves the earlier ones in place.
pub proof fn lemma_pending_grows_in_order(
    st: PState,
    l: Seq<char>,
    schema: Map<Seq<char>, SchemaModel>,
)
    requires
        !line_is_begin(l),
        !line_is_commit(l),
        !line_is_rollback(l),
    ensures
        step(st, l, schema) matches Some(s2) ==> s2.pending == st.pending || (s2.pending.len()
            == st.pending.len() + 1 && s2.pending.subrange(0, st.pending.len() as int)
            == st.pending),
{
    match step(st, l, schema) {
        None => {},
        Some(s2) => {
            if s2.pending.len() == st.pending.len() + 1 {
                assert(s2.pending.subrange(0, st.pending.len() as int) =~= st.pending);
            }
        },
    }
}

/// Parser for the text change-log format, produced with the server's verbose
/// row-decoding output. The table schemas are seeded from the store's
/// catalogue before parsing; an operation against a table with no known
/// columns is skipped.
pub struct TextBinlogParser {
    pub schema: SchemaCache,
}

impl View for TextBinlogParser {
    type V = Map<Seq<char>, SchemaModel>;

    open spec fn view(&self) -> Map<Seq<char>, SchemaModel> {
        self.schema@
    }
}

impl TextBinlogParser {
    pub open spec fn wf(&self) -> bool {
        self.schema.wf()
    }

    pub fn new() -> (r: TextBinlogParser)
        ensures
            r.wf(),
            r@ == Map::<Seq<char>, SchemaModel>::empty(),
    {
        TextBinlogParser { schema: SchemaCache::new() }
    }

    /// Seed the columns of one table, as the store's catalogue reported them.
    pub fn insert_schema(&mut self, table: String, columns: Vec<String>)
        requires
            old(self).wf(),
        ensures
            final(self).wf(),
            final(self)@ == if old(self)@.contains_key(table@) {
                old(self)@
            } else {
                old(self)@.insert(
                    table@,
                    SchemaModel {
                        columns: view_string_seq(columns@),
                        types: Seq::empty(),
                    },
                )
            },
    {
        let types: Vec<String> = Vec::new();
        proof {
            assert(view_string_seq(types@) =~= Seq::<Seq<char>>::empty());
        }
        self.schema.insert(table, columns, types)
    }

    /// Parse the whole log, one line per entry, into the committed operation
    /// stream.
    pub fn parse_lines(&self, lines: &Vec<String>) -> (r: Result<
        Vec<BinlogOperation>,
        ParseError,
    >)
        requires
            self.wf(),
        ensures
            match r {
                Ok(ops) => parse_result(view_string_seq(lines@), self@) == Some(view_ops(ops@))
                    && forall|i: int|
                    0 <= i < ops@.len() ==> wf_op(#[trigger] view_ops(ops@)[i]),
                Err(_) => parse_result(view_string_seq(lines@), self@) is None,
            },
    {
        let ghost vl = view_string_seq(lines@);
        let mut st = ParserState {
            in_tx: false,
            pending: Vec::new(),
            emitted: Vec::new(),
            cur_ts: None,
            cur_pos: None,
            mode: LineMode::Scanning,
        };
        proof {
            assert(st@ =~~= init_state());
            assert(vl.skip(0) =~= vl);
        }
        let n = lines.len();
        let mut i: usize = 0;
        while i < n
            invariant
                self.wf(),
                n == lines@.len(),
                vl == view_string_seq(lines@),
                i <= n,
                parse_fold(st@, vl.skip(i as int), self@) == parse_fold(init_state(), vl, self@),
                state_wf(st@),
            decreases n - i,
        {
            let ghost pre = st@;
            proof {
                assert(vl.skip(i as int)[0] == lines@[i as int]@);
                assert(vl.skip(i as int).drop_first() =~= vl.skip(i + 1));
            }
            let s2 = match step_line(st, lines[i].as_str(), &self.schema) {
                Ok(s2) => s2,
                Err(e) => {
                    return Err(e);
                },
            };
            proof {
                lemma_step_preserves_wf(pre, lines@[i as int]@, self@, s2@);
            }
            st = s2;
            i += 1;
        }
        proof {
            assert(vl.skip(n as int) =~= Seq::<Seq<char>>::empty());
            assert(parse_fold(st@, vl.skip(n as int), self@) == Some(st@));
        }
        let ParserState { emitted, .. } = st;
        Ok(emitted)
    }
}

} // verus!
