//! The change log's line grammar: header, transaction-framing, operation
//! start and column-value lines. Every matcher is anchored at line start
//! except the position capture, which finds its leftmost occurrence.

use vstd::prelude::*;
use crate::operation::OperationType;
use crate::strutil::{
    all_digits, contains_seq, dec_val, find_char, find_from, first_index_from,
    lemma_first_index_found, is_digit, is_space, match_at, parse_dec, starts_with,
    str_starts_with, substr_string,
};

verus! {

/// End of the whitespace run starting at `i`.
pub open spec fn ws_end(l: Seq<char>, i: int) -> int
    decreases l.len() - i,
{
    if i < 0 || i >= l.len() {
        i
    } else if is_space(l[i]) {
        ws_end(l, i + 1)
    } else {
        i
    }
}

/// End of the digit run starting at `i`.
pub open spec fn dig_end(l: Seq<char>, i: int) -> int
    decreases l.len() - i,
{
    if i < 0 || i >= l.len() {
        i
    } else if is_digit(l[i]) {
        dig_end(l, i + 1)
    } else {
        i
    }
}

pub open spec fn line_is_begin(l: Seq<char>) -> bool {
    starts_with(l, "BEGIN"@)
}

pub open spec fn line_is_commit(l: Seq<char>) -> bool {
    starts_with(l, "COMMIT"@)
}

pub open spec fn line_is_rollback(l: Seq<char>) -> bool {
    starts_with(l, "ROLLBACK"@)
}

pub open spec fn starts_hash3(l: Seq<char>) -> bool {
    starts_with(l, "###"@)
}

/// A line that begins a new operation anywhere in its text ends the image
/// section being read.
pub open spec fn has_op_marker(l: Seq<char>) -> bool {
    ||| contains_seq(l, "### UPDATE"@)
    ||| contains_seq(l, "### INSERT INTO"@)
    ||| contains_seq(l, "### DELETE FROM"@)
}

/// The time-of-day part of an event header at position `w`: one or two hour
/// digits, then `:MM:SS`; text after the seconds is ignored.
pub open spec fn time_match(l: Seq<char>, w: int) -> Option<Seq<char>> {
    if w + 8 <= l.len() && is_digit(l[w]) && is_digit(l[w + 1]) && l[w + 2] == ':' && is_digit(
        l[w + 3],
    ) && is_digit(l[w + 4]) && l[w + 5] == ':' && is_digit(l[w + 6]) && is_digit(l[w + 7]) {
        Some(l.subrange(w, w + 8))
    } else if w + 7 <= l.len() && is_digit(l[w]) && l[w + 1] == ':' && is_digit(l[w + 2])
        && is_digit(l[w + 3]) && l[w + 4] == ':' && is_digit(l[w + 5]) && is_digit(l[w + 6]) {
        Some(l.subrange(w, w + 7))
    } else {
        None
    }
}

/// An event-header line `#YYMMDD HH:MM:SS ...` yields "YYMMDD HH:MM:SS",
/// which stamps the operations that follow.
pub open spec fn ts_capture(l: Seq<char>) -> Option<Seq<char>> {
    if l.len() < 7 || l[0] != '#' || !all_digits(l.subrange(1, 7)) {
        None
    } else {
        let w = ws_end(l, 7);
        if w == 7 {
            None
        } else {
            match time_match(l, w) {
                None => None,
                Some(t) => Some(l.subrange(1, 7) + " "@ + t),
            }
        }
    }
}

/// `end_log_pos` followed by whitespace and digits occurs in full at `i`.
pub open spec fn pos_match_full(l: Seq<char>, i: int) -> bool {
    &&& match_at(l, "end_log_pos"@, i)
    &&& ws_end(l, i + 11) > i + 11
    &&& dig_end(l, ws_end(l, i + 11)) > ws_end(l, i + 11)
}

/// The leftmost full position match at or after `from`, or -1.
pub open spec fn first_pos_match(l: Seq<char>, from: int) -> int
    decreases l.len() - from,
{
    if from < 0 || from >= l.len() {
        -1
    } else if pos_match_full(l, from) {
        from
    } else {
        first_pos_match(l, from + 1)
    }
}

/// The byte offset captured from the leftmost `end_log_pos N` occurrence;
/// `None` when there is none or its digits overflow the position type, in
/// which case the previously seen position stays in force.
pub open spec fn pos_capture(l: Seq<char>) -> Option<u32> {
    let m = first_pos_match(l, 0);
    if m < 0 {
        None
    } else {
        let w = ws_end(l, m + 11);
        let de = dig_end(l, w);
        let v = dec_val(l.subrange(w, de));
        if v <= u32::MAX {
            Some(v as u32)
        } else {
            None
        }
    }
}

/// What follows an operation keyword: at least one whitespace character,
/// then the rest of the line; a line of trailing whitespace keeps its last
/// whitespace character as the capture.
pub open spec fn rest_capture(l: Seq<char>, p: int) -> Option<Seq<char>> {
    let w = ws_end(l, p);
    if w == p {
        None
    } else if w < l.len() {
        Some(l.subrange(w, l.len() as int))
    } else if w - 1 > p {
        Some(l.subrange(l.len() - 1, l.len() as int))
    } else {
        None
    }
}

/// An operation-start line: `### UPDATE`, `### INSERT INTO` or
/// `### DELETE FROM` at line start, with the table path captured.
pub open spec fn op_start(l: Seq<char>) -> Option<(OperationType, Seq<char>)> {
    if starts_with(l, "### UPDATE"@) {
        match rest_capture(l, 10) {
            Some(c) => Some((OperationType::Update, c)),
            None => None,
        }
    } else if starts_with(l, "### INSERT INTO"@) {
        match rest_capture(l, 15) {
            Some(c) => Some((OperationType::Insert, c)),
            None => None,
        }
    } else if starts_with(l, "### DELETE FROM"@) {
        match rest_capture(l, 15) {
            Some(c) => Some((OperationType::Delete, c)),
            None => None,
        }
    } else {
        None
    }
}

/// A column-value line `###   @K=V`: the 1-based column index digits and the
/// already-literal value text.
pub open spec fn col_val_capture(l: Seq<char>) -> Option<(Seq<char>, Seq<char>)> {
    if !starts_hash3(l) {
        None
    } else {
        let w = ws_end(l, 3);
        if w == 3 || w >= l.len() || l[w] != '@' {
            None
        } else {
            let de = dig_end(l, w + 1);
            if de == w + 1 || de >= l.len() || l[de] != '=' {
                None
            } else {
                Some((l.subrange(w + 1, de), l.subrange(de + 1, l.len() as int)))
            }
        }
    }
}

/// A backtick-quoted identifier pair starts at `i`.
pub open spec fn tn_match_at(l: Seq<char>, i: int) -> bool {
    let j = first_index_from(l, '`', i + 1);
    let k = first_index_from(l, '`', j + 3);
    &&& 0 <= i < l.len()
    &&& l[i] == '`'
    &&& j > i + 1
    &&& j + 2 < l.len()
    &&& l[j + 1] == '.'
    &&& l[j + 2] == '`'
    &&& k > j + 3
}

pub open spec fn first_tn_match(l: Seq<char>, from: int) -> int
    decreases l.len() - from,
{
    if from < 0 || from >= l.len() {
        -1
    } else if tn_match_at(l, from) {
        from
    } else {
        first_tn_match(l, from + 1)
    }
}

/// Split a table path on its first `` `db`.`tbl` `` pair; without one, the
/// database is empty and the whole path is the table name.
pub open spec fn extract_db_table(p: Seq<char>) -> (Seq<char>, Seq<char>) {
    let i = first_tn_match(p, 0);
    if i < 0 {
        (Seq::<char>::empty(), p)
    } else {
        let j = first_index_from(p, '`', i + 1);
        let k = first_index_from(p, '`', j + 3);
        (p.subrange(i + 1, j), p.subrange(j + 3, k))
    }
}

/// End of the whitespace run starting at `i`.
pub fn ws_end_exec(l: &str, i: usize) -> (r: usize)
    requires
        i <= l@.len(),
    ensures
        r == ws_end(l@, i as int),
        i <= r <= l@.len(),
{
    let n = l.unicode_len();
    let mut j: usize = i;
    while j < n
        invariant
            n == l@.len(),
            i <= j <= n,
            ws_end(l@, i as int) == ws_end(l@, j as int),
        decreases n - j,
    {
        let c = l.get_char(j);
        if !(c == ' ' || c == '\t' || c == '\n' || c == '\r' || c == '\u{b}' || c == '\u{c}') {
            return j;
        }
        j += 1;
    }
    j
}

/// End of the digit run starting at `i`.
pub fn dig_end_exec(l: &str, i: usize) -> (r: usize)
    requires
        i <= l@.len(),
    ensures
        r == dig_end(l@, i as int),
        i <= r <= l@.len(),
        forall|k: int| i <= k < r ==> is_digit(#[trigger] l@[k]),
{
    let n = l.unicode_len();
    let mut j: usize = i;
    while j < n
        invariant
            n == l@.len(),
            i <= j <= n,
            dig_end(l@, i as int) == dig_end(l@, j as int),
            forall|k: int| i <= k < j ==> is_digit(#[trigger] l@[k]),
        decreases n - j,
    {
        let c = l.get_char(j);
        if !('0' <= c && c <= '9') {
            return j;
        }
        j += 1;
    }
    j
}

/// The event-header timestamp capture, "YYMMDD HH:MM:SS".
pub fn ts_capture_exec(l: &str) -> (r: Option<String>)
    ensures
        match r {
            Some(s) => ts_capture(l@) == Some(s@),
            None => ts_capture(l@) is None,
        },
{
    let n = l.unicode_len();
    if n < 7 {
        return None;
    }
    if l.get_char(0) != '#' {
        return None;
    }
    if !check_digits_at(l, 1, 7) {
        return None;
    }
    let w = ws_end_exec(l, 7);
    if w == 7 {
        return None;
    }
    let t_end: usize = if n - w >= 8 && is_digit_at(l, w) && is_digit_at(l, w + 1) && l.get_char(
        w + 2,
    ) == ':' && is_digit_at(l, w + 3) && is_digit_at(l, w + 4) && l.get_char(w + 5) == ':'
        && is_digit_at(l, w + 6) && is_digit_at(l, w + 7) {
        w + 8
    } else if n - w >= 7 && is_digit_at(l, w) && l.get_char(w + 1) == ':' && is_digit_at(l, w + 2)
        && is_digit_at(l, w + 3) && l.get_char(w + 4) == ':' && is_digit_at(l, w + 5)
        && is_digit_at(l, w + 6) {
        w + 7
    } else {
        return None;
    };
    let mut out = substr_string(l, 1, 7);
    out.append(" ");
    let time = substr_string(l, w, t_end);
    out.append(time.as_str());
    proof {
        assert(time_match(l@, w as int) == Some(l@.subrange(w as int, t_end as int)));
        assert(out@ == l@.subrange(1, 7) + " "@ + l@.subrange(w as int, t_end as int));
    }
    Some(out)
}

fn is_digit_at(l: &str, i: usize) -> (r: bool)
    requires
        i < l@.len(),
    ensures
        r == is_digit(l@[i as int]),
{
    let c = l.get_char(i);
    '0' <= c && c <= '9'
}

fn check_digits_at(l: &str, from: usize, to: usize) -> (r: bool)
    requires
        from <= to <= l@.len(),
    ensures
        r == all_digits(l@.subrange(from as int, to as int)),
{
    let e = crate::strutil::digit_run_end(l, from);
    if e >= to {
        proof {
            assert forall|k: int| 0 <= k < to - from implies is_digit(
                #[trigger] l@.subrange(from as int, to as int)[k],
            ) by {
                assert(l@.subrange(from as int, to as int)[k] == l@[from + k]);
            }
        }
        true
    } else {
        proof {
            assert(!is_digit(l@.subrange(from as int, to as int)[e - from])) by {
                assert(l@.subrange(from as int, to as int)[e - from] == l@[e as int]);
            }
        }
        false
    }
}

proof fn lemma_first_pos_skip(l: Seq<char>, a: int, b: int)
    requires
        0 <= a <= b,
        forall|j: int| a <= j < b ==> !pos_match_full(l, j),
    ensures
        first_pos_match(l, a) == first_pos_match(l, b),
    decreases b - a,
{
    if a < b {
        lemma_first_pos_skip(l, a + 1, b);
    }
}

/// The position capture of an event line, if its digits fit.
pub fn pos_capture_exec(l: &str) -> (r: Option<u32>)
    ensures
        r == pos_capture(l@),
{
    let n = l.unicode_len();
    let mut from: usize = 0;
    loop
        invariant
            n == l@.len(),
            from <= n,
            first_pos_match(l@, 0) == first_pos_match(l@, from as int),
        decreases n - from,
    {
        let i = match find_from(l, "end_log_pos", from) {
            Some(i) => i,
            None => {
                proof {
                    assert forall|j: int| from <= j implies !pos_match_full(l@, j) by {
                        if j < l@.len() {
                            assert(!match_at(l@, "end_log_pos"@, j)) by {
                                reveal_strlit("end_log_pos");
                            }
                        }
                    }
                    lemma_first_pos_skip(l@, from as int, n as int);
                }
                return None;
            },
        };
        proof {
            reveal_strlit("end_log_pos");
            assert forall|j: int| from <= j < i implies !pos_match_full(l@, j) by {
                assert(!match_at(l@, "end_log_pos"@, j));
            }
            lemma_first_pos_skip(l@, from as int, i as int);
        }
        proof {
            reveal_strlit("end_log_pos");
            assert(i + 11 <= n);
        }
        let w = ws_end_exec(l, i + 11);
        if w > i + 11 {
            let de = dig_end_exec(l, w);
            if de > w {
                proof {
                    assert(pos_match_full(l@, i as int));
                    assert(first_pos_match(l@, i as int) == i);
                }
                let v = match parse_dec(l, w, de) {
                    Some(v) => v,
                    None => {
                        return None;
                    },
                };
                if v <= 0xffff_ffff {
                    return Some(v as u32);
                } else {
                    return None;
                }
            }
        }
        proof {
            assert(!pos_match_full(l@, i as int));
            lemma_first_pos_skip(l@, i as int, i + 1);
        }
        from = i + 1;
    }
}

fn rest_capture_exec(l: &str, p: usize) -> (r: Option<String>)
    requires
        p <= l@.len(),
    ensures
        match r {
            Some(s) => rest_capture(l@, p as int) == Some(s@),
            None => rest_capture(l@, p as int) is None,
        },
{
    let n = l.unicode_len();
    let w = ws_end_exec(l, p);
    if w == p {
        None
    } else if w < n {
        Some(substr_string(l, w, n))
    } else if w - 1 > p {
        Some(substr_string(l, n - 1, n))
    } else {
        None
    }
}

/// Which operation a line starts, with its captured table path.
pub fn op_start_exec(l: &str) -> (r: Option<(OperationType, String)>)
    ensures
        match r {
            Some(p) => op_start(l@) == Some((p.0, p.1@)),
            None => op_start(l@) is None,
        },
{
    if str_starts_with(l, "### UPDATE") {
        proof {
            reveal_strlit("### UPDATE");
        }
        match rest_capture_exec(l, 10) {
            Some(c) => Some((OperationType::Update, c)),
            None => None,
        }
    } else if str_starts_with(l, "### INSERT INTO") {
        proof {
            reveal_strlit("### INSERT INTO");
        }
        match rest_capture_exec(l, 15) {
            Some(c) => Some((OperationType::Insert, c)),
            None => None,
        }
    } else if str_starts_with(l, "### DELETE FROM") {
        proof {
            reveal_strlit("### DELETE FROM");
        }
        match rest_capture_exec(l, 15) {
            Some(c) => Some((OperationType::Delete, c)),
            None => None,
        }
    } else {
        None
    }
}

/// The column index digits and value of a `###   @K=V` line.
pub fn col_val_capture_exec(l: &str) -> (r: Option<(String, String)>)
    ensures
        match r {
            Some(p) => col_val_capture(l@) == Some((p.0@, p.1@)) && all_digits(p.0@)
                && p.0@.len() > 0,
            None => col_val_capture(l@) is None,
        },
{
    if !str_starts_with(l, "###") {
        return None;
    }
    let n = l.unicode_len();
    proof {
        reveal_strlit("###");
    }
    let w = ws_end_exec(l, 3);
    if w == 3 || w >= n || l.get_char(w) != '@' {
        return None;
    }
    let de = dig_end_exec(l, w + 1);
    if de == w + 1 || de >= n || l.get_char(de) != '=' {
        return None;
    }
    let digits = substr_string(l, w + 1, de);
    proof {
        assert forall|k: int| 0 <= k < digits@.len() implies is_digit(#[trigger] digits@[k]) by {
            assert(digits@[k] == l@[w + 1 + k]);
        }
    }
    Some((digits, substr_string(l, de + 1, n)))
}

proof fn lemma_first_tn_skip(l: Seq<char>, a: int, b: int)
    requires
        0 <= a <= b,
        forall|j: int| a <= j < b ==> !tn_match_at(l, j),
    ensures
        first_tn_match(l, a) == first_tn_match(l, b),
    decreases b - a,
{
    if a < b {
        lemma_first_tn_skip(l, a + 1, b);
    }
}

/// The database and table of a backtick-quoted identifier pair; without one,
/// an empty database and the whole path.
pub fn extract_db_table_exec(p: &str) -> (r: (String, String))
    ensures
        (r.0@, r.1@) == extract_db_table(p@),
{
    let n = p.unicode_len();
    let mut from: usize = 0;
    loop
        invariant
            n == p@.len(),
            from <= n,
            first_tn_match(p@, 0) == first_tn_match(p@, from as int),
        decreases n - from,
    {
        let i = match find_char(p, '`', from) {
            Some(i) => i,
            None => {
                proof {
                    assert forall|j2: int| from <= j2 implies !tn_match_at(p@, j2) by {
                        if j2 < p@.len() {
                            lemma_first_index_found(p@, '`', from as int, j2);
                        }
                    }
                    lemma_first_tn_skip(p@, from as int, n as int);
                }
                return (String::new(), p.to_owned());
            },
        };
        proof {
            assert forall|j2: int| from <= j2 < i implies !tn_match_at(p@, j2) by {
                lemma_first_index_found(p@, '`', from as int, j2);
            }
            lemma_first_tn_skip(p@, from as int, i as int);
        }
        match tn_check_at(p, i) {
            Some((j, k)) => {
                proof {
                    assert(first_tn_match(p@, i as int) == i);
                }
                return (substr_string(p, i + 1, j), substr_string(p, j + 3, k));
            },
            None => {
                proof {
                    lemma_first_tn_skip(p@, i as int, i + 1);
                }
                from = i + 1;
            },
        }
    }
}

/// Check one candidate start for the backtick-quoted identifier pair; on a
/// match, the positions of the closing backticks of the two identifiers.
fn tn_check_at(p: &str, i: usize) -> (r: Option<(usize, usize)>)
    requires
        i < p@.len(),
    ensures
        match r {
            Some((j, k)) => tn_match_at(p@, i as int) && j == first_index_from(p@, '`', i + 1)
                && k == first_index_from(p@, '`', j + 3) && i + 1 <= j && j + 3 <= k < p@.len(),
            None => !tn_match_at(p@, i as int),
        },
{
    let n = p.unicode_len();
    if p.get_char(i) != '`' {
        return None;
    }
    let j = match find_char(p, '`', i + 1) {
        Some(j) => j,
        None => {
            return None;
        },
    };
    if !(j > i + 1 && n - j > 2 && p.get_char(j + 1) == '.' && p.get_char(j + 2) == '`') {
        return None;
    }
    let k = match find_char(p, '`', j + 3) {
        Some(k) => k,
        None => {
            return None;
        },
    };
    if k > j + 3 {
        Some((j, k))
    } else {
        None
    }
}

pub fn line_is_begin_exec(l: &str) -> (r: bool)
    ensures
        r == line_is_begin(l@),
{
    str_starts_with(l, "BEGIN")
}

pub fn line_is_commit_exec(l: &str) -> (r: bool)
    ensures
        r == line_is_commit(l@),
{
    str_starts_with(l, "COMMIT")
}

pub fn line_is_rollback_exec(l: &str) -> (r: bool)
    ensures
        r == line_is_rollback(l@),
{
    str_starts_with(l, "ROLLBACK")
}

pub fn starts_hash3_exec(l: &str) -> (r: bool)
    ensures
        r == starts_hash3(l@),
{
    str_starts_with(l, "###")
}

pub fn has_op_marker_exec(l: &str) -> (r: bool)
    ensures
        r == has_op_marker(l@),
{
    crate::strutil::str_contains(l, "### UPDATE") || crate::strutil::str_contains(
        l,
        "### INSERT INTO",
    ) || crate::strutil::str_contains(l, "### DELETE FROM")
}

} // verus!
