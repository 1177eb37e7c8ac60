//! Statements built from rows decoded out of the binary change log. The
//! binary decoding itself happens outside the library; values arrive here in
//! their rendered debug form and are turned into SQL literals and UPDATE
//! statements.

use vstd::prelude::*;
use crate::applier::{join, join_strings};
use crate::operation::view_string_seq;
use crate::strutil::{starts_with, str_eq, str_starts_with, substr_string};

verus! {

/// Every single quote doubled, as SQL string syntax asks.
pub open spec fn escape_quotes(s: Seq<char>) -> Seq<char>
    decreases s.len(),
{
    if s.len() == 0 {
        Seq::empty()
    } else if s[0] == '\'' {
        seq!['\'', '\''] + escape_quotes(s.drop_first())
    } else {
        seq![s[0]] + escape_quotes(s.drop_first())
    }
}

/// The rendered value stripped of a `Some(...)` wrapper, if it has one.
pub open spec fn strip_some(s: Seq<char>) -> Seq<char> {
    if starts_with(s, "Some("@) && s.len() > 5 && s.last() == ')' {
        s.subrange(5, s.len() - 1)
    } else {
        s
    }
}

/// The SQL literal for one rendered value: absent values become NULL, a
/// debug-quoted string loses its double quotes, and everything is wrapped in
/// single quotes with inner quotes escaped.
pub open spec fn value_to_sql_spec(s: Seq<char>) -> Seq<char> {
    if s == "None"@ || s == "Null"@ {
        "NULL"@
    } else {
        let t = strip_some(s);
        if t.len() >= 2 && t[0] == '"' && t.last() == '"' {
            "'"@ + escape_quotes(t.subrange(1, t.len() - 1)) + "'"@
        } else {
            "'"@ + escape_quotes(t) + "'"@
        }
    }
}

proof fn lemma_escape_push(s: Seq<char>, c: char)
    ensures
        escape_quotes(s.push(c)) == escape_quotes(s) + (if c == '\'' {
            seq!['\'', '\'']
        } else {
            seq![c]
        }),
    decreases s.len(),
{
    if s.len() == 0 {
        assert(s.push(c).len() == 1);
        assert(s.push(c)[0] == c);
        assert(s.push(c).drop_first() =~= Seq::<char>::empty());
        assert(escape_quotes(Seq::<char>::empty()) == Seq::<char>::empty());
        assert(escape_quotes(s.push(c)) =~= escape_quotes(s) + (if c == '\'' {
            seq!['\'', '\'']
        } else {
            seq![c]
        }));
    } else {
        lemma_escape_push(s.drop_first(), c);
        assert(s.push(c).drop_first() =~= s.drop_first().push(c));
        assert(s.push(c)[0] == s[0]);
        if s[0] == '\'' {
            assert(escape_quotes(s.push(c)) =~= escape_quotes(s) + (if c == '\'' {
                seq!['\'', '\'']
            } else {
                seq![c]
            }));
        } else {
            assert(escape_quotes(s.push(c)) =~= escape_quotes(s) + (if c == '\'' {
                seq!['\'', '\'']
            } else {
                seq![c]
            }));
        }
    }
}

/// Append `s[from..to]` with single quotes doubled.
fn append_escaped(out: &mut String, s: &str, from: usize, to: usize)
    requires
        from <= to <= s@.len(),
    ensures
        final(out)@ == old(out)@ + escape_quotes(s@.subrange(from as int, to as int)),
{
    let ghost seg = s@.subrange(from as int, to as int);
    let mut i: usize = from;
    proof {
        assert(seg.take(0) =~= Seq::<char>::empty());
        assert(old(out)@ + escape_quotes(seg.take(0)) =~= old(out)@);
    }
    while i < to
        invariant
            from <= i <= to <= s@.len(),
            seg == s@.subrange(from as int, to as int),
            out@ == old(out)@ + escape_quotes(seg.take(i - from)),
        decreases to - i,
    {
        let c = s.get_char(i);
        if c == '\'' {
            out.append("''");
        } else {
            let one = substr_string(s, i, i + 1);
            out.append(one.as_str());
        }
        proof {
            reveal_strlit("''");
            assert(seg.take(i - from + 1) =~= seg.take(i - from).push(seg[i - from]));
            assert(seg[i - from] == s@[i as int]);
            lemma_escape_push(seg.take(i - from), s@[i as int]);
            if c == '\'' {
                assert("''"@ =~= seq!['\'', '\'']);
            } else {
                assert(s@.subrange(i as int, i + 1) =~= seq![s@[i as int]]);
            }
            assert(out@ =~= old(out)@ + escape_quotes(seg.take(i - from + 1)));
        }
        i += 1;
    }
    proof {
        assert(seg.take((to - from) as int) =~= seg);
    }
}

/// The SQL literal for one value rendered in debug form.
pub fn value_to_sql(debug_str: &str) -> (r: String)
    ensures
        r@ == value_to_sql_spec(debug_str@),
{
    if str_eq(debug_str, "None") || str_eq(debug_str, "Null") {
        let s: &str = "NULL";
        return s.to_owned();
    }
    let n = debug_str.unicode_len();
    let (from, to): (usize, usize) = if str_starts_with(debug_str, "Some(") && n > 5
        && debug_str.get_char(n - 1) == ')' {
        proof {
            reveal_strlit("Some(");
        }
        (5, n - 1)
    } else {
        proof {
            reveal_strlit("Some(");
        }
        (0, n)
    };
    let ghost t = strip_some(debug_str@);
    proof {
        assert(t =~= debug_str@.subrange(from as int, to as int));
    }
    let mut out = String::new();
    out.append("'");
    if to - from >= 2 && debug_str.get_char(from) == '"' && debug_str.get_char(to - 1) == '"' {
        append_escaped(&mut out, debug_str, from + 1, to - 1);
        proof {
            assert(debug_str@.subrange(from + 1, to - 1) =~= t.subrange(1, t.len() - 1));
        }
    } else {
        append_escaped(&mut out, debug_str, from, to);
    }
    out.append("'");
    out
}

/// One `col = literal` fragment of the SET clause for every column whose
/// rendered value changed, in column order.
pub open spec fn changed_set_parts(
    cols: Seq<Seq<char>>,
    before: Seq<Seq<char>>,
    after: Seq<Seq<char>>,
    i: int,
) -> Seq<Seq<char>>
    decreases cols.len() - i,
{
    if i < 0 || i >= cols.len() || i >= after.len() {
        Seq::empty()
    } else if before[i] != after[i] {
        seq![cols[i] + " = "@ + value_to_sql_spec(after[i])] + changed_set_parts(
            cols,
            before,
            after,
            i + 1,
        )
    } else {
        changed_set_parts(cols, before, after, i + 1)
    }
}

/// One WHERE fragment per column: `col IS NULL` for absent values, else
/// `col = literal`.
pub open spec fn null_aware_where_parts(
    cols: Seq<Seq<char>>,
    before: Seq<Seq<char>>,
) -> Seq<Seq<char>> {
    Seq::new(
        if cols.len() <= before.len() {
            cols.len()
        } else {
            before.len()
        },
        |i: int|
            if before[i] == "None"@ || before[i] == "Null"@ {
                cols[i] + " IS NULL"@
            } else {
                cols[i] + " = "@ + value_to_sql_spec(before[i])
            },
    )
}

pub open spec fn update_sql_from_rendered(
    table: Seq<char>,
    cols: Seq<Seq<char>>,
    before: Seq<Seq<char>>,
    after: Seq<Seq<char>>,
) -> Seq<char> {
    "UPDATE "@ + table + " SET "@ + join(changed_set_parts(cols, before, after, 0), ", "@)
        + " WHERE "@ + join(null_aware_where_parts(cols, before), " AND "@)
}

/// The UPDATE statement for one decoded row pair: the SET clause lists only
/// the columns whose rendered value changed; the WHERE clause identifies the
/// row by every column of the before image, with absent values matched by
/// `IS NULL`. Values are compared and rendered in their debug form.
pub fn build_update_sql(
    table_name: &str,
    column_names: &Vec<String>,
    before_values: &Vec<String>,
    after_values: &Vec<String>,
) -> (r: String)
    requires
        before_values@.len() >= if column_names@.len() <= after_values@.len() {
            column_names@.len()
        } else {
            after_values@.len()
        },
    ensures
        r@ == update_sql_from_rendered(
            table_name@,
            view_string_seq(column_names@),
            view_string_seq(before_values@),
            view_string_seq(after_values@),
        ),
{
    let ghost vc = view_string_seq(column_names@);
    let ghost vb = view_string_seq(before_values@);
    let ghost va = view_string_seq(after_values@);
    let n = if column_names.len() <= after_values.len() {
        column_names.len()
    } else {
        after_values.len()
    };
    let mut set_parts: Vec<String> = Vec::new();
    let mut i: usize = 0;
    while i < n
        invariant
            n == if vc.len() <= va.len() {
                vc.len()
            } else {
                va.len()
            },
            vb.len() >= n,
            vc == view_string_seq(column_names@),
            vb == view_string_seq(before_values@),
            va == view_string_seq(after_values@),
            i <= n,
            view_string_seq(set_parts@) + changed_set_parts(vc, vb, va, i as int)
                == changed_set_parts(vc, vb, va, 0),
        decreases n - i,
    {
        let ghost pre = view_string_seq(set_parts@);
        if !str_eq(before_values[i].as_str(), after_values[i].as_str()) {
            let mut part = column_names[i].clone();
            part.append(" = ");
            let lit = value_to_sql(after_values[i].as_str());
            part.append(lit.as_str());
            set_parts.push(part);
            proof {
                assert(view_string_seq(set_parts@) =~= pre.push(
                    vc[i as int] + " = "@ + value_to_sql_spec(va[i as int]),
                ));
                assert(pre.push(vc[i as int] + " = "@ + value_to_sql_spec(va[i as int]))
                    + changed_set_parts(vc, vb, va, i + 1) =~= pre + changed_set_parts(
                    vc,
                    vb,
                    va,
                    i as int,
                ));
            }
        }
        i += 1;
    }
    proof {
        assert(changed_set_parts(vc, vb, va, n as int) =~= Seq::<Seq<char>>::empty());
        assert(view_string_seq(set_parts@) + changed_set_parts(vc, vb, va, n as int)
            =~= view_string_seq(set_parts@));
    }
    let m = if column_names.len() <= before_values.len() {
        column_names.len()
    } else {
        before_values.len()
    };
    let mut where_parts: Vec<String> = Vec::new();
    let mut j: usize = 0;
    while j < m
        invariant
            m == if vc.len() <= vb.len() {
                vc.len()
            } else {
                vb.len()
            },
            vc == view_string_seq(column_names@),
            vb == view_string_seq(before_values@),
            j <= m,
            where_parts@.len() == j,
            forall|a: int|
                0 <= a < j ==> where_parts@[a]@ == null_aware_where_parts(vc, vb)[a],
        decreases m - j,
    {
        let mut part = column_names[j].clone();
        if str_eq(before_values[j].as_str(), "None") || str_eq(before_values[j].as_str(), "Null") {
            part.append(" IS NULL");
        } else {
            part.append(" = ");
            let lit = value_to_sql(before_values[j].as_str());
            part.append(lit.as_str());
        }
        where_parts.push(part);
        j += 1;
    }
    proof {
        assert(view_string_seq(where_parts@) =~= null_aware_where_parts(vc, vb));
    }
    let sets_joined = join_strings(&set_parts, ", ");
    let wheres_joined = join_strings(&where_parts, " AND ");
    let mut out = String::new();
    out.append("UPDATE ");
    out.append(table_name);
    out.append(" SET ");
    out.append(sets_joined.as_str());
    out.append(" WHERE ");
    out.append(wheres_joined.as_str());
    out
}

} // verus!
