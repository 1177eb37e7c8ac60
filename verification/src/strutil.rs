//! Verified character-level string utilities: prefix and substring matching,
//! decimal parsing, and substring extraction. These are the building blocks of
//! the change-log line grammar.

use vstd::prelude::*;

verus! {

pub open spec fn is_digit(c: char) -> bool {
    '0' <= c && c <= '9'
}

pub open spec fn digit_val(c: char) -> nat {
    (c as nat - '0' as nat) as nat
}

pub open spec fn all_digits(s: Seq<char>) -> bool {
    forall|i: int| 0 <= i < s.len() ==> is_digit(#[trigger] s[i])
}

/// The numeric value of a sequence of decimal digits, most significant first.
pub open spec fn dec_val(s: Seq<char>) -> nat
    decreases s.len(),
{
    if s.len() == 0 {
        0
    } else {
        dec_val(s.drop_last()) * 10 + digit_val(s.last())
    }
}

/// ASCII whitespace, standing in for the whitespace class of the change log's
/// line grammar.
pub open spec fn is_space(c: char) -> bool {
    c == ' ' || c == '\t' || c == '\n' || c == '\r' || c == '\u{b}' || c == '\u{c}'
}

/// `p` occurs in `s` at position `i`.
pub open spec fn match_at(s: Seq<char>, p: Seq<char>, i: int) -> bool {
    &&& 0 <= i
    &&& i + p.len() <= s.len()
    &&& s.subrange(i, i + p.len() as int) == p
}

pub open spec fn starts_with(s: Seq<char>, p: Seq<char>) -> bool {
    match_at(s, p, 0)
}

/// `p` occurs somewhere in `s` at or after `from`.
pub open spec fn contains_from(s: Seq<char>, p: Seq<char>, from: int) -> bool {
    exists|i: int| from <= i && match_at(s, p, i)
}

pub open spec fn contains_seq(s: Seq<char>, p: Seq<char>) -> bool {
    contains_from(s, p, 0)
}

/// Does `p` occur at `i` in `s`? Character-by-character check.
pub fn starts_with_at(s: &str, i: usize, p: &str) -> (r: bool)
    ensures
        r == match_at(s@, p@, i as int),
{
    let n = s.unicode_len();
    let m = p.unicode_len();
    if i > n || m > n - i {
        proof {
            assert(!match_at(s@, p@, i as int));
        }
        return false;
    }
    let mut j: usize = 0;
    while j < m
        invariant
            i + m <= n,
            n == s@.len(),
            m == p@.len(),
            j <= m,
            forall|k: int| 0 <= k < j ==> s@[i + k] == p@[k],
        decreases m - j,
    {
        if s.get_char(i + j) != p.get_char(j) {
            proof {
                assert(s@.subrange(i as int, i + p@.len()) != p@) by {
                    assert(s@.subrange(i as int, i + p@.len())[j as int] != p@[j as int]);
                }
            }
            return false;
        }
        j += 1;
    }
    proof {
        assert(s@.subrange(i as int, i + p@.len()) =~= p@);
    }
    true
}

pub fn str_starts_with(s: &str, p: &str) -> (r: bool)
    ensures
        r == starts_with(s@, p@),
{
    starts_with_at(s, 0, p)
}

/// The first position at or after `from` where `p` occurs in `s`, if any.
pub fn find_from(s: &str, p: &str, from: usize) -> (r: Option<usize>)
    ensures
        match r {
            Some(i) => from <= i && match_at(s@, p@, i as int) && forall|j: int|
                from <= j < i ==> !match_at(s@, p@, j),
            None => !contains_from(s@, p@, from as int),
        },
{
    let n = s.unicode_len();
    if from > n {
        return None;
    }
    let mut i: usize = from;
    loop
        invariant
            n == s@.len(),
            from <= i <= n,
            forall|j: int| from <= j < i ==> !match_at(s@, p@, j),
        decreases n - i,
    {
        if starts_with_at(s, i, p) {
            return Some(i);
        }
        if i == n {
            proof {
                assert forall|j: int| from <= j implies !match_at(s@, p@, j) by {
                    if j < i {
                    } else if j == i {
                    } else {
                        assert(j + p@.len() > s@.len());
                    }
                }
            }
            return None;
        }
        i += 1;
    }
}

pub fn str_contains(s: &str, p: &str) -> (r: bool)
    ensures
        r == contains_seq(s@, p@),
{
    match find_from(s, p, 0) {
        Some(_) => true,
        None => false,
    }
}

/// Two strings hold the same characters.
pub fn str_eq(a: &str, b: &str) -> (r: bool)
    ensures
        r == (a@ == b@),
{
    let n = a.unicode_len();
    let m = b.unicode_len();
    if n != m {
        return false;
    }
    let mut i: usize = 0;
    while i < n
        invariant
            n == a@.len(),
            n == b@.len(),
            i <= n,
            forall|k: int| 0 <= k < i ==> a@[k] == b@[k],
        decreases n - i,
    {
        if a.get_char(i) != b.get_char(i) {
            return false;
        }
        i += 1;
    }
    proof {
        assert(a@ =~= b@);
    }
    true
}

/// First index at or after `i` whose character is not a decimal digit.
pub fn digit_run_end(s: &str, i: usize) -> (r: usize)
    requires
        i <= s@.len(),
    ensures
        i <= r <= s@.len(),
        forall|k: int| i <= k < r ==> is_digit(#[trigger] s@[k]),
        r < s@.len() ==> !is_digit(s@[r as int]),
    decreases s@.len() - i,
{
    let n = s.unicode_len();
    let mut j: usize = i;
    while j < n
        invariant
            n == s@.len(),
            i <= j <= n,
            forall|k: int| i <= k < j ==> is_digit(#[trigger] s@[k]),
        decreases n - j,
    {
        let c = s.get_char(j);
        if !('0' <= c && c <= '9') {
            return j;
        }
        j += 1;
    }
    j
}

/// First index at or after `i` whose character is not whitespace.
pub fn space_run_end(s: &str, i: usize) -> (r: usize)
    requires
        i <= s@.len(),
    ensures
        i <= r <= s@.len(),
        forall|k: int| i <= k < r ==> is_space(#[trigger] s@[k]),
        r < s@.len() ==> !is_space(s@[r as int]),
{
    let n = s.unicode_len();
    let mut j: usize = i;
    while j < n
        invariant
            n == s@.len(),
            i <= j <= n,
            forall|k: int| i <= k < j ==> is_space(#[trigger] s@[k]),
        decreases n - j,
    {
        let c = s.get_char(j);
        if !(c == ' ' || c == '\t' || c == '\n' || c == '\r' || c == '\u{b}' || c == '\u{c}') {
            return j;
        }
        j += 1;
    }
    j
}

/// A nonempty prefix fixes the first character.
pub proof fn lemma_first_char(l: Seq<char>, p: Seq<char>)
    requires
        starts_with(l, p),
        p.len() > 0,
    ensures
        l.len() > 0 && l[0] == p[0],
{
    assert(l.subrange(0, p.len() as int)[0] == l[0]);
}

/// The least index at or after `from` holding `c`, or -1 if there is none.
pub open spec fn first_index_from(s: Seq<char>, c: char, from: int) -> int
    decreases s.len() - from,
{
    if from < 0 || from >= s.len() {
        -1
    } else if s[from] == c {
        from
    } else {
        first_index_from(s, c, from + 1)
    }
}

/// Positions before the first occurrence do not hold `c`.
pub proof fn lemma_first_index_found(s: Seq<char>, c: char, from: int, j: int)
    requires
        0 <= from <= j < s.len(),
        j < first_index_from(s, c, from) || first_index_from(s, c, from) == -1,
    ensures
        s[j] != c,
    decreases j - from,
{
    if from < j {
        lemma_first_index_found(s, c, from + 1, j);
    }
}

/// The first occurrence is where the character first stands.
pub proof fn lemma_first_index_is(s: Seq<char>, c: char, from: int, j: int)
    requires
        0 <= from <= j < s.len(),
        s[j] == c,
        forall|k: int| from <= k < j ==> s[k] != c,
    ensures
        first_index_from(s, c, from) == j,
    decreases j - from,
{
    if from < j {
        lemma_first_index_is(s, c, from + 1, j);
    }
}

/// Without an occurrence at or after `from`, the search reports none.
pub proof fn lemma_first_index_none(s: Seq<char>, c: char, from: int)
    requires
        0 <= from,
        forall|k: int| from <= k < s.len() ==> s[k] != c,
    ensures
        first_index_from(s, c, from) == -1,
    decreases s.len() - from,
{
    if from < s.len() {
        lemma_first_index_none(s, c, from + 1);
    }
}

/// The least index at or after `from` holding `c`.
pub fn find_char(s: &str, c: char, from: usize) -> (r: Option<usize>)
    requires
        from <= s@.len(),
    ensures
        match r {
            Some(i) => i == first_index_from(s@, c, from as int) && from <= i < s@.len()
                && s@[i as int] == c,
            None => first_index_from(s@, c, from as int) == -1,
        },
{
    let n = s.unicode_len();
    let mut j: usize = from;
    while j < n
        invariant
            n == s@.len(),
            from <= j <= n,
            first_index_from(s@, c, from as int) == first_index_from(s@, c, j as int),
        decreases n - j,
    {
        if s.get_char(j) == c {
            return Some(j);
        }
        j += 1;
    }
    None
}

/// Extending a digit string on the right can only increase its value.
pub proof fn lemma_dec_val_prefix_le(s: Seq<char>, k: int)
    requires
        0 <= k <= s.len(),
    ensures
        dec_val(s.subrange(0, k)) <= dec_val(s),
    decreases s.len() - k,
{
    if k == s.len() {
        assert(s.subrange(0, k) =~= s);
    } else {
        lemma_dec_val_prefix_le(s, k + 1);
        let t = s.subrange(0, k + 1);
        assert(t.drop_last() =~= s.subrange(0, k));
        assert(dec_val(s.subrange(0, k)) <= dec_val(t));
    }
}

/// Parse the decimal digits `s[from..to]` as a number, `None` on overflow.
pub fn parse_dec(s: &str, from: usize, to: usize) -> (r: Option<u64>)
    requires
        from <= to <= s@.len(),
        forall|k: int| from <= k < to ==> is_digit(#[trigger] s@[k]),
    ensures
        match r {
            Some(v) => v == dec_val(s@.subrange(from as int, to as int)),
            None => dec_val(s@.subrange(from as int, to as int)) > u64::MAX,
        },
{
    let ghost d = s@.subrange(from as int, to as int);
    let mut acc: u64 = 0;
    let mut i: usize = from;
    while i < to
        invariant
            from <= i <= to <= s@.len(),
            d == s@.subrange(from as int, to as int),
            forall|k: int| from <= k < to ==> is_digit(#[trigger] s@[k]),
            acc == dec_val(d.subrange(0, i - from)),
        decreases to - i,
    {
        let c = s.get_char(i);
        let dv: u64 = (c as u32 as u64) - ('0' as u32 as u64);
        proof {
            assert(d[i - from] == s@[i as int]);
            assert(is_digit(s@[i as int]));
            assert(dv == digit_val(d[i - from]));
        }
        if acc > (u64::MAX - dv) / 10 {
            proof {
                let t = d.subrange(0, i - from + 1);
                assert(t.drop_last() =~= d.subrange(0, i - from));
                assert(t.last() == d[i - from]);
                assert(dec_val(t) == acc * 10 + dv);
                assert(acc * 10 + dv > u64::MAX) by (nonlinear_arith)
                    requires
                        acc > (u64::MAX - dv) / 10,
                        dv < 10,
                ;
                lemma_dec_val_prefix_le(d, i - from + 1);
                assert(t =~= d.subrange(0, i - from + 1));
            }
            return None;
        }
        proof {
            assert(acc * 10 + dv <= u64::MAX) by (nonlinear_arith)
                requires
                    acc <= (u64::MAX - dv) / 10,
                    dv < 10,
            ;
            let t = d.subrange(0, i - from + 1);
            assert(t.drop_last() =~= d.subrange(0, i - from));
            assert(t.last() == d[i - from]);
        }
        acc = acc * 10 + dv;
        i += 1;
    }
    proof {
        assert(d.subrange(0, (to - from) as int) =~= d);
    }
    Some(acc)
}

/// The decimal digits of `n`, most significant first.
pub open spec fn digits_of(n: nat) -> Seq<char>
    decreases n,
{
    if n < 10 {
        seq![crate::timestamp::digit_char(n as int)]
    } else {
        digits_of(n / 10) + seq![crate::timestamp::digit_char((n % 10) as int)]
    }
}

/// The decimal rendering of a signed number.
pub open spec fn dec_str_i64(v: int) -> Seq<char> {
    if v >= 0 {
        digits_of(v as nat)
    } else {
        seq!['-'] + digits_of((-v) as nat)
    }
}

fn fmt_u64(n: u64) -> (r: String)
    ensures
        r@ == digits_of(n as nat),
    decreases n,
{
    if n < 10 {
        crate::timestamp::digit_str(n as u32).to_owned()
    } else {
        let mut r = fmt_u64(n / 10);
        r.append(crate::timestamp::digit_str((n % 10) as u32));
        r
    }
}

/// Render a signed number in decimal.
pub fn fmt_i64(v: i64) -> (r: String)
    ensures
        r@ == dec_str_i64(v as int),
{
    if v >= 0 {
        fmt_u64(v as u64)
    } else {
        let mag: u64 = ((-(v + 1)) as u64) + 1;
        let mut r = String::new();
        r.append("-");
        let d = fmt_u64(mag);
        r.append(d.as_str());
        proof {
            reveal_strlit("-");
            assert("-"@ =~= seq!['-']);
            assert(mag as int == -(v as int));
        }
        r
    }
}

/// The characters `s[from..to]`, as a fresh `String`.
pub fn substr_string(s: &str, from: usize, to: usize) -> (r: String)
    requires
        from <= to <= s@.len(),
    ensures
        r@ == s@.subrange(from as int, to as int),
{
    let sub = s.substring_char(from, to);
    sub.to_owned()
}

} // verus!
