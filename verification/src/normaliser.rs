//! Aligning the snapshot to a named position in the operation stream. The
//! normaliser chooses transaction zero inside the time window around the
//! snapshot's approximate timestamp and plans the conditional applies: every
//! in-window operation at or before the anchor forward, in stream order, and
//! every one after it inverted, newest first.

use vstd::prelude::*;
use crate::operation::{view_ops, BinlogOperation, OpModel};
use crate::timestamp::{
    shifted_hours, ts_le, ts_parse, BinlogTimestamp,
};

verus! {

/// An operation lies in the window when it carries a timestamp that parses
/// and falls between the bounds, inclusively.
pub open spec fn in_window(op: OpModel, lower: BinlogTimestamp, upper: BinlogTimestamp) -> bool {
    match op.timestamp {
        Some(ts) => match ts_parse(ts) {
            Some(t) => ts_le(lower, t) && ts_le(t, upper),
            None => false,
        },
        None => false,
    }
}

/// The stream indices, at or after `i` and in stream order, of the
/// operations inside the window.
pub open spec fn window_from(
    ops: Seq<OpModel>,
    lower: BinlogTimestamp,
    upper: BinlogTimestamp,
    i: int,
) -> Seq<int>
    decreases ops.len() - i,
{
    if i < 0 || i >= ops.len() {
        Seq::empty()
    } else if in_window(ops[i], lower, upper) {
        seq![i] + window_from(ops, lower, upper, i + 1)
    } else {
        window_from(ops, lower, upper, i + 1)
    }
}

pub open spec fn window_indices(
    ops: Seq<OpModel>,
    lower: BinlogTimestamp,
    upper: BinlogTimestamp,
) -> Seq<int> {
    window_from(ops, lower, upper, 0)
}

/// The window indices are exactly the in-window stream positions, strictly
/// increasing.
pub proof fn lemma_window_characterises(
    ops: Seq<OpModel>,
    lower: BinlogTimestamp,
    upper: BinlogTimestamp,
    i: int,
)
    requires
        0 <= i,
    ensures
        ({
            let w = window_from(ops, lower, upper, i);
            &&& forall|a: int| 0 <= a < w.len() ==> i <= #[trigger] w[a] < ops.len()
            &&& forall|a: int| 0 <= a < w.len() ==> in_window(ops[#[trigger] w[a]], lower, upper)
            &&& forall|a: int, b: int| 0 <= a < b < w.len() ==> w[a] < w[b]
            &&& forall|j: int|
                i <= j < ops.len() && in_window(ops[j], lower, upper) ==> #[trigger] w.contains(j)
        }),
    decreases ops.len() - i,
{
    if 0 <= i < ops.len() {
        lemma_window_characterises(ops, lower, upper, i + 1);
        let w = window_from(ops, lower, upper, i);
        let wn = window_from(ops, lower, upper, i + 1);
        if in_window(ops[i], lower, upper) {
            assert(w == seq![i] + wn);
            assert forall|a: int| 0 <= a < w.len() implies i <= #[trigger] w[a] < ops.len() by {
                if a == 0 {
                    assert(w[0] == i);
                } else {
                    assert(w[a] == wn[a - 1]);
                }
            }
            assert forall|a: int| 0 <= a < w.len() implies in_window(
                ops[#[trigger] w[a]],
                lower,
                upper,
            ) by {
                if a == 0 {
                    assert(w[0] == i);
                } else {
                    assert(w[a] == wn[a - 1]);
                }
            }
            assert forall|a: int, b: int| 0 <= a < b < w.len() implies w[a] < w[b] by {
                assert(w[b] == wn[b - 1]);
                if a == 0 {
                    assert(w[0] == i);
                    assert(i + 1 <= wn[b - 1]);
                } else {
                    assert(w[a] == wn[a - 1]);
                }
            }
            assert forall|j: int|
                i <= j < ops.len() && in_window(ops[j], lower, upper) implies #[trigger] w.contains(
                j,
            ) by {
                if j == i {
                    assert(w[0] == j);
                    assert(w.contains(j)) by {
                        assert(0 <= 0 < w.len() && w[0] == j);
                    }
                } else {
                    assert(wn.contains(j));
                    let a = choose|a: int| 0 <= a < wn.len() && wn[a] == j;
                    assert(w[a + 1] == wn[a]);
                    assert(w.contains(j)) by {
                        assert(0 <= a + 1 < w.len() && w[a + 1] == j);
                    }
                }
            }
        } else {
            assert(w =~= wn);
            assert forall|j: int|
                i <= j < ops.len() && in_window(ops[j], lower, upper) implies #[trigger] w.contains(
                j,
            ) by {
                assert(j != i);
                assert(wn.contains(j));
            }
        }
    }
}

pub open spec fn view_idx(v: Seq<usize>) -> Seq<int> {
    v.map_values(|x: usize| x as int)
}

/// The plan of one normalisation: the chosen anchor, the in-window indices
/// to apply forward in stream order, and the in-window indices whose
/// operations are applied inverted, newest first.
pub struct NormalisePlan {
    pub tx_zero_idx: usize,
    pub forward: Vec<usize>,
    pub backward: Vec<usize>,
}

/// Chooses transaction zero and plans the conditional applies that align the
/// snapshot to it. The store work itself is carried out by the caller
/// through the conditional applier, one planned index at a time.
pub struct TimestampNormaliser {}

impl TimestampNormaliser {
    /// Plan the normalisation of a snapshot taken near `snapshot_timestamp`,
    /// with a window of `window_hours` on each side.
    ///
    /// The anchor is the median in-window index; with an empty window it is
    /// the last stream index (or zero for an empty stream) and nothing is
    /// planned. A timestamp that does not parse is the one fatal failure.
    pub fn normalize(
        operations: &Vec<BinlogOperation>,
        snapshot_timestamp: &str,
        window_hours: i64,
    ) -> (r: Result<NormalisePlan, String>)
        requires
            -1000000 <= window_hours <= 1000000,
        ensures
            match r {
                Ok(plan) => ({
                    &&& ts_parse(snapshot_timestamp@) matches Some(t)
                    &&& {
                        let t = ts_parse(snapshot_timestamp@).unwrap();
                        let lower = shifted_hours(t, -(window_hours as int));
                        let upper = shifted_hours(t, window_hours as int);
                        let w = window_indices(view_ops(operations@), lower, upper);
                        if w.len() == 0 {
                            &&& plan.tx_zero_idx == if operations@.len() == 0 {
                                0int
                            } else {
                                operations@.len() - 1
                            }
                            &&& plan.forward@.len() == 0
                            &&& plan.backward@.len() == 0
                        } else {
                            let mid = w.len() as int / 2;
                            &&& plan.tx_zero_idx == w[mid]
                            &&& view_idx(plan.forward@) == w.take(mid + 1)
                            &&& view_idx(plan.backward@) == w.skip(mid + 1).reverse()
                        }
                    }
                }),
                Err(_) => ts_parse(snapshot_timestamp@) is None,
            },
    {
        let t = match BinlogTimestamp::parse(snapshot_timestamp) {
            Ok(t) => t,
            Err(e) => {
                return Err(e);
            },
        };
        let lower = t.subtract_hours(window_hours);
        let upper = t.add_hours(window_hours);
        let ghost vo = view_ops(operations@);
        let n = operations.len();
        let mut w: Vec<usize> = Vec::new();
        let mut i: usize = 0;
        while i < n
            invariant
                n == operations@.len(),
                vo == view_ops(operations@),
                i <= n,
                view_idx(w@) + window_from(vo, lower, upper, i as int) == window_from(
                    vo,
                    lower,
                    upper,
                    0,
                ),
                forall|a: int| 0 <= a < w@.len() ==> #[trigger] w@[a] < n,
            decreases n - i,
        {
            let ghost pre = view_idx(w@);
            let inw = match &operations[i].timestamp {
                Some(ts) => match BinlogTimestamp::parse(ts.as_str()) {
                    Ok(ot) => lower.le(&ot) && ot.le(&upper),
                    Err(_) => false,
                },
                None => false,
            };
            proof {
                assert(vo[i as int] == operations@[i as int]@);
                assert(inw == in_window(vo[i as int], lower, upper));
            }
            if inw {
                w.push(i);
                proof {
                    assert(view_idx(w@) =~= pre.push(i as int));
                    assert(pre.push(i as int) + window_from(vo, lower, upper, i + 1) =~= pre + (
                    seq![i as int] + window_from(vo, lower, upper, i + 1)));
                }
            }
            i += 1;
        }
        proof {
            assert(window_from(vo, lower, upper, n as int) =~= Seq::<int>::empty());
            assert(view_idx(w@) + window_from(vo, lower, upper, n as int) =~= view_idx(w@));
        }
        let ghost wspec = window_indices(vo, lower, upper);
        if w.len() == 0 {
            let tx_zero_idx: usize = if operations.len() == 0 {
                0
            } else {
                operations.len() - 1
            };
            return Ok(
                NormalisePlan { tx_zero_idx, forward: Vec::new(), backward: Vec::new() },
            );
        }
        let mid = w.len() / 2;
        let tx_zero_idx = w[mid];
        let wlen = w.len();
        let mut forward: Vec<usize> = Vec::new();
        let mut j: usize = 0;
        while j <= mid
            invariant
                mid < w@.len(),
                wlen == w@.len(),
                j <= mid + 1,
                forward@.len() == j,
                forall|a: int| 0 <= a < j ==> forward@[a] == w@[a],
            decreases mid + 1 - j,
        {
            forward.push(w[j]);
            j += 1;
        }
        let mut backward: Vec<usize> = Vec::new();
        let mut k: usize = wlen;
        while k > mid + 1
            invariant
                mid < w@.len(),
                wlen == w@.len(),
                mid + 1 <= k <= wlen,
                backward@.len() == wlen - k,
                forall|a: int| 0 <= a < backward@.len() ==> backward@[a] == w@[wlen - 1 - a],
            decreases k,
        {
            k -= 1;
            backward.push(w[k]);
        }
        proof {
            assert(view_idx(forward@) =~= wspec.take(mid + 1));
            assert(view_idx(backward@) =~= wspec.skip(mid + 1).reverse());
        }
        Ok(NormalisePlan { tx_zero_idx, forward, backward })
    }
}

} // verus!
