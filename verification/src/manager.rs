//! The snapshot cursor: navigation over the aligned operation stream. Each
//! step names the operation that a conditional applier must run against the
//! store — the operation after the cursor when stepping forward, the inverse
//! of the operation under the cursor when stepping backward — so that a
//! forward step followed by a backward step is a round trip.

use vstd::prelude::*;
use crate::operation::{
    clone_op, invert_op, view_ops, BinlogOperation, OpModel,
};
use crate::strutil::str_eq;

verus! {

/// Where the cursor lands on one forward step, and whether it moved.
pub open spec fn step_forward_pos(pos: int, len: int) -> (int, bool) {
    if pos + 1 < len {
        (pos + 1, true)
    } else {
        (pos, false)
    }
}

/// Where the cursor lands on one backward step, and whether it moved.
pub open spec fn step_backward_pos(pos: int, len: int) -> (int, bool) {
    if pos > 0 {
        (pos - 1, true)
    } else {
        (pos, false)
    }
}

/// The operation a forward step from `pos` applies.
pub open spec fn forward_action(ops: Seq<OpModel>, pos: int) -> OpModel {
    ops[pos + 1]
}

/// The operation a backward step from `pos` applies.
pub open spec fn backward_action(ops: Seq<OpModel>, pos: int) -> OpModel {
    invert_op(ops[pos])
}

/// The operations applied when walking forward from `from` to `to`, in
/// stream order: the operations strictly after `from`, up to and including
/// `to`.
pub open spec fn forward_actions(ops: Seq<OpModel>, from: int, to: int) -> Seq<OpModel> {
    Seq::new(
        if to >= from {
            (to - from) as nat
        } else {
            0
        },
        |i: int| ops[from + 1 + i],
    )
}

/// The operations applied when walking backward from `from` to `to`: the
/// inverses of the operations strictly after `to`, newest first.
pub open spec fn backward_actions(ops: Seq<OpModel>, from: int, to: int) -> Seq<OpModel> {
    Seq::new(
        if from >= to {
            (from - to) as nat
        } else {
            0
        },
        |i: int| invert_op(ops[from - i]),
    )
}

/// A forward step then a backward step is a round trip: the cursor returns
/// to its position, and the backward action is exactly the inverse of the
/// forward action, so a conditional applier that honours inverses restores
/// every touched row.
pub proof fn lemma_step_round_trip(ops: Seq<OpModel>, pos: int)
    requires
        0 <= pos,
        pos + 1 < ops.len(),
    ensures
        step_forward_pos(pos, ops.len() as int).1,
        step_backward_pos(pos + 1, ops.len() as int) == (pos, true),
        backward_action(ops, pos + 1) == invert_op(forward_action(ops, pos)),
{
}

/// Returning to a position undoes the detour: walking back from `q` to `p`
/// applies exactly the inverses of the operations the walk from `p` to `q`
/// applied, newest first. A second visit to `p` therefore leaves the same
/// state as the first.
pub proof fn lemma_goto_round_trip(ops: Seq<OpModel>, p: int, q: int)
    requires
        0 <= p <= q < ops.len(),
    ensures
        backward_actions(ops, q, p) == forward_actions(ops, p, q).reverse().map_values(
            |o: OpModel| invert_op(o),
        ),
{
    assert(backward_actions(ops, q, p) =~= forward_actions(ops, p, q).reverse().map_values(
        |o: OpModel| invert_op(o),
    ));
}

/// The mirror of the detour lemma: walking down from `p` to `q` and then
/// returning applies, oldest first, exactly the operations whose inverses
/// the downward walk applied, so each inverse is in turn undone and a
/// second visit to `p` leaves the same state as the first.
pub proof fn lemma_goto_round_trip_down(ops: Seq<OpModel>, p: int, q: int)
    requires
        0 <= q <= p < ops.len(),
        forall|i: int| q < i <= p ==> crate::operation::images_present(#[trigger] ops[i]),
    ensures
        forward_actions(ops, q, p) == backward_actions(ops, p, q).reverse().map_values(
            |o: OpModel| invert_op(o),
        ),
{
    let fwd = forward_actions(ops, q, p);
    let undo = backward_actions(ops, p, q).reverse().map_values(|o: OpModel| invert_op(o));
    assert forall|i: int| 0 <= i < fwd.len() implies fwd[i] == undo[i] by {
        assert(undo[i] == invert_op(invert_op(ops[q + 1 + i])));
        crate::operation::lemma_invert_involution(ops[q + 1 + i]);
    }
    assert(fwd =~= undo);
}

/// The target index of a timestamp search: the first operation whose
/// timestamp equals the goal exactly; failing that, the first operation
/// carrying any timestamp; failing that, the start of the stream.
pub open spec fn first_exact(ops: Seq<OpModel>, t: Seq<char>, i: int) -> int
    decreases ops.len() - i,
{
    if i < 0 || i >= ops.len() {
        -1
    } else if ops[i].timestamp == Some(t) {
        i
    } else {
        first_exact(ops, t, i + 1)
    }
}

pub open spec fn first_stamped(ops: Seq<OpModel>, i: int) -> int
    decreases ops.len() - i,
{
    if i < 0 || i >= ops.len() {
        -1
    } else if ops[i].timestamp is Some {
        i
    } else {
        first_stamped(ops, i + 1)
    }
}

pub open spec fn goto_target(ops: Seq<OpModel>, t: Seq<char>) -> int {
    if first_exact(ops, t, 0) >= 0 {
        first_exact(ops, t, 0)
    } else if first_stamped(ops, 0) >= 0 {
        first_stamped(ops, 0)
    } else {
        0
    }
}

/// Navigates the aligned operation stream. The store itself lives outside
/// the library; each navigation call returns the operations that a
/// conditional applier must run to carry the store along.
pub struct SnapshotManager {
    pub operations: Vec<BinlogOperation>,
    pub current_position: usize,
}

impl SnapshotManager {
    /// The cursor stays inside the stream; an empty stream pins it at zero.
    pub open spec fn wf(&self) -> bool {
        if self.operations@.len() == 0 {
            self.current_position == 0
        } else {
            (self.current_position as int) < self.operations@.len()
        }
    }

    pub open spec fn ops(&self) -> Seq<OpModel> {
        view_ops(self.operations@)
    }

    pub fn new(operations: Vec<BinlogOperation>, initial_position: usize) -> (r: SnapshotManager)
        requires
            operations@.len() == 0 ==> initial_position == 0,
            operations@.len() > 0 ==> (initial_position as int) < operations@.len(),
        ensures
            r.wf(),
            r.ops() == view_ops(operations@),
            r.current_position == initial_position,
    {
        SnapshotManager { operations, current_position: initial_position }
    }

    pub fn get_position(&self) -> (r: usize)
        ensures
            r == self.current_position,
    {
        self.current_position
    }

    /// The timestamp of the operation under the cursor, if it carries one.
    pub fn get_timestamp(&self) -> (r: Option<&String>)
        ensures
            match r {
                Some(s) => (self.current_position as int) < self.ops().len() && self.ops()[
                    self.current_position as int
                ].timestamp == Some(s@),
                None => (self.current_position as int) >= self.ops().len() || self.ops()[
                    self.current_position as int
                ].timestamp is None,
            },
    {
        if self.current_position < self.operations.len() {
            self.operations[self.current_position].timestamp.as_ref()
        } else {
            None
        }
    }

    pub fn operation_count(&self) -> (r: usize)
        ensures
            r == self.ops().len(),
    {
        self.operations.len()
    }

    /// Step onto the next operation. The returned operation must be applied
    /// conditionally to the store; at the last position nothing changes.
    pub fn step_forward(&mut self) -> (r: Option<BinlogOperation>)
        requires
            old(self).wf(),
        ensures
            final(self).wf(),
            final(self).ops() == old(self).ops(),
            match r {
                Some(op) => {
                    &&& (old(self).current_position + 1) < old(self).ops().len()
                    &&& op@ == forward_action(old(self).ops(), old(self).current_position as int)
                    &&& final(self).current_position == old(self).current_position + 1
                },
                None => {
                    &&& old(self).current_position + 1 >= old(self).ops().len()
                    &&& final(self).current_position == old(self).current_position
                },
            },
    {
        let len = self.operations.len();
        if len == 0 || self.current_position >= len - 1 {
            return None;
        }
        let op = clone_op(&self.operations[self.current_position + 1]);
        self.current_position = self.current_position + 1;
        Some(op)
    }

    /// Step off the operation under the cursor. The returned operation is
    /// its inverse and must be applied conditionally; at position zero
    /// nothing changes.
    pub fn step_backward(&mut self) -> (r: Option<BinlogOperation>)
        requires
            old(self).wf(),
        ensures
            final(self).wf(),
            final(self).ops() == old(self).ops(),
            match r {
                Some(op) => {
                    &&& old(self).current_position > 0
                    &&& op@ == backward_action(old(self).ops(), old(self).current_position as int)
                    &&& final(self).current_position == old(self).current_position - 1
                },
                None => {
                    &&& old(self).current_position == 0
                    &&& final(self).current_position == old(self).current_position
                },
            },
    {
        if self.current_position == 0 {
            return None;
        }
        let op = self.operations[self.current_position].invert();
        self.current_position = self.current_position - 1;
        Some(op)
    }

    /// Up to `count` single forward steps; the returned operations are the
    /// ones to apply, in order, and their number is the count taken.
    pub fn step_forward_by(&mut self, count: usize) -> (r: Vec<BinlogOperation>)
        requires
            old(self).wf(),
        ensures
            final(self).wf(),
            final(self).ops() == old(self).ops(),
            final(self).current_position == if old(self).current_position + count < old(
                self,
            ).ops().len() {
                old(self).current_position + count
            } else if old(self).ops().len() == 0 {
                0int
            } else {
                old(self).ops().len() - 1
            },
            view_ops(r@) == forward_actions(
                old(self).ops(),
                old(self).current_position as int,
                final(self).current_position as int,
            ),
    {
        let ghost pre = self.current_position as int;
        let ghost vo = self.ops();
        let mut r: Vec<BinlogOperation> = Vec::new();
        let mut taken: usize = 0;
        let mut done = false;
        proof {
            assert(view_ops(r@) =~= forward_actions(vo, pre, pre));
        }
        while taken < count && !done
            invariant
                self.wf(),
                self.ops() == old(self).ops(),
                vo == old(self).ops(),
                pre == old(self).current_position,
                taken <= count,
                self.current_position as int == pre + taken,
                view_ops(r@) == forward_actions(vo, pre, pre + taken),
                done ==> pre + taken + 1 >= vo.len(),
            decreases count - taken + (if done {
                0int
            } else {
                1int
            }),
        {
            let ghost cpre = self.current_position as int;
            let ghost rpre = view_ops(r@);
            match self.step_forward() {
                Some(op) => {
                    r.push(op);
                    proof {
                        assert(view_ops(r@) =~= rpre.push(vo[cpre + 1]));
                        assert(view_ops(r@) =~= forward_actions(vo, pre, cpre + 1));
                    }
                    taken += 1;
                },
                None => {
                    done = true;
                },
            }
        }
        proof {
            if !done {
                if count > 0 {
                    assert(self.current_position as int == pre + count);
                } else {
                    if vo.len() > 0 {
                        assert(pre < vo.len());
                    }
                }
            }
        }
        r
    }

    /// Up to `count` single backward steps; the returned operations are the
    /// inverses to apply, newest first, and their number is the count taken.
    pub fn step_backward_by(&mut self, count: usize) -> (r: Vec<BinlogOperation>)
        requires
            old(self).wf(),
        ensures
            final(self).wf(),
            final(self).ops() == old(self).ops(),
            final(self).current_position == if count <= old(self).current_position {
                old(self).current_position - count
            } else {
                0int
            },
            view_ops(r@) == backward_actions(
                old(self).ops(),
                old(self).current_position as int,
                final(self).current_position as int,
            ),
    {
        let ghost pre = self.current_position as int;
        let ghost vo = self.ops();
        let mut r: Vec<BinlogOperation> = Vec::new();
        let mut taken: usize = 0;
        let mut done = false;
        proof {
            assert(view_ops(r@) =~= backward_actions(vo, pre, pre));
        }
        while taken < count && !done
            invariant
                self.wf(),
                self.ops() == old(self).ops(),
                vo == old(self).ops(),
                pre == old(self).current_position,
                taken <= count,
                taken <= pre,
                self.current_position as int == pre - taken,
                view_ops(r@) == backward_actions(vo, pre, pre - taken),
                done ==> pre - taken == 0,
            decreases count - taken + (if done {
                0int
            } else {
                1int
            }),
        {
            let ghost cpre = self.current_position as int;
            let ghost rpre = view_ops(r@);
            match self.step_backward() {
                Some(op) => {
                    r.push(op);
                    proof {
                        assert(view_ops(r@) =~= rpre.push(invert_op(vo[cpre])));
                        assert(view_ops(r@) =~= backward_actions(vo, pre, cpre - 1));
                    }
                    taken += 1;
                },
                None => {
                    done = true;
                },
            }
        }
        r
    }

    /// Walk to an exact position; out of bounds is an error. The returned
    /// operations carry the store from the old position to the new one.
    pub fn goto_position(&mut self, target_position: usize) -> (r: Result<
        Vec<BinlogOperation>,
        String,
    >)
        requires
            old(self).wf(),
        ensures
            final(self).wf(),
            final(self).ops() == old(self).ops(),
            match r {
                Ok(actions) => {
                    &&& (target_position as int) < old(self).ops().len()
                    &&& final(self).current_position == target_position
                    &&& view_ops(actions@) == if target_position >= old(self).current_position {
                        forward_actions(
                            old(self).ops(),
                            old(self).current_position as int,
                            target_position as int,
                        )
                    } else {
                        backward_actions(
                            old(self).ops(),
                            old(self).current_position as int,
                            target_position as int,
                        )
                    }
                },
                Err(_) => {
                    &&& (target_position as int) >= old(self).ops().len()
                    &&& *final(self) == *old(self)
                },
            },
    {
        if target_position >= self.operations.len() {
            let s: &str = "Target position out of bounds";
            return Err(s.to_owned());
        }
        if target_position > self.current_position {
            let steps = target_position - self.current_position;
            let r = self.step_forward_by(steps);
            Ok(r)
        } else if target_position < self.current_position {
            let steps = self.current_position - target_position;
            let r = self.step_backward_by(steps);
            Ok(r)
        } else {
            let r: Vec<BinlogOperation> = Vec::new();
            proof {
                assert(view_ops(r@) =~= forward_actions(
                    old(self).ops(),
                    self.current_position as int,
                    self.current_position as int,
                ));
            }
            Ok(r)
        }
    }

    /// Walk to the operation nearest a timestamp. An exact match wins; with
    /// none, the comparison distance the search inherits degenerates, so the
    /// cursor lands on the first operation that carries any timestamp.
    pub fn goto_timestamp(&mut self, target_timestamp: &str) -> (r: Result<
        Vec<BinlogOperation>,
        String,
    >)
        requires
            old(self).wf(),
        ensures
            final(self).wf(),
            final(self).ops() == old(self).ops(),
            match r {
                Ok(actions) => {
                    let target = goto_target(old(self).ops(), target_timestamp@);
                    &&& target < old(self).ops().len()
                    &&& final(self).current_position == target
                    &&& view_ops(actions@) == if target >= old(self).current_position {
                        forward_actions(old(self).ops(), old(self).current_position as int, target)
                    } else {
                        backward_actions(old(self).ops(), old(self).current_position as int, target)
                    }
                },
                Err(_) => {
                    &&& goto_target(old(self).ops(), target_timestamp@) >= old(self).ops().len()
                    &&& *final(self) == *old(self)
                },
            },
    {
        let ghost vo = self.ops();
        let n = self.operations.len();
        let mut closest_idx: usize = 0;
        let mut found_any = false;
        let mut found_exact = false;
        let mut i: usize = 0;
        while i < n && !found_exact
            invariant
                n == self.ops().len(),
                vo == self.ops(),
                i <= n,
                !found_exact ==> first_exact(vo, target_timestamp@, 0) == first_exact(
                    vo,
                    target_timestamp@,
                    i as int,
                ),
                found_exact ==> 0 <= first_exact(vo, target_timestamp@, 0) && closest_idx
                    == first_exact(vo, target_timestamp@, 0),
                !found_exact && !found_any ==> first_stamped(vo, 0) == first_stamped(vo, i as int)
                    && closest_idx == 0,
                !found_exact && found_any ==> 0 <= first_stamped(vo, 0) && closest_idx
                    == first_stamped(vo, 0),
                closest_idx < n || closest_idx == 0,
            decreases n - i + (if found_exact {
                0int
            } else {
                1int
            }),
        {
            let has_ts = match &self.operations[i].timestamp {
                Some(ts) => {
                    if str_eq(ts.as_str(), target_timestamp) {
                        found_exact = true;
                        closest_idx = i;
                        proof {
                            assert(vo[i as int].timestamp == Some(target_timestamp@));
                            assert(first_exact(vo, target_timestamp@, i as int) == i);
                        }
                        true
                    } else {
                        proof {
                            assert(vo[i as int].timestamp matches Some(t) && t
                                != target_timestamp@);
                        }
                        true
                    }
                },
                None => false,
            };
            if !found_exact {
                if has_ts && !found_any {
                    found_any = true;
                    closest_idx = i;
                    proof {
                        assert(first_stamped(vo, i as int) == i);
                    }
                }
            }
            if !found_exact {
                i += 1;
            }
        }
        proof {
            if !found_exact {
                assert(first_exact(vo, target_timestamp@, n as int) == -1);
            }
        }
        self.goto_position(closest_idx)
    }

    /// The operation at an index, if it exists.
    pub fn get_operation(&self, index: usize) -> (r: Option<&BinlogOperation>)
        ensures
            match r {
                Some(op) => (index as int) < self.ops().len() && op@ == self.ops()[index as int],
                None => (index as int) >= self.ops().len(),
            },
    {
        if index < self.operations.len() {
            Some(&self.operations[index])
        } else {
            None
        }
    }

    /// The operations in `[start, end)`, with `end` clipped to the stream's
    /// length.
    pub fn get_operations_range(&self, start: usize, end: usize) -> (r: Vec<BinlogOperation>)
        requires
            (start as int) <= if (end as int) <= self.ops().len() {
                end as int
            } else {
                self.ops().len() as int
            },
        ensures
            view_ops(r@) == self.ops().subrange(
                start as int,
                if (end as int) <= self.ops().len() {
                    end as int
                } else {
                    self.ops().len() as int
                },
            ),
    {
        let clipped = if end <= self.operations.len() {
            end
        } else {
            self.operations.len()
        };
        let mut r: Vec<BinlogOperation> = Vec::new();
        let mut i: usize = start;
        while i < clipped
            invariant
                start <= i <= clipped,
                clipped <= self.operations@.len(),
                r@.len() == i - start,
                forall|j: int| 0 <= j < r@.len() ==> r@[j]@ == self.ops()[start + j],
            decreases clipped - i,
        {
            r.push(clone_op(&self.operations[i]));
            i += 1;
        }
        proof {
            assert(view_ops(r@) =~= self.ops().subrange(start as int, clipped as int));
        }
        r
    }
}

} // verus!
