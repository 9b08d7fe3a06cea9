//! Edit operations and transactions.
//!
//! A single edit op replaces a byte range with new text; one user action —
//! possibly one edit per cursor — is grouped into a transaction together with
//! the cursor sets before and after, so that a single undo reverses the whole
//! action atomically.

use vstd::prelude::*;
use crate::buffer::TextBuffer;
use crate::cursor::CursorSet;

verus! {

/// Mathematical model of a single replace-range edit: at `start`, the bytes
/// `removed` are replaced by the bytes `inserted`.
pub struct OpModel {
    pub start: int,
    pub removed: Seq<u8>,
    pub inserted: Seq<u8>,
}

/// A single replace-range edit, recorded with the bytes it removed so that it
/// can be reversed exactly.
#[derive(Debug)]
pub struct EditOp {
    pub start: usize,
    pub removed: Vec<u8>,
    pub inserted: Vec<u8>,
}

impl View for EditOp {
    type V = OpModel;

    open spec fn view(&self) -> OpModel {
        OpModel { start: self.start as int, removed: self.removed@, inserted: self.inserted@ }
    }
}

/// Whether `op` can be applied to `s`: its range is inside `s` and the bytes
/// there are exactly the ones it records as removed.
pub open spec fn op_applies(s: Seq<u8>, op: OpModel) -> bool {
    &&& 0 <= op.start
    &&& op.start + op.removed.len() <= s.len()
    &&& s.subrange(op.start, op.start + op.removed.len()) == op.removed
}

/// The buffer after applying `op` to `s`.
pub open spec fn apply_op(s: Seq<u8>, op: OpModel) -> Seq<u8> {
    s.take(op.start) + op.inserted + s.skip(op.start + op.removed.len())
}

/// The inverse edit: re-inserts what was removed and removes what was
/// inserted, at the same start offset.
pub open spec fn invert_op(op: OpModel) -> OpModel {
    OpModel { start: op.start, removed: op.inserted, inserted: op.removed }
}

/// Whether the whole op sequence applies to `s`, each op against the buffer
/// produced by its predecessors.
pub open spec fn ops_apply(s: Seq<u8>, ops: Seq<OpModel>) -> bool
    decreases ops.len(),
{
    ops.len() == 0 || (op_applies(s, ops[0]) && ops_apply(apply_op(s, ops[0]), ops.skip(1)))
}

/// The buffer after applying every op of `ops` to `s` in order.
pub open spec fn apply_ops(s: Seq<u8>, ops: Seq<OpModel>) -> Seq<u8>
    decreases ops.len(),
{
    if ops.len() == 0 {
        s
    } else {
        apply_ops(apply_op(s, ops[0]), ops.skip(1))
    }
}

/// Whether the op sequence can be reverse-applied to `s`: the last op's
/// inverse applies first, and so on backwards.
pub open spec fn ops_unapply(s: Seq<u8>, ops: Seq<OpModel>) -> bool
    decreases ops.len(),
{
    ops.len() == 0 || (op_applies(s, invert_op(ops.last())) && ops_unapply(
        apply_op(s, invert_op(ops.last())),
        ops.drop_last(),
    ))
}

/// The buffer after reverse-applying every op of `ops` to `s`, last first.
pub open spec fn unapply_ops(s: Seq<u8>, ops: Seq<OpModel>) -> Seq<u8>
    decreases ops.len(),
{
    if ops.len() == 0 {
        s
    } else {
        unapply_ops(apply_op(s, invert_op(ops.last())), ops.drop_last())
    }
}

/// Applying one op and then its inverse restores the buffer exactly.
pub proof fn lemma_op_round_trip(s: Seq<u8>, op: OpModel)
    requires
        op_applies(s, op),
    ensures
        op_applies(apply_op(s, op), invert_op(op)),
        apply_op(apply_op(s, op), invert_op(op)) == s,
{
    let a = op.start;
    let r = op.removed.len() as int;
    let i = op.inserted.len() as int;
    let t = apply_op(s, op);
    assert(t.len() == a + i + (s.len() - (a + r)));
    assert(t.subrange(a, a + i) =~= op.inserted);
    let u = apply_op(t, invert_op(op));
    assert(t.take(a) =~= s.take(a));
    assert(t.skip(a + i) =~= s.skip(a + r));
    assert(u =~= s);
}

/// The front-recursive `apply` functions, characterised at the back: pushing
/// one more op onto a sequence applies it to the result of the rest.
pub proof fn lemma_apply_snoc(s: Seq<u8>, ops: Seq<OpModel>, op: OpModel)
    ensures
        ops_apply(s, ops.push(op)) <==> (ops_apply(s, ops) && op_applies(apply_ops(s, ops), op)),
        ops_apply(s, ops.push(op)) ==> apply_ops(s, ops.push(op)) == apply_op(
            apply_ops(s, ops),
            op,
        ),
    decreases ops.len(),
{
    let x = ops.push(op);
    if ops.len() == 0 {
        assert(x[0] == op);
        assert(x.skip(1) =~= Seq::<OpModel>::empty());
        assert(ops_apply(s, x) <==> (op_applies(s, op) && ops_apply(
            apply_op(s, op),
            x.skip(1),
        )));
        assert(apply_ops(s, x) == apply_ops(apply_op(s, op), x.skip(1)));
        assert(apply_ops(apply_op(s, op), x.skip(1)) == apply_op(s, op));
        assert(apply_ops(s, ops) == s);
    } else {
        let s1 = apply_op(s, ops[0]);
        assert(x[0] == ops[0]);
        assert(x.skip(1) =~= ops.skip(1).push(op));
        lemma_apply_snoc(s1, ops.skip(1), op);
        assert(ops_apply(s, x) <==> (op_applies(s, ops[0]) && ops_apply(s1, x.skip(1))));
        assert(ops_apply(s, ops) <==> (op_applies(s, ops[0]) && ops_apply(s1, ops.skip(1))));
        assert(apply_ops(s, ops) == apply_ops(s1, ops.skip(1)));
        assert(apply_ops(s, x) == apply_ops(s1, x.skip(1)));
    }
}

/// A transaction of N simultaneous edits, once applied, can be reverse-applied
/// and restores the prior buffer exactly: the core of atomic multi-cursor
/// undo. A single undo of a transaction therefore removes all N mutations.
pub proof fn lemma_ops_round_trip(s: Seq<u8>, ops: Seq<OpModel>)
    requires
        ops_apply(s, ops),
    ensures
        ops_unapply(apply_ops(s, ops), ops),
        unapply_ops(apply_ops(s, ops), ops) == s,
    decreases ops.len(),
{
    if ops.len() > 0 {
        let front = ops.drop_last();
        let lst = ops.last();
        assert(ops =~= front.push(lst));
        lemma_apply_snoc(s, front, lst);
        let m = apply_ops(s, front);
        let x = apply_ops(s, ops);
        assert(x == apply_op(m, lst));
        lemma_op_round_trip(m, lst);
        lemma_ops_round_trip(s, front);
    }
}

/// The mirror of `lemma_ops_round_trip`: a transaction that was reverse-applied
/// (undone) can be re-applied and restores the undone buffer exactly — a single
/// redo reapplies all N mutations.
pub proof fn lemma_ops_redo_round_trip(t: Seq<u8>, ops: Seq<OpModel>)
    requires
        ops_unapply(t, ops),
    ensures
        ops_apply(unapply_ops(t, ops), ops),
        apply_ops(unapply_ops(t, ops), ops) == t,
    decreases ops.len(),
{
    if ops.len() > 0 {
        let front = ops.drop_last();
        let lst = ops.last();
        assert(ops =~= front.push(lst));
        let t1 = apply_op(t, invert_op(lst));
        lemma_ops_redo_round_trip(t1, front);
        let s0 = unapply_ops(t, ops);
        assert(s0 == unapply_ops(t1, front));
        lemma_op_round_trip(t, invert_op(lst));
        assert(invert_op(invert_op(lst)) == lst);
        assert(op_applies(apply_ops(s0, front), lst));
        assert(apply_op(apply_ops(s0, front), lst) == t);
        lemma_apply_snoc(s0, front, lst);
    }
}

/// The models of a recorded op list, in application order.
pub open spec fn ops_model(ops: Seq<EditOp>) -> Seq<OpModel> {
    ops.map_values(|op: EditOp| op@)
}

/// One atomic unit of undo/redo: the edits of one user action (one per
/// cursor, possibly none for a pure cursor-topology change) with the cursor
/// sets before and after the action.
#[derive(Debug)]
pub struct EditTransaction {
    /// The edits, in the order they were applied (highest offset first).
    pub ops: Vec<EditOp>,
    /// Cursor set before the action; undo restores it.
    pub cursors_before: CursorSet,
    /// Cursor set after the action; redo restores it.
    pub cursors_after: CursorSet,
}

/// Applies one edit op to the buffer.
pub fn apply_edit_op(buf: &mut TextBuffer, op: &EditOp)
    requires
        op_applies(old(buf)@, op@),
    ensures
        final(buf)@ == apply_op(old(buf)@, op@),
{
    let n = buf.len();
    let end = op.start + op.removed.len();
    buf.replace_range(op.start, end, op.inserted.as_slice());
}

/// Applies the inverse of one edit op to the buffer.
pub fn unapply_edit_op(buf: &mut TextBuffer, op: &EditOp)
    requires
        op_applies(old(buf)@, invert_op(op@)),
    ensures
        final(buf)@ == apply_op(old(buf)@, invert_op(op@)),
{
    let n = buf.len();
    let end = op.start + op.inserted.len();
    buf.replace_range(op.start, end, op.removed.as_slice());
}

} // verus!
