//! The cursor set: an ordered collection of edit points.
//!
//! One cursor is primary at any time; zero or more secondary cursors carry the
//! same edits simultaneously. Positions are byte offsets into the buffer,
//! strictly increasing in iteration order; a cursor with an anchor has an
//! active selection between its anchor and its position.

use vstd::prelude::*;

verus! {

/// A single edit point: a byte position and an optional selection anchor.
#[derive(Clone, Copy, Debug)]
pub struct Cursor {
    /// Stable identifier, informational only.
    pub id: u64,
    /// Byte offset of the edit point, always within `[0, buffer_len]`.
    pub position: usize,
    /// When present, the selection covers the bytes between `anchor` and
    /// `position` (in either order).
    pub anchor: Option<usize>,
}

/// The ordered cursor collection. Exactly one cursor, named by `primary`, is
/// the primary cursor; positions are strictly increasing.
#[derive(Debug)]
pub struct CursorSet {
    pub cursors: Vec<Cursor>,
    /// Index of the primary cursor in `cursors`.
    pub primary: usize,
    /// Next identifier to hand out.
    pub next_id: u64,
}

impl CursorSet {
    /// Well-formedness against a buffer of length `buf_len`: at least one
    /// cursor, a valid primary index, strictly increasing positions, and every
    /// position and anchor clamped into the buffer.
    pub open spec fn wf(self, buf_len: nat) -> bool {
        &&& self.cursors@.len() >= 1
        &&& self.primary < self.cursors@.len()
        &&& forall|i: int, j: int|
            0 <= i < j < self.cursors@.len() ==> self.cursors@[i].position
                < self.cursors@[j].position
        &&& forall|i: int|
            0 <= i < self.cursors@.len() ==> self.cursors@[i].position <= buf_len
        &&& forall|i: int|
            0 <= i < self.cursors@.len() && self.cursors@[i].anchor is Some
                ==> self.cursors@[i].anchor->0 <= buf_len
    }

    /// Whether some cursor sits at byte position `p`.
    pub open spec fn has_position(self, p: nat) -> bool {
        exists|i: int| 0 <= i < self.cursors@.len() && self.cursors@[i].position == p
    }

    /// The primary cursor, as a value.
    pub open spec fn spec_primary(self) -> Cursor
        recommends
            self.primary < self.cursors@.len(),
    {
        self.cursors@[self.primary as int]
    }

    /// A single cursor at offset 0, primary, with no selection.
    pub fn new() -> (r: CursorSet)
        ensures
            r.wf(0),
            r.cursors@.len() == 1,
            r.cursors@[0].position == 0,
            r.cursors@[0].anchor is None,
            r.primary == 0,
    {
        let mut cursors: Vec<Cursor> = Vec::new();
        cursors.push(Cursor { id: 0, position: 0, anchor: None });
        CursorSet { cursors, primary: 0, next_id: 1 }
    }

    /// Number of cursors.
    pub fn count(&self) -> (r: usize)
        ensures
            r == self.cursors@.len(),
    {
        self.cursors.len()
    }

    /// The primary cursor.
    pub fn primary_cursor(&self) -> (r: Cursor)
        requires
            self.primary < self.cursors@.len(),
        ensures
            r == self.spec_primary(),
    {
        self.cursors[self.primary]
    }

    /// All cursor positions, in increasing order.
    pub fn positions(&self) -> (r: Vec<usize>)
        ensures
            r@.len() == self.cursors@.len(),
            forall|i: int| 0 <= i < r@.len() ==> r@[i] == self.cursors@[i].position,
    {
        let mut r: Vec<usize> = Vec::new();
        let n = self.cursors.len();
        let mut i: usize = 0;
        while i < n
            invariant
                i <= n,
                n == self.cursors@.len(),
                r@.len() == i,
                forall|k: int| 0 <= k < i ==> r@[k] == self.cursors@[k].position,
            decreases n - i,
        {
            r.push(self.cursors[i].position);
            i = i + 1;
        }
        r
    }

    /// Drops every non-primary cursor, keeping the primary unchanged.
    pub fn remove_secondary(&mut self)
        requires
            old(self).primary < old(self).cursors@.len(),
        ensures
            final(self).cursors@ =~= seq![old(self).spec_primary()],
            final(self).primary == 0,
            final(self).next_id == old(self).next_id,
    {
        let p = self.cursors[self.primary];
        let mut cursors: Vec<Cursor> = Vec::new();
        cursors.push(p);
        self.cursors = cursors;
        self.primary = 0;
    }

    /// Adds a cursor at `position` with the given anchor and makes it primary.
    /// If a cursor already sits there, the two collapse into one, which
    /// becomes primary; otherwise the new cursor is inserted in position
    /// order.
    pub fn add_cursor(&mut self, position: usize, anchor: Option<usize>, buf_len: usize)
        requires
            old(self).wf(buf_len as nat),
            position <= buf_len,
            anchor is Some ==> anchor->0 <= buf_len,
        ensures
            final(self).wf(buf_len as nat),
            final(self).spec_primary().position == position,
            forall|p: nat|
                final(self).has_position(p) <==> (old(self).has_position(p) || p
                    == position as nat),
            final(self).cursors@.len() == if old(self).has_position(position as nat) {
                old(self).cursors@.len()
            } else {
                old(self).cursors@.len() + 1
            },
            !old(self).has_position(position as nat) ==> final(self).spec_primary().anchor
                == anchor,
            final(self).next_id >= old(self).next_id,
    {
        let n = self.cursors.len();
        // Find the first index whose position is >= the new position.
        let mut idx: usize = 0;
        while idx < n && self.cursors[idx].position < position
            invariant
                idx <= n,
                n == self.cursors@.len(),
                forall|k: int| 0 <= k < idx ==> self.cursors@[k].position < position,
            decreases n - idx,
        {
            idx = idx + 1;
        }
        if idx < n && self.cursors[idx].position == position {
            // Collapse: the existing cursor at this position becomes primary.
            self.primary = idx;
        } else {
            let id = self.next_id;
            if self.next_id < u64::MAX {
                self.next_id = self.next_id + 1;
            }
            self.cursors.insert(idx, Cursor { id, position, anchor });
            self.primary = idx;
            proof {
                let newc = self.cursors@;
                let oldc = old(self).cursors@;
                assert(forall|k: int| 0 <= k < idx ==> newc[k] == oldc[k]);
                assert(forall|k: int|
                    idx < k < newc.len() ==> newc[k] == oldc[k - 1]);
                assert(forall|k: int|
                    idx <= k < oldc.len() ==> oldc[k].position >= position && oldc[k].position
                        != position);
                assert forall|p: nat|
                    self.has_position(p) implies (old(self).has_position(p) || p
                    == position as nat) by {
                    let i = choose|i: int|
                        0 <= i < newc.len() && newc[i].position == p;
                    if i < idx {
                        assert(oldc[i].position == p);
                    } else if i > idx {
                        assert(oldc[i - 1].position == p);
                    }
                }
                assert forall|p: nat|
                    (old(self).has_position(p) || p == position as nat) implies self.has_position(p) by {
                    if p == position as nat {
                        assert(newc[idx as int].position == p);
                    } else {
                        let i = choose|i: int|
                            0 <= i < oldc.len() && oldc[i].position == p;
                        if i < idx {
                            assert(newc[i].position == p);
                        } else {
                            assert(newc[i + 1].position == p);
                        }
                    }
                }
            }
        }
    }
}

/// Two cursor sets with the same cursors and the same primary index; the
/// id counter may differ.
pub open spec fn same_cursors(a: CursorSet, b: CursorSet) -> bool {
    a.cursors@ == b.cursors@ && a.primary == b.primary
}

/// Strictly increasing integer positions grow at least as fast as the index.
pub proof fn lemma_sorted_gap(c: Seq<Cursor>, i: int, j: int)
    requires
        0 <= i <= j < c.len(),
        forall|x: int, y: int| 0 <= x < y < c.len() ==> c[x].position < c[y].position,
    ensures
        c[j].position - c[i].position >= j - i,
    decreases j - i,
{
    if i < j {
        lemma_sorted_gap(c, i, j - 1);
    }
}

impl CursorSet {
    /// An exact copy of this cursor set.
    pub fn snapshot(&self) -> (r: CursorSet)
        ensures
            r.cursors@ == self.cursors@,
            r.primary == self.primary,
            r.next_id == self.next_id,
    {
        let n = self.cursors.len();
        let mut cursors: Vec<Cursor> = Vec::new();
        let mut i: usize = 0;
        while i < n
            invariant
                i <= n,
                n == self.cursors@.len(),
                cursors@ == self.cursors@.take(i as int),
            decreases n - i,
        {
            cursors.push(self.cursors[i]);
            assert(cursors@ =~= self.cursors@.take(i + 1));
            i = i + 1;
        }
        assert(cursors@ =~= self.cursors@);
        CursorSet { cursors, primary: self.primary, next_id: self.next_id }
    }
}


/// A non-decreasing position sequence with runs of equal values collapsed to
/// one: the positions that remain after duplicate cursors merge.
pub open spec fn dedup_positions(v: Seq<usize>) -> Seq<usize>
    decreases v.len(),
{
    if v.len() == 0 {
        Seq::empty()
    } else {
        let rest = dedup_positions(v.drop_last());
        if rest.len() > 0 && rest.last() == v.last() {
            rest
        } else {
            rest.push(v.last())
        }
    }
}

impl CursorSet {
    /// Rebuilds the set after an edit or movement: cursor `i` becomes
    /// `newcs_in[i]`, and cursors that land on the same position collapse
    /// into one. The primary cursor follows its new position — into the
    /// merged cursor when it collapses, so primary status survives a merge.
    /// The merged cursor keeps the first colliding cursor's identifier;
    /// identifiers are informational only and nothing depends on them.
    /// Input positions must be non-decreasing and clamped, anchors clamped,
    /// one input cursor per existing cursor.
    #[verifier::rlimit(100)]
    pub fn rebuild(&mut self, newcs_in: &Vec<Cursor>, new_len: usize)
        requires
            newcs_in@.len() == old(self).cursors@.len(),
            newcs_in@.len() >= 1,
            old(self).primary < old(self).cursors@.len(),
            forall|i: int, j: int|
                0 <= i <= j < newcs_in@.len() ==> newcs_in@[i].position <= newcs_in@[j].position,
            forall|i: int| 0 <= i < newcs_in@.len() ==> newcs_in@[i].position <= new_len,
            forall|i: int|
                0 <= i < newcs_in@.len() && newcs_in@[i].anchor is Some ==> newcs_in@[i].anchor->0
                    <= new_len,
        ensures
            final(self).wf(new_len as nat),
            final(self).cursors@.map_values(|c: Cursor| c.position) == dedup_positions(
                newcs_in@.map_values(|c: Cursor| c.position),
            ),
            final(self).spec_primary().position == newcs_in@[old(self).primary as int].position,
            final(self).next_id == old(self).next_id,
            final(self).cursors@.len() <= newcs_in@.len(),
            (forall|j: int| 0 <= j < newcs_in@.len() ==> newcs_in@[j].anchor is None)
                ==> forall|k: int|
                0 <= k < final(self).cursors@.len() ==> final(self).cursors@[k].anchor is None,
            (forall|i: int, j: int|
                0 <= i < j < newcs_in@.len() ==> newcs_in@[i].position < newcs_in@[j].position)
                ==> final(self).cursors@ == newcs_in@ && final(self).primary == old(self).primary,
    {
        let n = self.cursors.len();
        let primary0 = self.primary;
        let ghost strict = forall|i: int, j: int|
            0 <= i < j < newcs_in@.len() ==> newcs_in@[i].position < newcs_in@[j].position;
        let ghost no_anchors = forall|j: int|
            0 <= j < newcs_in@.len() ==> newcs_in@[j].anchor is None;
        let mut newcs: Vec<Cursor> = Vec::new();
        let mut new_primary: usize = 0;
        let mut j: usize = 0;
        while j < n
            invariant
                j <= n,
                n == newcs_in@.len(),
                n == self.cursors@.len(),
                self.cursors@ == old(self).cursors@,
                self.primary == primary0,
                primary0 < n,
                strict == (forall|x: int, y: int|
                    0 <= x < y < n ==> newcs_in@[x].position < newcs_in@[y].position),
                no_anchors == (forall|x: int| 0 <= x < n ==> newcs_in@[x].anchor is None),
                forall|x: int, y: int|
                    0 <= x <= y < n ==> newcs_in@[x].position <= newcs_in@[y].position,
                forall|x: int| 0 <= x < n ==> newcs_in@[x].position <= new_len,
                forall|x: int|
                    0 <= x < n && newcs_in@[x].anchor is Some ==> newcs_in@[x].anchor->0
                        <= new_len,
                newcs@.len() <= j,
                newcs@.map_values(|c: Cursor| c.position) == dedup_positions(
                    newcs_in@.map_values(|c: Cursor| c.position).take(j as int),
                ),
                j > 0 ==> newcs@.len() >= 1 && newcs@.last().position == newcs_in@[
                    j - 1
                ].position,
                forall|x: int, y: int|
                    0 <= x < y < newcs@.len() ==> newcs@[x].position < newcs@[y].position,
                forall|k: int|
                    0 <= k < newcs@.len() ==> newcs@[k].position <= new_len && (newcs@[
                        k
                    ].anchor is Some ==> newcs@[k].anchor->0 <= new_len),
                no_anchors ==> forall|k: int|
                    0 <= k < newcs@.len() ==> newcs@[k].anchor is None,
                strict ==> newcs@ == newcs_in@.take(j as int),
                strict && j > primary0 ==> new_primary == primary0,
                j > primary0 ==> new_primary < newcs@.len() && newcs@[
                    new_primary as int
                ].position == newcs_in@[primary0 as int].position,
            decreases n - j,
        {
            let c = newcs_in[j];
            let ghost newcs_old = newcs@;
            let pushed: bool = if newcs.len() == 0 {
                true
            } else {
                newcs[newcs.len() - 1].position < c.position
            };
            if pushed {
                newcs.push(c);
            }
            proof {
                let pmap = newcs_in@.map_values(|c: Cursor| c.position);
                assert(pmap.take(j + 1).drop_last() =~= pmap.take(j as int));
                assert(pmap.take(j + 1).last() == pmap[j as int]);
                if pushed {
                    assert(newcs@.map_values(|c: Cursor| c.position) =~= newcs_old.map_values(
                        |c: Cursor| c.position,
                    ).push(c.position));
                } else {
                    assert(newcs@.last().position == newcs_in@[j - 1].position);
                    assert(newcs_in@[j - 1].position <= c.position);
                    assert(newcs@.last().position == c.position);
                }
                assert(newcs@.map_values(|c: Cursor| c.position) =~= dedup_positions(
                    pmap.take(j + 1),
                ));
                if strict {
                    if j > 0 {
                        assert(newcs_in@[j - 1].position < newcs_in@[j as int].position);
                    }
                    assert(pushed);
                    assert(newcs@ =~= newcs_in@.take(j + 1));
                }
            }
            if j == primary0 {
                new_primary = newcs.len() - 1;
            }
            j = j + 1;
        }
        proof {
            let pmap = newcs_in@.map_values(|c: Cursor| c.position);
            assert(pmap.take(n as int) =~= pmap);
            if strict {
                assert(newcs@ =~= newcs_in@);
            }
        }
        self.cursors = newcs;
        self.primary = new_primary;
    }
}

/// The last surviving position is the input's last position.
pub proof fn lemma_dedup_last(v: Seq<usize>)
    requires
        v.len() >= 1,
    ensures
        dedup_positions(v).len() >= 1,
        dedup_positions(v).last() == v.last(),
    decreases v.len(),
{
    if v.len() > 1 {
        lemma_dedup_last(v.drop_last());
    }
}

} // verus!
