//! The selection set: a mutable set of catalog positions with toggle
//! semantics, used to build a playback sub-list.
//!
//! Positions, not identifiers, are selected, since duplicate URLs share
//! an identifier but are distinct catalog positions. The selection
//! lives only as long as one opened catalog: a fresh load must clear
//! it. Materializing returns the selected entries in ascending catalog
//! position, not in the order they were selected.

use vstd::prelude::*;
use crate::catalog::{entry_seq_view, EntryView, VideoCatalog, VideoEntry};

verus! {

/// Toggling a position in a selection: remove it when present, add it
/// when absent.
pub open spec fn toggle_spec(s: Set<int>, p: int) -> Set<int> {
    if s.contains(p) {
        s.remove(p)
    } else {
        s.insert(p)
    }
}

/// The entries of `entries` at selected positions from `i` on, in
/// ascending position order.
pub open spec fn materialize_from(entries: Seq<EntryView>, sel: Set<int>, i: int) -> Seq<
    EntryView,
>
    decreases entries.len() - i,
{
    if i < 0 || i >= entries.len() {
        Seq::empty()
    } else if sel.contains(i) {
        seq![entries[i]] + materialize_from(entries, sel, i + 1)
    } else {
        materialize_from(entries, sel, i + 1)
    }
}

/// A set of selected catalog positions. Its view is the set of
/// positions; internally each position is stored at most once.
pub struct SelectionSet {
    positions: Vec<usize>,
}

impl View for SelectionSet {
    type V = Set<int>;

    closed spec fn view(&self) -> Set<int> {
        Set::new(
            |x: int|
                exists|j: int|
                    0 <= j < self.positions@.len() && self.positions@[j] as int == x,
        )
    }
}

impl SelectionSet {
    /// Internal well-formedness: no position stored twice.
    pub closed spec fn wf(&self) -> bool {
        self.positions@.no_duplicates()
    }

    /// An empty selection.
    pub fn new() -> (r: SelectionSet)
        ensures
            r@ == Set::<int>::empty(),
            r.wf(),
    {
        let r = SelectionSet { positions: Vec::new() };
        proof {
            assert(r@ =~= Set::<int>::empty());
        }
        r
    }

    /// Whether position `p` is selected.
    pub fn is_selected(&self, p: usize) -> (r: bool)
        ensures
            r == self@.contains(p as int),
    {
        let n = self.positions.len();
        let mut i: usize = 0;
        while i < n
            invariant
                i <= n == self.positions@.len(),
                forall|j: int| 0 <= j < i ==> self.positions@[j] != p,
            decreases n - i,
        {
            if self.positions[i] == p {
                return true;
            }
            i += 1;
        }
        proof {
            if self@.contains(p as int) {
                let j = choose|j: int|
                    0 <= j < self.positions@.len() && self.positions@[j] as int == p as int;
                assert(self.positions@[j] != p);
            }
        }
        false
    }

    /// Whether nothing is selected.
    pub fn is_empty(&self) -> (r: bool)
        ensures
            r == (self@ == Set::<int>::empty()),
    {
        if self.positions.len() == 0 {
            proof {
                assert(self@ =~= Set::<int>::empty());
            }
            true
        } else {
            proof {
                assert(self@.contains(self.positions@[0] as int));
            }
            false
        }
    }

    /// Toggles position `p`: removes it when selected, adds it when
    /// not.
    pub fn toggle(&mut self, p: usize)
        requires
            old(self).wf(),
        ensures
            final(self).wf(),
            final(self)@ == toggle_spec(old(self)@, p as int),
    {
        let n = self.positions.len();
        let mut i: usize = 0;
        while i < n
            invariant
                i <= n == self.positions@.len(),
                self == old(self),
                old(self).wf(),
                forall|j: int| 0 <= j < i ==> self.positions@[j] != p,
            decreases n - i,
        {
            if self.positions[i] == p {
                let ghost op = self.positions@;
                self.positions.remove(i);
                proof {
                    op.remove_ensures(i as int);
                    let opr = op.remove(i as int);
                    assert(self.positions@ == opr);
                    assert(op == old(self).positions@);
                    assert(op[i as int] == p);
                    assert(old(self)@.contains(p as int));
                    assert forall|a: int, b: int|
                        0 <= a < opr.len() && 0 <= b < opr.len() && a != b implies opr[a]
                        != opr[b] by {
                        let a0: int = if a < i {
                            a
                        } else {
                            a + 1
                        };
                        let b0: int = if b < i {
                            b
                        } else {
                            b + 1
                        };
                        assert(opr[a] == op[a0]);
                        assert(opr[b] == op[b0]);
                        assert(op[a0] != op[b0]);
                    }
                    assert(final(self).wf());
                    assert forall|x: int| final(self)@.contains(x) implies old(self)@.remove(
                        p as int,
                    ).contains(x) by {
                        let j = choose|j: int|
                            0 <= j < self.positions@.len() && self.positions@[j] as int == x;
                        let j0: int = if j < i {
                            j
                        } else {
                            j + 1
                        };
                        assert(opr[j] == op[j0]);
                        assert(op[j0] != op[i as int]);
                        assert(op[j0] as int == x);
                    }
                    assert forall|x: int|
                        old(self)@.remove(p as int).contains(x) implies final(self)@.contains(
                        x,
                    ) by {
                        let j = choose|j: int| 0 <= j < op.len() && op[j] as int == x;
                        if j < i {
                            assert(opr[j] == op[j]);
                        } else {
                            assert(j != i);
                            assert(opr[j - 1] == op[j]);
                        }
                    }
                    assert(final(self)@ =~= old(self)@.remove(p as int));
                }
                return;
            }
            i += 1;
        }
        let ghost op = self.positions@;
        self.positions.push(p);
        proof {
            assert(!old(self)@.contains(p as int)) by {
                if old(self)@.contains(p as int) {
                    let j = choose|j: int| 0 <= j < op.len() && op[j] as int == p as int;
                    assert(op[j] != p);
                }
            }
            assert forall|a: int, b: int|
                0 <= a < self.positions@.len() && 0 <= b < self.positions@.len() && a
                    != b implies self.positions@[a] != self.positions@[b] by {
                if a < op.len() && b < op.len() {
                    assert(self.positions@[a] == op[a]);
                    assert(self.positions@[b] == op[b]);
                } else if a == op.len() {
                    assert(self.positions@[b] == op[b]);
                    assert(op[b] != p);
                } else {
                    assert(self.positions@[a] == op[a]);
                    assert(op[a] != p);
                }
            }
            assert forall|x: int| final(self)@.contains(x) implies old(self)@.insert(
                p as int,
            ).contains(x) by {
                let j = choose|j: int|
                    0 <= j < self.positions@.len() && self.positions@[j] as int == x;
                if j < op.len() {
                    assert(op[j] as int == x);
                }
            }
            assert forall|x: int|
                old(self)@.insert(p as int).contains(x) implies final(self)@.contains(x) by {
                if x == p as int {
                    assert(self.positions@[op.len() as int] as int == x);
                } else {
                    let j = choose|j: int| 0 <= j < op.len() && op[j] as int == x;
                    assert(self.positions@[j] as int == x);
                }
            }
            assert(final(self)@ =~= old(self)@.insert(p as int));
        }
    }

    /// Empties the selection; a fresh catalog load must call this.
    pub fn clear(&mut self)
        ensures
            final(self)@ == Set::<int>::empty(),
            final(self).wf(),
    {
        self.positions.clear();
        proof {
            assert(final(self)@ =~= Set::<int>::empty());
        }
    }

    /// The selected entries of the catalog, in ascending catalog
    /// position (not selection order).
    pub fn materialize(&self, catalog: &VideoCatalog) -> (r: Vec<VideoEntry>)
        ensures
            entry_seq_view(r@) == materialize_from(catalog@, self@, 0),
    {
        let n = catalog.entries.len();
        let mut r: Vec<VideoEntry> = Vec::new();
        let mut i: usize = 0;
        proof {
            assert(entry_seq_view(r@) =~= Seq::<EntryView>::empty());
        }
        while i < n
            invariant
                i <= n == catalog.entries@.len(),
                materialize_from(catalog@, self@, 0) == entry_seq_view(r@)
                    + materialize_from(catalog@, self@, i as int),
            decreases n - i,
        {
            if self.is_selected(i) {
                let ghost pr = r@;
                r.push(catalog.entries[i].clone());
                proof {
                    assert(r@.last()@ == catalog@[i as int]);
                    assert(entry_seq_view(r@) =~= entry_seq_view(pr).push(
                        catalog@[i as int],
                    ));
                    assert(materialize_from(catalog@, self@, i as int) == seq![
                        catalog@[i as int],
                    ] + materialize_from(catalog@, self@, i as int + 1));
                    assert(entry_seq_view(pr) + (seq![catalog@[i as int]] + materialize_from(
                        catalog@,
                        self@,
                        i as int + 1,
                    )) =~= entry_seq_view(r@) + materialize_from(
                        catalog@,
                        self@,
                        i as int + 1,
                    ));
                }
            }
            i += 1;
        }
        r
    }
}

/// Toggling the same position twice returns the selection to its prior
/// state: toggle is an involution.
pub proof fn lemma_toggle_involution(s: Set<int>, p: int)
    ensures
        toggle_spec(toggle_spec(s, p), p) == s,
{
    if s.contains(p) {
        assert(toggle_spec(toggle_spec(s, p), p) =~= s);
    } else {
        assert(toggle_spec(toggle_spec(s, p), p) =~= s);
    }
}

} // verus!
