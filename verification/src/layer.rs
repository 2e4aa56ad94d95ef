//! A layer: the row of chunks at one vertical chunk coordinate, with its
//! active-set bookkeeping.

use vstd::prelude::*;

use std::collections::HashMap;

use crate::chunk::{Chunk, ChunkView};
use crate::gravity::{TriView, tri_step};
use crate::boundary::{EdgeTri, GravityMasks, edge_step};

verus! {

broadcast use vstd::std_specs::hash::group_hash_axioms;

/// The chunk models of a keyed chunk map.
pub open spec fn chunks_view(m: Map<i32, Chunk>) -> Map<i32, ChunkView> {
    Map::new(|k: i32| m.dom().contains(k), |k: i32| m[k]@)
}

/// What the interior pass leaves in the chunk at `x`: the resolved middle of
/// the window made of `x` and snapshots of its two neighbors.
pub open spec fn nz_mid(cv: Map<i32, ChunkView>, x: i32, state: bool) -> ChunkView {
    tri_step(
        TriView { mid: cv[x], left: cv[(x - 1) as i32], right: cv[(x + 1) as i32] },
        state,
    ).mid
}

/// What one whole interior pass leaves in a layer: every listed chunk is
/// resolved against a snapshot of the layer taken before the pass, so the
/// listed chunks may be resolved in any order, or in parallel.
pub open spec fn nz_pass(cv: Map<i32, ChunkView>, xs: Seq<i32>, state: bool) -> Map<
    i32,
    ChunkView,
> {
    Map::new(
        |k: i32| cv.dom().contains(k),
        |k: i32|
            if xs.contains(k) {
                nz_mid(cv, k, state)
            } else {
                cv[k]
            },
    )
}

/// The below-layer coordinates that the boundary pass of source `x` writes.
pub open spec fn down_pair(x: i32, y_is_odd: bool) -> (i32, i32) {
    if y_is_odd {
        (x, (x + 1) as i32)
    } else {
        ((x - 1) as i32, x)
    }
}

/// One boundary resolution applied to the layer pair: the source chunk `x`
/// exchanges mass with the two chunks below it, reading the bottom rows of
/// its own neighbors as they stand.
pub open spec fn zero_apply(
    cur: Map<i32, ChunkView>,
    prev: Map<i32, ChunkView>,
    x: i32,
    y_is_odd: bool,
    state: bool,
) -> (Map<i32, ChunkView>, Map<i32, ChunkView>) {
    let (dlx, drx) = down_pair(x, y_is_odd);
    let lgm = GravityMasks {
        some_mask: cur[(x - 1) as i32].occ[0],
        gravity_mask: cur[(x - 1) as i32].mob[0],
    };
    let rgm = GravityMasks {
        some_mask: cur[(x + 1) as i32].occ[0],
        gravity_mask: cur[(x + 1) as i32].mob[0],
    };
    let t = edge_step(EdgeTri { mid: cur[x], dl: prev[dlx], dr: prev[drx] }, lgm, rgm, state);
    (cur.insert(x, t.mid), prev.insert(dlx, t.dl).insert(drx, t.dr))
}

/// The boundary resolutions of the listed sources, applied in list order.
pub open spec fn zero_fold(
    cur: Map<i32, ChunkView>,
    prev: Map<i32, ChunkView>,
    xs: Seq<i32>,
    y_is_odd: bool,
    state: bool,
) -> (Map<i32, ChunkView>, Map<i32, ChunkView>)
    decreases xs.len(),
{
    if xs.len() == 0 {
        (cur, prev)
    } else {
        let (c1, p1) = zero_fold(cur, prev, xs.drop_last(), y_is_odd, state);
        zero_apply(c1, p1, xs.last(), y_is_odd, state)
    }
}

/// Every listed source is far from the numeric edge, present with both
/// horizontal neighbors, and has both its below-layer targets present.
pub open spec fn zero_pre(
    cur_dom: Set<i32>,
    prev_dom: Set<i32>,
    xs: Seq<i32>,
    y_is_odd: bool,
) -> bool {
    forall|i: int|
        0 <= i < xs.len() ==> {
            let x = #[trigger] xs[i];
            &&& -0x8000_0000 < x < 0x7fff_ffff
            &&& cur_dom.contains(x)
            &&& cur_dom.contains((x - 1) as i32)
            &&& cur_dom.contains((x + 1) as i32)
            &&& prev_dom.contains(down_pair(x, y_is_odd).0)
            &&& prev_dom.contains(down_pair(x, y_is_odd).1)
        }
}

/// Every listed chunk is far from the numeric edge and present with both
/// horizontal neighbors.
pub open spec fn nz_pre(cur_dom: Set<i32>, xs: Seq<i32>) -> bool {
    forall|i: int|
        0 <= i < xs.len() ==> {
            let x = #[trigger] xs[i];
            &&& -0x8000_0000 < x < 0x7fff_ffff
            &&& cur_dom.contains(x)
            &&& cur_dom.contains((x - 1) as i32)
            &&& cur_dom.contains((x + 1) as i32)
        }
}

/// One row of chunks at a fixed vertical chunk coordinate.
///
/// `map` keys the chunks by horizontal coordinate. The two `simulate` lists
/// carry the active chunk coordinates split by horizontal parity, the
/// partition that makes the boundary pass safe to run in parallel within
/// one parity class.
pub struct Layer {
    pub map: HashMap<i32, Chunk>,
    pub simulate_odd: Vec<i32>,
    pub simulate_even: Vec<i32>,
}

impl Layer {
    /// A layer with no chunks.
    pub fn new() -> (l: Layer)
        ensures
            l.map@.dom() == Set::<i32>::empty(),
            l.simulate_odd@.len() == 0,
            l.simulate_even@.len() == 0,
    {
        Layer { map: HashMap::new(), simulate_odd: Vec::new(), simulate_even: Vec::new() }
    }

    /// One interior pass over every active chunk of this layer.
    ///
    /// Left and right neighbor snapshots for every listed chunk are taken
    /// before any chunk is resolved, so every resolution reads the layer as
    /// it stood when the pass began.
    pub fn gravity_step_non_zero(&mut self, state: bool)
        requires
            nz_pre(
                old(self).map@.dom(),
                old(self).simulate_even@ + old(self).simulate_odd@,
            ),
            distinct_coords(old(self).simulate_even@ + old(self).simulate_odd@),
            old(self).simulate_even@.len() + old(self).simulate_odd@.len() <= usize::MAX,
        ensures
            final(self).map@.dom() == old(self).map@.dom(),
            forall|k: i32|
                final(self).map@.dom().contains(k) ==> #[trigger] final(self).map@[k]@ == nz_pass(
                    chunks_view(old(self).map@),
                    old(self).simulate_even@ + old(self).simulate_odd@,
                    state,
                )[k],
            final(self).simulate_odd@ == old(self).simulate_odd@,
            final(self).simulate_even@ == old(self).simulate_even@,
    {
        let ghost cv0 = chunks_view(self.map@);
        let ghost dom0 = self.map@.dom();
        let ghost so0 = self.simulate_odd@;
        let ghost se0 = self.simulate_even@;
        let ghost xs = self.simulate_even@ + self.simulate_odd@;
        proof {
            assert(xs.take(0) =~= Seq::<i32>::empty());
        }
        let total: usize = self.simulate_even.len() + self.simulate_odd.len();

        // Take the snapshots first: (coordinate, left copy, right copy).
        let mut snap: Vec<(i32, Chunk, Chunk)> = Vec::new();
        let mut i: usize = 0;
        while i < total
            invariant
                self.map@.dom() == dom0,
                chunks_view(self.map@) == cv0,
                self.simulate_odd@ == so0,
                self.simulate_even@ == se0,
                xs == se0 + so0,
                total == xs.len(),
                nz_pre(dom0, xs),
                i <= xs.len(),
                snap@.len() == i as int,
                forall|j: int|
                    0 <= j < i as int ==> {
                        let (x, l, r) = #[trigger] snap@[j];
                        &&& x == xs[j]
                        &&& l@ == cv0[(x - 1) as i32]
                        &&& r@ == cv0[(x + 1) as i32]
                    },
            decreases xs.len() - i,
        {
            let x = if i < self.simulate_even.len() {
                self.simulate_even[i]
            } else {
                self.simulate_odd[i - self.simulate_even.len()]
            };
            assert(x == xs[i as int]);
            let l = self.map.get(&(x - 1)).unwrap().duplicate();
            let r = self.map.get(&(x + 1)).unwrap().duplicate();
            snap.push((x, l, r));
            i = i + 1;
        }

        // Resolve every listed chunk against its snapshots.
        let mut j: usize = 0;
        while j < snap.len()
            invariant
                self.map@.dom() == dom0,
                nz_pre(dom0, xs),
                distinct_coords(xs),
                self.simulate_odd@ == so0,
                self.simulate_even@ == se0,
                j <= snap@.len(),
                snap@.len() == xs.len(),
                forall|jj: int|
                    0 <= jj < xs.len() ==> {
                        let (x, l, r) = #[trigger] snap@[jj];
                        &&& x == xs[jj]
                        &&& l@ == cv0[(x - 1) as i32]
                        &&& r@ == cv0[(x + 1) as i32]
                    },
                forall|k: i32|
                    dom0.contains(k) ==> #[trigger] self.map@[k]@ == (
                    if xs.take(j as int).contains(k) {
                        nz_mid(cv0, k, state)
                    } else {
                        cv0[k]
                    }),
            decreases snap@.len() - j,
        {
            let (x, mut l, mut r) = snap[j];
            let mut c = self.map.remove(&x).unwrap();
            c.gravity_step_non_zero(&mut l, &mut r, state);
            self.map.insert(x, c);
            proof {
                broadcast use vstd::seq_lib::lemma_seq_contains_after_push;

                assert(self.map@.dom() =~= dom0);
                assert(xs.take(j as int + 1) =~= xs.take(j as int).push(xs[j as int]));
            }
            j = j + 1;
        }
        proof {
            assert(xs.take(xs.len() as int) =~= xs);
        }
    }
}

impl Layer {
    /// One boundary pass over every active chunk of this layer, writing into
    /// `prev`, the layer directly below.
    ///
    /// Sources are resolved parity class by parity class, the odd class
    /// first: within one class the below-layer target pairs are pairwise
    /// disjoint, so a pool may resolve one class in parallel, while the two
    /// classes stay strictly ordered.
    pub fn gravity_step_zero(&mut self, prev: &mut Layer, y_is_odd: bool, state: bool)
        requires
            zero_pre(
                old(self).map@.dom(),
                old(prev).map@.dom(),
                old(self).simulate_odd@ + old(self).simulate_even@,
                y_is_odd,
            ),
            old(self).simulate_odd@.len() + old(self).simulate_even@.len() <= usize::MAX,
        ensures
            final(self).map@.dom() == old(self).map@.dom(),
            final(prev).map@.dom() == old(prev).map@.dom(),
            ({
                let r = zero_fold(
                    chunks_view(old(self).map@),
                    chunks_view(old(prev).map@),
                    old(self).simulate_odd@ + old(self).simulate_even@,
                    y_is_odd,
                    state,
                );
                &&& forall|k: i32|
                    final(self).map@.dom().contains(k) ==> #[trigger] final(self).map@[k]@
                        == r.0[k]
                &&& forall|k: i32|
                    final(prev).map@.dom().contains(k) ==> #[trigger] final(prev).map@[k]@
                        == r.1[k]
            }),
            final(self).simulate_odd@ == old(self).simulate_odd@,
            final(self).simulate_even@ == old(self).simulate_even@,
            final(prev).simulate_odd@ == old(prev).simulate_odd@,
            final(prev).simulate_even@ == old(prev).simulate_even@,
    {
        let ghost cv0 = chunks_view(self.map@);
        let ghost pv0 = chunks_view(prev.map@);
        let ghost dom0 = self.map@.dom();
        let ghost pdom0 = prev.map@.dom();
        let ghost so0 = self.simulate_odd@;
        let ghost se0 = self.simulate_even@;
        let ghost pso0 = prev.simulate_odd@;
        let ghost pse0 = prev.simulate_even@;
        let ghost xs = self.simulate_odd@ + self.simulate_even@;
        proof {
            assert(xs.take(0) =~= Seq::<i32>::empty());
        }
        let total: usize = self.simulate_odd.len() + self.simulate_even.len();

        let mut i: usize = 0;
        while i < total
            invariant
                self.map@.dom() == dom0,
                prev.map@.dom() == pdom0,
                self.simulate_odd@ == so0,
                self.simulate_even@ == se0,
                prev.simulate_odd@ == pso0,
                prev.simulate_even@ == pse0,
                xs == so0 + se0,
                total == xs.len(),
                zero_pre(dom0, pdom0, xs, y_is_odd),
                i <= xs.len(),
                forall|k: i32|
                    dom0.contains(k) ==> #[trigger] self.map@[k]@ == zero_fold(
                        cv0,
                        pv0,
                        xs.take(i as int),
                        y_is_odd,
                        state,
                    ).0[k],
                forall|k: i32|
                    pdom0.contains(k) ==> #[trigger] prev.map@[k]@ == zero_fold(
                        cv0,
                        pv0,
                        xs.take(i as int),
                        y_is_odd,
                        state,
                    ).1[k],
            decreases xs.len() - i,
        {
            let x = if i < self.simulate_odd.len() {
                self.simulate_odd[i]
            } else {
                self.simulate_even[i - self.simulate_odd.len()]
            };
            assert(x == xs[i as int]);

            let lgm = self.map.get(&(x - 1)).unwrap().gravity_masks();
            let rgm = self.map.get(&(x + 1)).unwrap().gravity_masks();
            let mut c = self.map.remove(&x).unwrap();

            let dlx = if y_is_odd {
                x
            } else {
                x - 1
            };
            let drx = if y_is_odd {
                x + 1
            } else {
                x
            };
            let mut dl = prev.map.remove(&dlx).unwrap();
            let mut dr = prev.map.remove(&drx).unwrap();

            c.gravity_step_zero(&mut dl, &mut dr, lgm, rgm, state);

            self.map.insert(x, c);
            prev.map.insert(dlx, dl);
            prev.map.insert(drx, dr);

            proof {
                assert(self.map@.dom() =~= dom0);
                assert(prev.map@.dom() =~= pdom0);
                assert(xs.take(i as int + 1).drop_last() =~= xs.take(i as int));
                assert(xs.take(i as int + 1).last() == xs[i as int]);
            }
            i = i + 1;
        }
        proof {
            assert(xs.take(xs.len() as int) =~= xs);
        }
    }
}

/// No coordinate is listed twice.
pub open spec fn distinct_coords(xs: Seq<i32>) -> bool {
    forall|i: int, j: int| 0 <= i < j < xs.len() ==> xs[i] != xs[j]
}

/// Whether a chunk holds any mobile particle.
pub open spec fn chunk_active(c: ChunkView) -> bool {
    exists|y: int| 0 <= y < 64 && c.mob[y] != 0
}

/// `x` stands in exactly the parity list that its chunk's content demands:
/// listed if and only if some cell of the chunk at `x` is mobile.
pub open spec fn list_matches(l: Layer, x: i32) -> bool {
    &&& (l.simulate_odd@.contains(x) <==> (x % 2 != 0 && chunk_active(l.map@[x]@)))
    &&& (l.simulate_even@.contains(x) <==> (x % 2 == 0 && chunk_active(l.map@[x]@)))
}

/// The boundary fold keys exactly the chunks its inputs key.
pub proof fn lemma_zero_fold_dom(
    cur: Map<i32, ChunkView>,
    prev: Map<i32, ChunkView>,
    xs: Seq<i32>,
    y_is_odd: bool,
    state: bool,
)
    requires
        zero_pre(cur.dom(), prev.dom(), xs, y_is_odd),
    ensures
        zero_fold(cur, prev, xs, y_is_odd, state).0.dom() == cur.dom(),
        zero_fold(cur, prev, xs, y_is_odd, state).1.dom() == prev.dom(),
    decreases xs.len(),
{
    if xs.len() > 0 {
        lemma_zero_fold_dom(cur, prev, xs.drop_last(), y_is_odd, state);
        let (c1, p1) = zero_fold(cur, prev, xs.drop_last(), y_is_odd, state);
        let x = xs.last();
        assert(x == xs[xs.len() - 1]);
        let (dlx, drx) = down_pair(x, y_is_odd);
        assert(c1.insert(x, zero_apply(c1, p1, x, y_is_odd, state).0[x]).dom() =~= cur.dom());
        assert(zero_fold(cur, prev, xs, y_is_odd, state).0.dom() =~= cur.dom());
        assert(zero_fold(cur, prev, xs, y_is_odd, state).1.dom() =~= prev.dom());
    }
}

/// Add `x` to the list if it is missing.
fn list_insert(v: &mut Vec<i32>, x: i32)
    ensures
        old(v)@.contains(x) ==> final(v)@ == old(v)@,
        !old(v)@.contains(x) ==> final(v)@ == old(v)@.push(x),
        forall|k: i32| final(v)@.contains(k) <==> old(v)@.contains(k) || k == x,
{
    let mut i: usize = 0;
    while i < v.len()
        invariant
            i <= v@.len(),
            forall|j: int| 0 <= j < i as int ==> v@[j] != x,
        decreases v@.len() - i,
    {
        if v[i] == x {
            return ;
        }
        i = i + 1;
    }
    let ghost v0 = v@;
    v.push(x);
    proof {
        broadcast use vstd::seq_lib::lemma_seq_contains_after_push;

        assert(!v0.contains(x));
    }
}

/// Drop every occurrence of `x` from the list, keeping the others in order.
fn list_remove(v: &mut Vec<i32>, x: i32)
    ensures
        !final(v)@.contains(x),
        forall|k: i32| k != x ==> (final(v)@.contains(k) <==> old(v)@.contains(k)),
{
    let mut kept: Vec<i32> = Vec::new();
    let mut i: usize = 0;
    while i < v.len()
        invariant
            i <= v@.len(),
            !kept@.contains(x),
            forall|k: i32|
                k != x ==> (kept@.contains(k) <==> v@.take(i as int).contains(k)),
        decreases v@.len() - i,
    {
        proof {
            broadcast use vstd::seq_lib::lemma_seq_contains_after_push;

            assert(v@.take(i as int + 1) =~= v@.take(i as int).push(v@[i as int]));
        }
        let e = v[i];
        if e != x {
            kept.push(e);
        }
        i = i + 1;
    }
    proof {
        assert(v@.take(v@.len() as int) =~= v@);
    }
    *v = kept;
}

impl Layer {
    /// Bring the membership of `x` in the parity lists back in line with the
    /// chunk's content: listed in its parity class if and only if some cell
    /// of it is mobile. Called after every step that can change a mobility
    /// mask, as the active-set bookkeeping demands.
    pub fn refresh_active(&mut self, x: i32)
        requires
            old(self).map@.dom().contains(x),
        ensures
            final(self).map@ == old(self).map@,
            ({
                let active = chunk_active(final(self).map@[x]@);
                let odd = x % 2 != 0;
                &&& (final(self).simulate_odd@.contains(x) <==> odd && active)
                &&& (final(self).simulate_even@.contains(x) <==> !odd && active)
                &&& forall|k: i32|
                    k != x ==> (final(self).simulate_odd@.contains(k) <==> old(
                        self,
                    ).simulate_odd@.contains(k))
                &&& forall|k: i32|
                    k != x ==> (final(self).simulate_even@.contains(k) <==> old(
                        self,
                    ).simulate_even@.contains(k))
            }),
    {
        let active = self.map.get(&x).unwrap().is_active();
        let odd = x % 2 != 0;
        if active {
            if odd {
                list_insert(&mut self.simulate_odd, x);
                list_remove(&mut self.simulate_even, x);
            } else {
                list_insert(&mut self.simulate_even, x);
                list_remove(&mut self.simulate_odd, x);
            }
        } else {
            list_remove(&mut self.simulate_odd, x);
            list_remove(&mut self.simulate_even, x);
        }
    }

    /// The active coordinates of this layer, odd class first.
    pub fn active_coords(&self) -> (r: Vec<i32>)
        requires
            self.simulate_odd@.len() + self.simulate_even@.len() <= usize::MAX,
        ensures
            r@ == self.simulate_odd@ + self.simulate_even@,
    {
        let mut r: Vec<i32> = Vec::new();
        let mut i: usize = 0;
        while i < self.simulate_odd.len()
            invariant
                i <= self.simulate_odd@.len(),
                r@ == self.simulate_odd@.take(i as int),
            decreases self.simulate_odd@.len() - i,
        {
            r.push(self.simulate_odd[i]);
            proof {
                assert(r@ =~= self.simulate_odd@.take(i as int + 1));
            }
            i = i + 1;
        }
        proof {
            assert(r@ =~= self.simulate_odd@);
        }
        let mut j: usize = 0;
        while j < self.simulate_even.len()
            invariant
                j <= self.simulate_even@.len(),
                r@ == self.simulate_odd@ + self.simulate_even@.take(j as int),
            decreases self.simulate_even@.len() - j,
        {
            r.push(self.simulate_even[j]);
            proof {
                assert(r@ =~= self.simulate_odd@ + self.simulate_even@.take(j as int + 1));
            }
            j = j + 1;
        }
        proof {
            assert(r@ =~= self.simulate_odd@ + self.simulate_even@);
        }
        r
    }

    /// Whether any chunk of this layer is listed as active.
    pub fn has_active(&self) -> (r: bool)
        ensures
            r == (self.simulate_odd@.len() > 0 || self.simulate_even@.len() > 0),
    {
        self.simulate_odd.len() > 0 || self.simulate_even.len() > 0
    }
}

} // verus!
