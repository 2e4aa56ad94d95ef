//! The chunk store: the whole plane, and the tick that drives it.

use vstd::prelude::*;

use std::collections::HashMap;

use crate::chunk::ChunkView;
use crate::layer::{
    Layer, chunks_view, zero_fold, nz_pass, zero_pre, nz_pre, distinct_coords, down_pair,
    list_matches,
    lemma_zero_fold_dom,
};

verus! {

broadcast use vstd::std_specs::hash::group_hash_axioms;

/// The chunk models of every layer of a keyed layer map.
pub open spec fn store_view(m: Map<i32, Layer>) -> Map<i32, Map<i32, ChunkView>> {
    Map::new(|y: i32| m.dom().contains(y), |y: i32| chunks_view(m[y].map@))
}

/// One layer's step within a tick: the boundary pass into the layer below,
/// then the interior pass, with the layer's active lists taken from the
/// layers as they stood when the tick began.
pub open spec fn store_apply(
    lv: Map<i32, Map<i32, ChunkView>>,
    layers0: Map<i32, Layer>,
    y: i32,
    state: bool,
) -> Map<i32, Map<i32, ChunkView>> {
    let l0 = layers0[y];
    let zr = zero_fold(
        lv[y],
        lv[(y - 1) as i32],
        l0.simulate_odd@ + l0.simulate_even@,
        y % 2 != 0,
        state,
    );
    let c2 = nz_pass(zr.0, l0.simulate_even@ + l0.simulate_odd@, state);
    lv.insert(y, c2).insert((y - 1) as i32, zr.1)
}

/// The layer steps of the listed vertical coordinates, in list order.
pub open spec fn store_fold(
    lv: Map<i32, Map<i32, ChunkView>>,
    layers0: Map<i32, Layer>,
    ys: Seq<i32>,
    state: bool,
) -> Map<i32, Map<i32, ChunkView>>
    decreases ys.len(),
{
    if ys.len() == 0 {
        lv
    } else {
        store_apply(store_fold(lv, layers0, ys.drop_last(), state), layers0, ys.last(), state)
    }
}

/// The caller's duties before a tick: the listed vertical coordinates are
/// strictly ascending and far from the numeric edge, each has its layer and
/// the layer below allocated, and every active chunk has its horizontal
/// neighbors and both below-layer targets allocated.
pub open spec fn store_pre(m: Map<i32, Layer>, ys: Seq<i32>) -> bool {
    forall|i: int|
        0 <= i < ys.len() ==> {
            let y = #[trigger] ys[i];
            &&& -0x8000_0000 < y < 0x7fff_ffff
            &&& m.dom().contains(y)
            &&& m.dom().contains((y - 1) as i32)
            &&& (forall|j: int| 0 <= j < i ==> ys[j] < y)
            &&& zero_pre(
                m[y].map@.dom(),
                m[(y - 1) as i32].map@.dom(),
                m[y].simulate_odd@ + m[y].simulate_even@,
                y % 2 != 0,
            )
            &&& nz_pre(m[y].map@.dom(), m[y].simulate_even@ + m[y].simulate_odd@)
            &&& distinct_coords(m[y].simulate_even@ + m[y].simulate_odd@)
            &&& m[y].simulate_odd@.len() + m[y].simulate_even@.len() <= usize::MAX
        }
}

/// A prefix of a fit coordinate list is fit.
pub proof fn lemma_store_pre_prefix(m: Map<i32, Layer>, ys: Seq<i32>, n: int)
    requires
        store_pre(m, ys),
        0 <= n <= ys.len(),
    ensures
        store_pre(m, ys.take(n)),
{
    let t = ys.take(n);
    assert forall|i: int| 0 <= i < t.len() implies {
        let y = #[trigger] t[i];
        &&& -0x8000_0000 < y < 0x7fff_ffff
        &&& m.dom().contains(y)
        &&& m.dom().contains((y - 1) as i32)
        &&& (forall|j: int| 0 <= j < i ==> t[j] < y)
        &&& zero_pre(
            m[y].map@.dom(),
            m[(y - 1) as i32].map@.dom(),
            m[y].simulate_odd@ + m[y].simulate_even@,
            y % 2 != 0,
        )
        &&& nz_pre(m[y].map@.dom(), m[y].simulate_even@ + m[y].simulate_odd@)
        &&& distinct_coords(m[y].simulate_even@ + m[y].simulate_odd@)
        &&& m[y].simulate_odd@.len() + m[y].simulate_even@.len() <= usize::MAX
    } by {
        assert(t[i] == ys[i]);
        assert forall|j: int| 0 <= j < i implies t[j] < t[i] by {
            assert(t[j] == ys[j]);
        }
    }
}

/// The layer fold keys exactly the layers and chunks its input keys.
pub proof fn lemma_store_fold_dom(
    lv: Map<i32, Map<i32, ChunkView>>,
    layers0: Map<i32, Layer>,
    ys: Seq<i32>,
    state: bool,
)
    requires
        store_pre(layers0, ys),
        lv.dom() == layers0.dom(),
        forall|y: i32| lv.dom().contains(y) ==> #[trigger] lv[y].dom() == layers0[y].map@.dom(),
    ensures
        store_fold(lv, layers0, ys, state).dom() == lv.dom(),
        forall|y: i32|
            lv.dom().contains(y) ==> #[trigger] store_fold(lv, layers0, ys, state)[y].dom()
                == layers0[y].map@.dom(),
    decreases ys.len(),
{
    if ys.len() > 0 {
        assert(ys.drop_last() =~= ys.take(ys.len() - 1));
        lemma_store_pre_prefix(layers0, ys, ys.len() - 1);
        lemma_store_fold_dom(lv, layers0, ys.drop_last(), state);
        let m1 = store_fold(lv, layers0, ys.drop_last(), state);
        let y = ys.last();
        assert(y == ys[ys.len() - 1]);
        let xs = layers0[y].simulate_odd@ + layers0[y].simulate_even@;
        lemma_zero_fold_dom(m1[y], m1[(y - 1) as i32], xs, y % 2 != 0, state);
        let zr = zero_fold(m1[y], m1[(y - 1) as i32], xs, y % 2 != 0, state);
        let c2 = nz_pass(zr.0, layers0[y].simulate_even@ + layers0[y].simulate_odd@, state);
        assert(c2.dom() =~= zr.0.dom());
        let r = store_fold(lv, layers0, ys, state);
        assert(r.dom() =~= lv.dom());
        assert forall|yy: i32| lv.dom().contains(yy) implies #[trigger] r[yy].dom()
            == layers0[yy].map@.dom() by {
            if yy == y {
                assert(r[yy].dom() =~= layers0[yy].map@.dom());
            } else if yy == (y - 1) as i32 {
                assert(r[yy].dom() =~= layers0[yy].map@.dom());
            } else {
                assert(r[yy] == m1[yy]);
            }
        }
    }
}

/// No step among the first `n` listed coordinates touches the layer at
/// `yy`: a step at `y` touches the layers `y` and `y - 1`.
pub open spec fn untouched(ys: Seq<i32>, n: int, yy: i32) -> bool {
    forall|j: int|
        0 <= j < n ==> ys[j] as int != yy as int && ys[j] as int != yy as int + 1
}

/// The active-set bookkeeping a tick owes for one stepped layer: every
/// chunk it listed, and both below-layer targets of each, end the tick
/// listed exactly as their content demands.
pub open spec fn consistent_after(m: Map<i32, Layer>, m0: Map<i32, Layer>, y: i32) -> bool {
    let src = m0[y].simulate_odd@ + m0[y].simulate_even@;
    forall|k: int|
        0 <= k < src.len() ==> {
            let x = #[trigger] src[k];
            &&& list_matches(m[y], x)
            &&& list_matches(m[(y - 1) as i32], down_pair(x, y % 2 != 0).0)
            &&& list_matches(m[(y - 1) as i32], down_pair(x, y % 2 != 0).1)
        }
}

/// The whole plane: layers keyed by vertical chunk coordinate, the ascending
/// list of vertical coordinates that hold active chunks, and the phase flag
/// that alternates the diagonal resolution order between ticks.
pub struct ChunkStore {
    pub map: HashMap<i32, Layer>,
    pub simulate: Vec<i32>,
    pub state: bool,
}

impl ChunkStore {
    /// An empty plane.
    pub fn new() -> (s: ChunkStore)
        ensures
            s.map@.dom() == Set::<i32>::empty(),
            s.simulate@.len() == 0,
            s.state == false,
    {
        ChunkStore { map: HashMap::new(), simulate: Vec::new(), state: false }
    }

    /// One full simulation tick.
    ///
    /// For each listed vertical coordinate in ascending order, run the
    /// boundary pass into the layer below and then the interior pass. Once
    /// every pass is done, sweep the touched chunks and bring the active
    /// lists of their layers back in line with what the chunks now hold.
    /// The phase flag flips once at the end.
    pub fn gravity_step(&mut self)
        requires
            store_pre(old(self).map@, old(self).simulate@),
        ensures
            final(self).state == !old(self).state,
            final(self).simulate@ == old(self).simulate@,
            final(self).map@.dom() == old(self).map@.dom(),
            forall|y: i32|
                final(self).map@.dom().contains(y) ==> {
                    &&& #[trigger] final(self).map@[y].map@.dom() == old(self).map@[y].map@.dom()
                    &&& forall|k: i32|
                        final(self).map@[y].map@.dom().contains(k)
                            ==> #[trigger] final(self).map@[y].map@[k]@ == store_fold(
                            store_view(old(self).map@),
                            old(self).map@,
                            old(self).simulate@,
                            old(self).state,
                        )[y][k]
                },
            forall|i: int|
                0 <= i < old(self).simulate@.len() ==> #[trigger] consistent_after(
                    final(self).map@,
                    old(self).map@,
                    old(self).simulate@[i],
                ),
    {
        let ghost m0 = self.map@;
        let ghost sv0 = store_view(self.map@);
        let ghost ys = self.simulate@;
        let ghost dom0 = self.map@.dom();
        let ghost state0 = self.state;
        proof {
            assert(ys.take(0) =~= Seq::<i32>::empty());
        }

        let mut i: usize = 0;
        while i < self.simulate.len()
            invariant
                store_pre(m0, ys),
                self.simulate@ == ys,
                self.state == state0,
                dom0 == m0.dom(),
                sv0 == store_view(m0),
                self.map@.dom() == dom0,
                i <= ys.len(),
                forall|y: i32|
                    dom0.contains(y) ==> #[trigger] self.map@[y].map@.dom() == m0[y].map@.dom(),
                forall|y: i32|
                    dom0.contains(y) ==> forall|k: i32|
                        self.map@[y].map@.dom().contains(k) ==> #[trigger] self.map@[y].map@[k]@
                            == store_fold(sv0, m0, ys.take(i as int), state0)[y][k],
                forall|y: i32|
                    dom0.contains(y) ==> #[trigger] self.map@[y].simulate_odd@
                        == m0[y].simulate_odd@ && self.map@[y].simulate_even@
                        == m0[y].simulate_even@,
            decreases ys.len() - i,
        {
            let y = self.simulate[i];
            let ghost mpre = self.map@;
            proof {
                assert(y == ys[i as int]);
            }
            let y_is_odd = y % 2 != 0;
            let ghost lvi = store_fold(sv0, m0, ys.take(i as int), state0);

            let mut layer = self.map.remove(&y).unwrap();
            let mut prev = self.map.remove(&(y - 1)).unwrap();

            proof {
                assert(sv0.dom() =~= m0.dom());
                assert forall|yy: i32| sv0.dom().contains(yy) implies #[trigger] sv0[yy].dom()
                    == m0[yy].map@.dom() by {
                    assert(sv0[yy].dom() =~= m0[yy].map@.dom());
                }
                lemma_store_pre_prefix(m0, ys, i as int);
                lemma_store_fold_dom(sv0, m0, ys.take(i as int), state0);
                // This layer and the one below still hold their pre-tick
                // active lists.
                assert(layer.simulate_odd@ == m0[y].simulate_odd@);
                assert(chunks_view(layer.map@) =~= lvi[y]);
                assert(chunks_view(prev.map@) =~= lvi[(y - 1) as i32]);
            }

            layer.gravity_step_zero(&mut prev, y_is_odd, self.state);

            proof {
                lemma_zero_fold_dom(
                    lvi[y],
                    lvi[(y - 1) as i32],
                    m0[y].simulate_odd@ + m0[y].simulate_even@,
                    y_is_odd,
                    state0,
                );
            }

            layer.gravity_step_non_zero(self.state);

            proof {
                assert forall|kk: i32| layer.map@.dom().contains(kk) implies #[trigger] layer.map@[
                    kk
                ]@ == store_apply(lvi, m0, y, state0)[y][kk] by {}
                assert forall|kk: i32| prev.map@.dom().contains(kk) implies #[trigger] prev.map@[
                    kk
                ]@ == store_apply(lvi, m0, y, state0)[(y - 1) as i32][kk] by {}
            }

            self.map.insert(y, layer);
            self.map.insert(y - 1, prev);

            proof {
                assert(self.map@.dom() =~= dom0);
                assert(ys.take(i as int + 1).drop_last() =~= ys.take(i as int));
                assert(ys.take(i as int + 1).last() == ys[i as int]);
            }
            i = i + 1;
        }
        proof {
            assert(ys.take(ys.len() as int) =~= ys);
        }
        let ghost mfold = self.map@;

        // Bookkeeping sweep: the chunks are final now, so every refresh
        // reads the content the tick leaves behind.
        let mut i2: usize = 0;
        while i2 < self.simulate.len()
            invariant
                store_pre(m0, ys),
                self.simulate@ == ys,
                self.state == state0,
                dom0 == m0.dom(),
                self.map@.dom() == dom0,
                i2 <= ys.len(),
                forall|y: i32|
                    dom0.contains(y) ==> #[trigger] self.map@[y].map@ == mfold[y].map@,
                forall|y: i32| dom0.contains(y) ==> mfold.dom().contains(y),
                forall|y: i32|
                    dom0.contains(y) ==> #[trigger] self.map@[y].map@.dom() == m0[y].map@.dom(),
                forall|j: int|
                    0 <= j < i2 as int ==> #[trigger] consistent_after(self.map@, m0, ys[j]),
                forall|yy: i32|
                    dom0.contains(yy) && untouched(ys, i2 as int, yy)
                        ==> #[trigger] self.map@[yy].simulate_odd@ == m0[yy].simulate_odd@
                        && self.map@[yy].simulate_even@ == m0[yy].simulate_even@,
            decreases ys.len() - i2,
        {
            let y = self.simulate[i2];
            let ghost mpre = self.map@;
            proof {
                assert(y == ys[i2 as int]);
                assert(untouched(ys, i2 as int, y));
            }
            let y_is_odd = y % 2 != 0;

            let mut layer = self.map.remove(&y).unwrap();
            let mut prev = self.map.remove(&(y - 1)).unwrap();
            let ghost layer0 = layer;
            let ghost prev0 = prev;

            let xs = layer.active_coords();
            let ghost src = m0[y].simulate_odd@ + m0[y].simulate_even@;

            let mut k: usize = 0;
            while k < xs.len()
                invariant
                    xs@ == src,
                    src == m0[y].simulate_odd@ + m0[y].simulate_even@,
                    k <= xs@.len(),
                    -0x8000_0000 < y < 0x7fff_ffff,
                    y_is_odd == (y % 2 != 0),
                    zero_pre(
                        m0[y].map@.dom(),
                        m0[(y - 1) as i32].map@.dom(),
                        src,
                        y_is_odd,
                    ),
                    layer.map@ == layer0.map@,
                    prev.map@ == prev0.map@,
                    layer0.map@.dom() == m0[y].map@.dom(),
                    prev0.map@.dom() == m0[(y - 1) as i32].map@.dom(),
                    forall|w: i32|
                        list_matches(prev0, w) ==> #[trigger] list_matches(prev, w),
                    forall|kk: int|
                        0 <= kk < k as int ==> {
                            let x = #[trigger] src[kk];
                            &&& list_matches(layer, x)
                            &&& list_matches(prev, down_pair(x, y_is_odd).0)
                            &&& list_matches(prev, down_pair(x, y_is_odd).1)
                        },
                decreases xs@.len() - k,
            {
                let x = xs[k];
                proof {
                    assert(x == src[k as int]);
                }
                let ghost layer_a = layer;
                layer.refresh_active(x);
                let dlx = if y_is_odd {
                    x
                } else {
                    x - 1
                };
                let drx = if y_is_odd {
                    x + 1
                } else {
                    x
                };
                let ghost prev_a = prev;
                prev.refresh_active(dlx);
                let ghost prev_b = prev;
                prev.refresh_active(drx);
                proof {
                    assert forall|w: i32| list_matches(prev0, w) implies #[trigger] list_matches(
                        prev,
                        w,
                    ) by {
                        assert(list_matches(prev_a, w));
                        assert(list_matches(prev_b, w));
                        if w != drx {
                            assert(list_matches(prev, w));
                        }
                    }
                    assert forall|kk: int| 0 <= kk < k as int + 1 implies {
                        let x2 = #[trigger] src[kk];
                        &&& list_matches(layer, x2)
                        &&& list_matches(prev, down_pair(x2, y_is_odd).0)
                        &&& list_matches(prev, down_pair(x2, y_is_odd).1)
                    } by {
                        let x2 = src[kk];
                        let w0 = down_pair(x2, y_is_odd).0;
                        let w1 = down_pair(x2, y_is_odd).1;
                        if kk < k as int {
                            assert(list_matches(layer_a, x2));
                            assert(list_matches(layer, x2));
                            assert(list_matches(prev_a, w0) && list_matches(prev_a, w1));
                            assert(list_matches(prev_b, w0) && list_matches(prev_b, w1));
                            assert(list_matches(prev, w0) && list_matches(prev, w1));
                        } else {
                            assert(x2 == x && w0 == dlx && w1 == drx);
                            assert(list_matches(prev_b, dlx));
                            assert(list_matches(prev, dlx) && list_matches(prev, drx));
                        }
                    }
                }
                k = k + 1;
            }

            self.map.insert(y, layer);
            self.map.insert(y - 1, prev);

            proof {
                assert(self.map@.dom() =~= dom0);
                assert forall|j: int|
                    0 <= j < i2 as int + 1 implies #[trigger] consistent_after(
                    self.map@,
                    m0,
                    ys[j],
                ) by {
                    if j < i2 as int {
                        assert(ys[j] < y);
                        assert(self.map@[ys[j]] == if ys[j] == y - 1 {
                            prev
                        } else {
                            mpre[ys[j]]
                        });
                        assert(self.map@[(ys[j] - 1) as i32] == mpre[(ys[j] - 1) as i32]);
                        assert(consistent_after(mpre, m0, ys[j]));
                    }
                }
                assert forall|yy: i32|
                    dom0.contains(yy) && untouched(ys, i2 as int + 1, yy) implies #[trigger] self.map@[
                    yy
                ].simulate_odd@ == m0[yy].simulate_odd@ && self.map@[yy].simulate_even@
                    == m0[yy].simulate_even@ by {
                    assert(ys[i2 as int] as int != yy as int && ys[i2 as int] as int != yy as int
                        + 1);
                    assert(yy != y && yy as int != y as int - 1);
                    assert(self.map@[yy] == mpre[yy]);
                    assert(untouched(ys, i2 as int, yy));
                }
            }
            i2 = i2 + 1;
        }
        self.state = !self.state;
    }
}

} // verus!
