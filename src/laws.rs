use vstd::prelude::*;
use vstd::multiset::Multiset;

use crate::window::{count_plus, hint_plus, yielded, Window};

verus! {

/// Looking at distance `n` twice in a row changes nothing the second time
/// and gives the same item both times.
pub proof fn lemma_peek_idempotent<T>(w: Window<T>, n: nat)
    ensures
        w.fill(n as int).fill(n as int) == w.fill(n as int),
        w.fill(n as int).peek_at(n as int) == w.peek_at(n as int),
{
    lemma_fill_keeps_rest(w, n);
    let f = w.fill(n as int);
    assert(f.pulls_for(n as int) == 0);
    assert(f.source.take(0) =~= Seq::<T>::empty());
    assert(f.ahead + Seq::<T>::empty() =~= f.ahead);
    assert(f.source.skip(0) =~= f.source);
}

/// Looks at any two distances, in either order, see one and the same
/// sequence: each gives the item found by indexing what is left at that
/// distance, and the buffer ends up the same whichever look came first.
pub proof fn lemma_peek_any_order<T>(w: Window<T>, k: nat, m: nat)
    ensures
        w.fill(k as int).rest() == w.rest(),
        w.fill(k as int).peek_at(m as int) == w.peek_at(m as int),
        w.peek_at(m as int) == (if m < w.rest().len() {
            Some(w.rest()[m as int])
        } else {
            None
        }),
        w.fill(k as int).fill(m as int) == w.fill(m as int).fill(k as int),
{
    lemma_fill_keeps_rest(w, k);
    lemma_fill_twice(w, k, m);
    lemma_fill_twice(w, m, k);
}

/// Looking at distance `n` and then consuming `n + 1` items forward ends
/// where consuming them directly ends, and the last item consumed is the
/// one that was seen.
pub proof fn lemma_peek_then_consume<T>(w: Window<T>, n: nat)
    ensures
        w.fill(n as int).nth(n) == w.nth(n),
        w.nth(n).1 == w.peek_at(n as int),
{
    lemma_fill_keeps_rest(w, n);
    lemma_nth_shape(w, n);
    lemma_nth_shape(w.fill(n as int), n);
    let f = w.fill(n as int);
    let c = if n + 1 <= w.rest().len() { n + 1 as int } else { w.rest().len() as int };
    if c > w.ahead.len() {
        assert(f.ahead.skip(c) =~= Seq::<T>::empty());
        assert(f.source.skip(c - f.ahead.len()) =~= w.source.skip(c - w.ahead.len()));
    } else {
        assert(f.ahead =~= w.ahead);
        assert(f.source =~= w.source);
    }
}

/// Forward and backward consumptions, mixed in any order, hand out every
/// item of a finite sequence exactly once: the first `L` calls (`L` being
/// how many items are left) each give an item, every later call gives
/// none, and the items given are those that were left, each as often as it
/// occurred.
pub proof fn lemma_mixed_consumption<T>(w: Window<T>, fronts: Seq<bool>)
    requires
        fronts.len() >= w.rest().len(),
    ensures
        forall|i: int| 0 <= i < w.rest().len() ==> (#[trigger] w.run(fronts).1[i]) is Some,
        forall|i: int| w.rest().len() <= i < fronts.len() ==> (#[trigger] w.run(fronts).1[i]) is None,
        yielded(w.run(fronts).1).len() == w.rest().len(),
        yielded(w.run(fronts).1).to_multiset() == w.rest().to_multiset(),
        w.run(fronts).0.rest() == Seq::<T>::empty(),
{
    lemma_run(w, fronts);
    assert(w.run(fronts).0.rest() =~= Seq::<T>::empty());
    assert(w.run(fronts).0.rest().to_multiset() =~= Multiset::<T>::empty()) by {
        broadcast use vstd::seq_lib::group_to_multiset_ensures;
    }
    assert(yielded(w.run(fronts).1).to_multiset() =~= w.rest().to_multiset()) by {
        broadcast use vstd::multiset::group_multiset_axioms;
    }
    let given = yielded(w.run(fronts).1);
    assert(given.len() == w.rest().len()) by {
        broadcast use vstd::seq_lib::group_to_multiset_ensures;
        assert(given.len() == given.to_multiset().len());
        assert(w.rest().len() == w.rest().to_multiset().len());
    }
}

/// Looks never change how many items are left, nor what a source that
/// reports its exact count makes the adaptor report; each consumption that
/// gives an item lowers both by exactly one.
pub proof fn lemma_length_consistency<T>(w: Window<T>, n: nat, front: bool)
    requires
        w.rest().len() <= usize::MAX,
    ensures
        w.fill(n as int).rest().len() == w.rest().len(),
        count_plus(w.fill(n as int).source.len() as usize, w.fill(n as int).ahead.len())
            == count_plus(w.source.len() as usize, w.ahead.len()),
        count_plus(w.source.len() as usize, w.ahead.len()) == w.rest().len(),
        hint_plus(
            (w.fill(n as int).source.len() as usize, Some(w.fill(n as int).source.len() as usize)),
            w.fill(n as int).ahead.len(),
        ) == hint_plus((w.source.len() as usize, Some(w.source.len() as usize)), w.ahead.len()),
        hint_plus((w.source.len() as usize, Some(w.source.len() as usize)), w.ahead.len()) == (
            w.rest().len() as usize,
            Some(w.rest().len() as usize),
        ),
        w.consume(front).1 is Some ==> w.consume(front).0.rest().len() == w.rest().len() - 1,
        w.consume(front).1 is None ==> w.rest().len() == 0 && w.consume(front).0 == w,
        count_plus(w.consume(front).0.source.len() as usize, w.consume(front).0.ahead.len())
            == w.consume(front).0.rest().len(),
{
    lemma_fill_keeps_rest(w, n);
}

/// Looking at distance `n` moves the front of the source into the buffer
/// and leaves what is left as it was.
pub proof fn lemma_fill_keeps_rest<T>(w: Window<T>, n: nat)
    ensures
        w.fill(n as int).rest() == w.rest(),
        w.fill(n as int).ahead.len() == (if w.ahead.len() >= n + 1 {
            w.ahead.len() as int
        } else if w.rest().len() >= n + 1 {
            n + 1 as int
        } else {
            w.rest().len() as int
        }),
{
    let k = w.pulls_for(n as int);
    assert(w.ahead + w.source.take(k) + w.source.skip(k) =~= w.ahead + w.source);
}

/// Two looks in a row leave the buffer as one look at the larger distance.
proof fn lemma_fill_twice<T>(w: Window<T>, k: nat, m: nat)
    ensures
        w.fill(k as int).fill(m as int) == w.fill(if k >= m {
            k as int
        } else {
            m as int
        }),
{
    lemma_fill_keeps_rest(w, k);
    let f = w.fill(k as int);
    let g = f.fill(m as int);
    let big = if k >= m { k } else { m };
    let h = w.fill(big as int);
    lemma_fill_keeps_rest(f, m);
    lemma_fill_keeps_rest(w, big);
    // Both keep the same sequence, and split it at the same point.
    assert(g.ahead.len() == h.ahead.len());
    assert(g.ahead =~= g.rest().take(g.ahead.len() as int));
    assert(h.ahead =~= h.rest().take(h.ahead.len() as int));
    assert(g.source =~= g.rest().skip(g.ahead.len() as int));
    assert(h.source =~= h.rest().skip(h.ahead.len() as int));
}

/// Where `n + 1` forward consumptions leave the state, and what the last of
/// them gives.
proof fn lemma_nth_shape<T>(w: Window<T>, n: nat)
    ensures
        ({
            let c = if n + 1 <= w.rest().len() {
                n + 1 as int
            } else {
                w.rest().len() as int
            };
            &&& w.nth(n).0 == (if c <= w.ahead.len() {
                Window::of(w.ahead.skip(c), w.source)
            } else {
                Window::of(Seq::<T>::empty(), w.source.skip(c - w.ahead.len()))
            })
            &&& w.nth(n).1 == w.peek_at(n as int)
        }),
    decreases n,
{
    let a = w.advance();
    if n == 0 {
        if w.ahead.len() > 0 {
            assert(w.ahead.skip(1) =~= w.ahead.drop_first());
        } else if w.source.len() > 0 {
            assert(w.source.skip(1) =~= w.source.drop_first());
            assert(w.ahead =~= Seq::<T>::empty());
        } else {
            assert(w.ahead.skip(0) =~= w.ahead);
        }
    } else {
        lemma_nth_shape(a.0, (n - 1) as nat);
        let c = if n + 1 <= w.rest().len() { n + 1 as int } else { w.rest().len() as int };
        if w.ahead.len() > 0 {
            assert(a.0.rest() =~= w.rest().drop_first());
            if c <= w.ahead.len() {
                assert(a.0.ahead.skip(c - 1) =~= w.ahead.skip(c));
            }
        } else if w.source.len() > 0 {
            assert(a.0.rest() =~= w.rest().drop_first());
            assert(a.0.source.skip(c - 1) =~= w.source.skip(c));
            assert(w.ahead =~= Seq::<T>::empty());
        } else {
            assert(w.rest() =~= Seq::<T>::empty());
            assert(w.ahead.skip(0) =~= w.ahead);
        }
    }
}

/// One consumption takes one item out of what is left, or finds nothing
/// left and changes nothing.
proof fn lemma_consume_one<T>(w: Window<T>, front: bool)
    ensures
        w.rest().len() == 0 ==> w.consume(front) == (w, None::<T>),
        w.rest().len() > 0 ==> {
            &&& w.consume(front).1 is Some
            &&& w.consume(front).0.rest().len() == w.rest().len() - 1
            &&& w.consume(front).0.rest().to_multiset().insert(w.consume(front).1->0)
                == w.rest().to_multiset()
        },
{
    broadcast use vstd::seq_lib::group_to_multiset_ensures;
    broadcast use vstd::multiset::group_multiset_axioms;

    let r = w.rest();
    if r.len() > 0 {
        let i = if front {
            0
        } else if w.ahead.len() > 0 {
            w.ahead.len() - 1
        } else {
            r.len() - 1
        };
        let (next, out) = w.consume(front);
        assert(next.rest() =~= r.remove(i));
        assert(out == Some(r[i]));
        assert(r.remove(i).to_multiset().insert(r[i]) =~= r.to_multiset());
    }
}

/// What a run of consumptions gives, and what it leaves.
proof fn lemma_run<T>(w: Window<T>, fronts: Seq<bool>)
    ensures
        w.run(fronts).1.len() == fronts.len(),
        forall|i: int|
            0 <= i < fronts.len() && i < w.rest().len() ==> (#[trigger] w.run(fronts).1[i]) is Some,
        forall|i: int| w.rest().len() <= i < fronts.len() ==> (#[trigger] w.run(fronts).1[i]) is None,
        w.run(fronts).0.rest().len() == (if fronts.len() >= w.rest().len() {
            0
        } else {
            w.rest().len() - fronts.len()
        }),
        yielded(w.run(fronts).1).to_multiset().add(w.run(fronts).0.rest().to_multiset())
            == w.rest().to_multiset(),
    decreases fronts.len(),
{
    broadcast use vstd::seq_lib::group_to_multiset_ensures;
    broadcast use vstd::multiset::group_multiset_axioms;

    if fronts.len() == 0 {
        assert(yielded(Seq::<Option<T>>::empty()).to_multiset() =~= Multiset::<T>::empty());
        assert(Multiset::<T>::empty().add(w.rest().to_multiset()) =~= w.rest().to_multiset());
    } else {
        let (next, out) = w.consume(fronts[0]);
        let tail = fronts.drop_first();
        lemma_consume_one(w, fronts[0]);
        lemma_run(next, tail);
        let (last, outs) = next.run(tail);
        let all = seq![out] + outs;
        assert(w.run(fronts) == (last, all));
        assert(all.drop_first() =~= outs);
        assert forall|i: int| 0 <= i < fronts.len() && i < w.rest().len() implies (#[trigger] all[i]) is Some by {
            if i > 0 {
                assert(all[i] == outs[i - 1]);
            }
        }
        assert forall|i: int| w.rest().len() <= i < fronts.len() implies (#[trigger] all[i]) is None by {
            if i > 0 {
                assert(all[i] == outs[i - 1]);
            }
        }
        match out {
            Some(x) => {
                assert(yielded(all) == seq![x] + yielded(outs));
                vstd::seq_lib::lemma_multiset_commutative(seq![x], yielded(outs));
                assert(seq![x].to_multiset() =~= Multiset::<T>::empty().insert(x)) by {
                    assert(seq![x] =~= Seq::<T>::empty().push(x));
                }
                assert(yielded(all).to_multiset().add(last.rest().to_multiset())
                    =~= next.rest().to_multiset().insert(x));
            },
            None => {
                assert(yielded(all) == yielded(outs));
            },
        }
    }
}

} // verus!
