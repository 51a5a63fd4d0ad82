use vstd::prelude::*;

use std::collections::VecDeque;
use vstd::std_specs::iter::IteratorSpec;

use crate::window::{count_plus, hint_plus, Window};

verus! {

/// An iterator adaptor that can look any distance ahead without consuming.
///
/// Items pulled ahead of the consumer wait in `cache`, in the order the
/// wrapped iterator produced them.  While the wrapped iterator obeys the
/// iterator laws, the adaptor's state is described by
/// `Window::of(self.buffered(), self.source().remaining())`.
#[derive(Clone, Debug)]
pub struct BPeekable<I: Iterator> {
    iter: I,
    /// Items pulled from `iter` and not yet handed out.
    cache: VecDeque<I::Item>,
}

/// Relies on `Iterator::size_hint` of the wrapped iterator for the bounds it
/// reports.  The trait does not hold an implementation to them, so nothing
/// is assumed of the result: it is only passed on.
#[verifier::external_body]
fn source_size_hint<I: Iterator>(iter: &I) -> (usize, Option<usize>) {
    iter.size_hint()
}

/// Relies on `ExactSizeIterator::len` of the wrapped iterator for the count
/// it reports.  The trait is safe to implement wrongly, so nothing is
/// assumed of the result: it is only passed on.
#[verifier::external_body]
fn source_len<I: ExactSizeIterator>(iter: &I) -> usize {
    iter.len()
}

/// Adds `extra` buffered items to a size hint: the lower bound saturates at
/// `usize::MAX`, the upper bound becomes unknown when it would overflow.
pub fn add_to_hint(hint: (usize, Option<usize>), extra: usize) -> (r: (usize, Option<usize>))
    ensures
        r == hint_plus(hint, extra as nat),
{
    let (lo, hi) = hint;
    let lo = lo.saturating_add(extra);
    let hi = match hi {
        Some(h) => h.checked_add(extra),
        None => None,
    };
    (lo, hi)
}

/// Adds `extra` buffered items to a count of remaining items, saturating at
/// `usize::MAX`.
pub fn add_to_len(count: usize, extra: usize) -> (r: usize)
    ensures
        r == count_plus(count, extra as nat),
{
    count.saturating_add(extra)
}

impl<I: Iterator> BPeekable<I> {
    /// The items pulled ahead of the consumer, front first.
    pub closed spec fn buffered(&self) -> Seq<I::Item> {
        self.cache@
    }

    /// The wrapped iterator in its current state.
    pub closed spec fn source(&self) -> I {
        self.iter
    }

    /// Wraps `iter`; nothing is pulled from it yet.
    pub fn new(iter: I) -> (r: Self)
        ensures
            r.source() == iter,
            r.buffered() == Seq::<I::Item>::empty(),
    {
        BPeekable { iter, cache: VecDeque::new() }
    }

    /// The next item, without consuming it.
    pub fn peek(&mut self) -> (r: Option<&I::Item>)
        ensures
            final(self).source().obeys_prophetic_iter_laws() == old(self).source().obeys_prophetic_iter_laws(),
            old(self).buffered().len() > 0 ==> {
                &&& r == Some(&old(self).buffered()[0 as int])
                &&& final(self).buffered() == old(self).buffered()
                &&& final(self).source() == old(self).source()
            },
            old(self).buffered().len() <= final(self).buffered().len(),
            final(self).buffered().subrange(0, old(self).buffered().len() as int) == old(self).buffered(),
            match r {
                Some(x) => 0 < final(self).buffered().len() && *x == final(self).buffered()[0 as int],
                None => final(self).buffered().len() <= 0,
            },
            old(self).source().obeys_prophetic_iter_laws() ==> {
                let w = Window::of(old(self).buffered(), old(self).source().remaining());
                &&& Window::of(final(self).buffered(), final(self).source().remaining()) == w.fill(0)
                &&& match r {
                    Some(x) => w.peek_at(0) == Some(*x),
                    None => w.peek_at(0) is None,
                }
            },
    {
        self.peek_n(0)
    }

    /// The item `n` places after the next one (`peek_n(0)` is the next
    /// item), without consuming anything.  Pulls from the wrapped iterator
    /// only what the buffer lacks to reach distance `n`.
    pub fn peek_n(&mut self, n: usize) -> (r: Option<&I::Item>)
        ensures
            final(self).source().obeys_prophetic_iter_laws() == old(self).source().obeys_prophetic_iter_laws(),
            old(self).buffered().len() > n ==> {
                &&& r == Some(&old(self).buffered()[n as int])
                &&& final(self).buffered() == old(self).buffered()
                &&& final(self).source() == old(self).source()
            },
            old(self).buffered().len() <= final(self).buffered().len(),
            final(self).buffered().subrange(0, old(self).buffered().len() as int) == old(self).buffered(),
            match r {
                Some(x) => n < final(self).buffered().len() && *x == final(self).buffered()[n as int],
                None => final(self).buffered().len() <= n,
            },
            old(self).source().obeys_prophetic_iter_laws() ==> {
                let w = Window::of(old(self).buffered(), old(self).source().remaining());
                &&& Window::of(final(self).buffered(), final(self).source().remaining()) == w.fill(n as int)
                &&& match r {
                    Some(x) => w.peek_at(n as int) == Some(*x),
                    None => w.peek_at(n as int) is None,
                }
            },
    {
        let ghost start = self.cache@;
        let ghost src = self.iter.remaining();
        while self.cache.len() <= n
            invariant
                self.iter.obeys_prophetic_iter_laws() == old(self).iter.obeys_prophetic_iter_laws(),
                start == old(self).cache@,
                src == old(self).iter.remaining(),
                start.len() <= self.cache@.len(),
                self.cache@.len() == start.len() || self.cache@.len() <= n + 1,
                self.cache@.subrange(0, start.len() as int) == start,
                start.len() > n ==> self.iter == old(self).iter && self.cache@ == start,
                self.iter.obeys_prophetic_iter_laws() ==> {
                    let k = self.cache@.len() - start.len();
                    &&& k <= src.len()
                    &&& self.cache@ == start + src.take(k)
                    &&& self.iter.remaining() == src.skip(k)
                },
            decreases n + 1 - self.cache.len(),
        {
            let ghost k = self.cache@.len() - start.len();
            match self.iter.next() {
                Some(item) => {
                    self.cache.push_back(item);
                    assert(self.cache@.subrange(0, start.len() as int) =~= start);
                    proof {
                        if self.iter.obeys_prophetic_iter_laws() {
                            assert(src.take(k + 1) =~= src.take(k).push(item));
                            assert(src.skip(k + 1) =~= src.skip(k).drop_first());
                        }
                    }
                },
                None => {
                    proof {
                        if self.iter.obeys_prophetic_iter_laws() {
                            assert(src.take(k) =~= src);
                            assert(src.skip(k) =~= src.skip(src.len() as int));
                        }
                    }
                    return None;
                },
            }
        }
        Some(&self.cache[n])
    }

    /// Consumes the next item: the buffer's front if it holds one, else the
    /// next item of the wrapped iterator.
    pub fn next(&mut self) -> (r: Option<I::Item>)
        ensures
            final(self).source().obeys_prophetic_iter_laws() == old(self).source().obeys_prophetic_iter_laws(),
            old(self).buffered().len() > 0 ==> {
                &&& r == Some(old(self).buffered()[0])
                &&& final(self).buffered() == old(self).buffered().drop_first()
                &&& final(self).source() == old(self).source()
            },
            old(self).buffered().len() == 0 ==> final(self).buffered() == old(self).buffered(),
            old(self).source().obeys_prophetic_iter_laws() ==> (
                Window::of(final(self).buffered(), final(self).source().remaining()),
                r,
            ) == Window::of(old(self).buffered(), old(self).source().remaining()).advance(),
    {
        match self.cache.pop_front() {
            Some(item) => Some(item),
            None => self.iter.next(),
        }
    }

    /// Consumes `n` items and returns the one after them, like
    /// `Iterator::nth`.
    pub fn nth(&mut self, n: usize) -> (r: Option<I::Item>)
        ensures
            final(self).source().obeys_prophetic_iter_laws() == old(self).source().obeys_prophetic_iter_laws(),
            old(self).source().obeys_prophetic_iter_laws() ==> (
                Window::of(final(self).buffered(), final(self).source().remaining()),
                r,
            ) == Window::of(old(self).buffered(), old(self).source().remaining()).nth(n as nat),
    {
        let ghost w0 = Window::of(self.cache@, self.iter.remaining());
        let mut i: usize = 0;
        while i < n
            invariant
                i <= n,
                self.iter.obeys_prophetic_iter_laws() == old(self).iter.obeys_prophetic_iter_laws(),
                w0 == Window::of(old(self).cache@, old(self).iter.remaining()),
                self.iter.obeys_prophetic_iter_laws() ==> w0.nth(n as nat) == Window::of(
                    self.cache@,
                    self.iter.remaining(),
                ).nth((n - i) as nat),
            decreases n - i,
        {
            let ghost w = Window::of(self.cache@, self.iter.remaining());
            self.next();
            proof {
                if self.iter.obeys_prophetic_iter_laws() {
                    assert(w.nth((n - i) as nat) == w.advance().0.nth((n - i - 1) as nat));
                }
            }
            i = i + 1;
        }
        self.next()
    }

    /// Bounds on how many items remain: the wrapped iterator's own bounds
    /// plus the buffered items.
    pub fn size_hint(&self) -> (r: (usize, Option<usize>))
        ensures
            exists|h: (usize, Option<usize>)| r == hint_plus(h, self.buffered().len()),
    {
        let h = source_size_hint(&self.iter);
        let r = add_to_hint(h, self.cache.len());
        assert(r == hint_plus(h, self.buffered().len()));
        r
    }
}

impl<I: Iterator + ExactSizeIterator> BPeekable<I> {
    /// How many items remain: the wrapped iterator's own count plus the
    /// buffered items, saturating at `usize::MAX`.
    pub fn len(&self) -> (r: usize)
        ensures
            exists|k: usize| r == count_plus(k, self.buffered().len()),
    {
        let k = source_len(&self.iter);
        let r = add_to_len(k, self.cache.len());
        assert(r == count_plus(k, self.buffered().len()));
        r
    }
}

impl<I: DoubleEndedIterator> BPeekable<I> {
    /// Consumes from the back: the back of the buffer while it holds
    /// anything, else the wrapped iterator's last item.
    pub fn next_back(&mut self) -> (r: Option<I::Item>)
        ensures
            final(self).source().obeys_prophetic_iter_laws() == old(self).source().obeys_prophetic_iter_laws(),
            old(self).buffered().len() > 0 ==> {
                &&& r == Some(old(self).buffered().last())
                &&& final(self).buffered() == old(self).buffered().drop_last()
                &&& final(self).source() == old(self).source()
            },
            old(self).buffered().len() == 0 ==> final(self).buffered() == old(self).buffered(),
            old(self).source().obeys_prophetic_iter_laws() ==> (
                Window::of(final(self).buffered(), final(self).source().remaining()),
                r,
            ) == Window::of(old(self).buffered(), old(self).source().remaining()).retreat(),
    {
        match self.cache.pop_back() {
            Some(item) => Some(item),
            None => self.iter.next_back(),
        }
    }

    /// Consumes `n` items from the back and returns the one before them,
    /// like `DoubleEndedIterator::nth_back`.
    pub fn nth_back(&mut self, n: usize) -> (r: Option<I::Item>)
        ensures
            final(self).source().obeys_prophetic_iter_laws() == old(self).source().obeys_prophetic_iter_laws(),
            old(self).source().obeys_prophetic_iter_laws() ==> (
                Window::of(final(self).buffered(), final(self).source().remaining()),
                r,
            ) == Window::of(old(self).buffered(), old(self).source().remaining()).nth_back(n as nat),
    {
        let ghost w0 = Window::of(self.cache@, self.iter.remaining());
        let mut i: usize = 0;
        while i < n
            invariant
                i <= n,
                self.iter.obeys_prophetic_iter_laws() == old(self).iter.obeys_prophetic_iter_laws(),
                w0 == Window::of(old(self).cache@, old(self).iter.remaining()),
                self.iter.obeys_prophetic_iter_laws() ==> w0.nth_back(n as nat) == Window::of(
                    self.cache@,
                    self.iter.remaining(),
                ).nth_back((n - i) as nat),
            decreases n - i,
        {
            let ghost w = Window::of(self.cache@, self.iter.remaining());
            self.next_back();
            proof {
                if self.iter.obeys_prophetic_iter_laws() {
                    assert(w.nth_back((n - i) as nat) == w.retreat().0.nth_back((n - i - 1) as nat));
                }
            }
            i = i + 1;
        }
        self.next_back()
    }
}

} // verus!
