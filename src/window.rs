use vstd::prelude::*;

verus! {

/// The abstract state of a lookahead adaptor: the items already pulled from
/// the source and not yet handed out (`ahead`), followed by the items that the
/// source has still to produce (`source`).
pub struct Window<T> {
    pub ahead: Seq<T>,
    pub source: Seq<T>,
}

impl<T> Window<T> {
    pub open spec fn of(ahead: Seq<T>, source: Seq<T>) -> Window<T> {
        Window { ahead, source }
    }

    /// Everything still to be handed out, in order.
    pub open spec fn rest(self) -> Seq<T> {
        self.ahead + self.source
    }

    /// How many items a look at distance `n` pulls from the source.
    pub open spec fn pulls_for(self, n: int) -> int {
        if n + 1 <= self.ahead.len() {
            0
        } else if n + 1 - self.ahead.len() <= self.source.len() {
            n + 1 - self.ahead.len()
        } else {
            self.source.len() as int
        }
    }

    /// The state after looking at distance `n`: the buffer is topped up, in
    /// order, until it holds `n + 1` items or the source runs dry.
    pub open spec fn fill(self, n: int) -> Window<T> {
        let k = self.pulls_for(n);
        Window { ahead: self.ahead + self.source.take(k), source: self.source.skip(k) }
    }

    /// The item at distance `n` from the front, if there is one.
    pub open spec fn peek_at(self, n: int) -> Option<T> {
        if 0 <= n < self.rest().len() {
            Some(self.rest()[n])
        } else {
            None
        }
    }

    /// Forward consumption: the buffer's front, else the source's front.
    pub open spec fn advance(self) -> (Window<T>, Option<T>) {
        if self.ahead.len() > 0 {
            (Window { ahead: self.ahead.drop_first(), source: self.source }, Some(self.ahead[0]))
        } else if self.source.len() > 0 {
            (Window { ahead: self.ahead, source: self.source.drop_first() }, Some(self.source[0]))
        } else {
            (self, None)
        }
    }

    /// Backward consumption: the buffer's back, else the source's back.
    pub open spec fn retreat(self) -> (Window<T>, Option<T>) {
        if self.ahead.len() > 0 {
            (Window { ahead: self.ahead.drop_last(), source: self.source }, Some(self.ahead.last()))
        } else if self.source.len() > 0 {
            (Window { ahead: self.ahead, source: self.source.drop_last() }, Some(self.source.last()))
        } else {
            (self, None)
        }
    }

    /// `n + 1` forward consumptions; the item is what the last one gave.
    pub open spec fn nth(self, n: nat) -> (Window<T>, Option<T>)
        decreases n,
    {
        if n == 0 {
            self.advance()
        } else {
            self.advance().0.nth((n - 1) as nat)
        }
    }

    /// `n + 1` backward consumptions; the item is what the last one gave.
    pub open spec fn nth_back(self, n: nat) -> (Window<T>, Option<T>)
        decreases n,
    {
        if n == 0 {
            self.retreat()
        } else {
            self.retreat().0.nth_back((n - 1) as nat)
        }
    }

    /// One consumption, forward when `front` holds, else backward.
    pub open spec fn consume(self, front: bool) -> (Window<T>, Option<T>) {
        if front {
            self.advance()
        } else {
            self.retreat()
        }
    }

    /// A run of consumptions in the directions `fronts`: the final state and
    /// what each call gave.
    pub open spec fn run(self, fronts: Seq<bool>) -> (Window<T>, Seq<Option<T>>)
        decreases fronts.len(),
    {
        if fronts.len() == 0 {
            (self, Seq::empty())
        } else {
            let (next, out) = self.consume(fronts[0]);
            let (last, outs) = next.run(fronts.drop_first());
            (last, seq![out] + outs)
        }
    }
}

/// The items among `outs`, in order, leaving out the empty results.
pub open spec fn yielded<T>(outs: Seq<Option<T>>) -> Seq<T>
    decreases outs.len(),
{
    if outs.len() == 0 {
        Seq::empty()
    } else {
        match outs[0] {
            Some(x) => seq![x] + yielded(outs.drop_first()),
            None => yielded(outs.drop_first()),
        }
    }
}


/// A size hint with `extra` more items: the lower bound saturates, the upper
/// bound is lost when it would overflow.
pub open spec fn hint_plus(hint: (usize, Option<usize>), extra: nat) -> (usize, Option<usize>) {
    let lo = if hint.0 + extra <= usize::MAX {
        (hint.0 + extra) as usize
    } else {
        usize::MAX
    };
    let hi = match hint.1 {
        Some(h) => if h + extra <= usize::MAX {
            Some((h + extra) as usize)
        } else {
            None
        },
        None => None,
    };
    (lo, hi)
}

/// `count + extra`, saturating at `usize::MAX`.
pub open spec fn count_plus(count: usize, extra: nat) -> usize {
    if count + extra <= usize::MAX {
        (count + extra) as usize
    } else {
        usize::MAX
    }
}

} // verus!
