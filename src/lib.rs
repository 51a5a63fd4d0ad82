use vstd::prelude::*;

pub mod peekable;
pub mod window;
pub mod laws;

pub use peekable::{add_to_hint, add_to_len, BPeekable};
pub use window::Window;

verus! {

/// Extension trait giving every iterator the `better_peekable` adaptor.
pub trait BetterPeekable: Iterator + Sized {
    fn better_peekable(self) -> (r: BPeekable<Self>)
        ensures
            r.source() == self,
            r.buffered() == Seq::<Self::Item>::empty(),
    {
        init(self)
    }
}

impl<I: Iterator> BetterPeekable for I {
}

/// Wraps `i` in the lookahead adaptor.
pub fn init<I: Iterator>(i: I) -> (r: BPeekable<I>)
    ensures
        r.source() == i,
        r.buffered() == Seq::<I::Item>::empty(),
{
    BPeekable::new(i)
}

} // verus!
