//! A one-element-delayed truncating adapter: yields its source sequence
//! with the final element omitted, holding back one pending element and
//! releasing it only when the source proves to have more.

use vstd::prelude::*;

verus! {

/// Pull-based adapter over a source sequence. Each pull takes the next
/// source element and releases the previously pending one; when the
/// source is exhausted, the pending element is discarded, never yielded.
pub struct SkipLast<T> {
    rest: Vec<T>,
    pending: Option<T>,
}

impl<T> SkipLast<T> {
    /// The elements still to be yielded: everything buffered except the
    /// very last one, which is dropped.
    pub closed spec fn view(&self) -> Seq<T> {
        match self.pending {
            None => Seq::empty(),
            Some(p) => (seq![p] + self.rest@).take(self.rest@.len() as int),
        }
    }

    /// The adapter is in a state reachable from `new`: a missing pending
    /// element means the source was empty from the start.
    pub closed spec fn wf(&self) -> bool {
        self.pending is None ==> self.rest@.len() == 0
    }

    /// Starts the adapter on `source`; it will yield every element of
    /// `source` but the last, in order.
    pub fn new(source: Vec<T>) -> (r: SkipLast<T>)
        ensures
            r.wf(),
            r@ == if source@.len() == 0 {
                Seq::<T>::empty()
            } else {
                source@.take(source@.len() - 1)
            },
    {
        let ghost src = source@;
        let mut rest = source;
        if rest.len() == 0 {
            SkipLast { rest, pending: None }
        } else {
            let first = rest.remove(0);
            let r = SkipLast { rest, pending: Some(first) };
            proof {
                assert(r@ =~= src.take(src.len() - 1));
            }
            r
        }
    }

    /// Yields the next element that is certain not to be the source's
    /// last, or nothing once only the last (or nothing) is left.
    pub fn next(&mut self) -> (r: Option<T>)
        requires
            old(self).wf(),
        ensures
            final(self).wf(),
            old(self)@.len() > 0 ==> (r == Some(old(self)@[0]) && final(self)@ == old(self)@.drop_first()),
            old(self)@.len() == 0 ==> (r is None && final(self)@ == old(self)@),
    {
        if self.rest.len() == 0 {
            None
        } else {
            let peeked = self.rest.remove(0);
            let mut slot: Option<T> = Some(peeked);
            core::mem::swap(&mut self.pending, &mut slot);
            proof {
                assert(self@ =~= old(self)@.drop_first());
            }
            slot
        }
    }
}

/// The source sequence with its final element dropped, pulled through a
/// `SkipLast` adapter: for a source of length `n` the result is its
/// first `n - 1` elements in order, and empty when `n` is `0` or `1`.
#[verifier::loop_isolation(false)]
pub fn truncate_last<T>(source: Vec<T>) -> (r: Vec<T>)
    ensures
        r@ == if source@.len() == 0 {
            Seq::<T>::empty()
        } else {
            source@.take(source@.len() - 1)
        },
{
    let ghost full = if source@.len() == 0 {
        Seq::<T>::empty()
    } else {
        source@.take(source@.len() - 1)
    };
    let mut sl = SkipLast::new(source);
    let mut out: Vec<T> = Vec::new();
    proof {
        assert(out@ + sl@ =~= full);
    }
    loop
        invariant
            sl.wf(),
            out@ + sl@ == full,
        decreases sl@.len(),
    {
        match sl.next() {
            None => {
                proof {
                    assert(out@ =~= full);
                }
                return out;
            },
            Some(x) => {
                out.push(x);
                proof {
                    assert(out@ + sl@ =~= full);
                }
            },
        }
    }
}

} // verus!
