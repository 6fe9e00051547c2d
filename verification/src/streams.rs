//! Loops that select from several sources until all of them are exhausted.
//!
//! A source that is exhausted says so, and a selecting loop passes it over
//! from then on; the loop ends when every source is exhausted. Which of
//! several sources a loop takes from first is not fixed; the loops of this
//! module take from the first that is not exhausted. What they compute does
//! not depend on that order.

use vstd::prelude::*;

verus! {

/// The sum of `items`.
pub open spec fn sum(items: Seq<u8>) -> nat
    decreases items.len(),
{
    if items.len() == 0 {
        0
    } else {
        items[0] as nat + sum(items.drop_first())
    }
}

/// A stream of bytes that are all at hand, which remembers that it has
/// ended: after its last item it yields `None` once, and is terminated from
/// then on.
#[derive(Debug)]
pub struct FusedStream {
    items: Vec<u8>,
    taken: usize,
    terminated: bool,
}

impl FusedStream {
    /// The items that the stream has not yielded yet.
    pub closed spec fn remaining(self) -> Seq<u8> {
        self.items@.skip(self.taken as int)
    }

    /// Whether the stream has yielded its end.
    pub closed spec fn terminated(self) -> bool {
        self.terminated
    }

    /// The stream has yielded no more items than it has, and it has
    /// yielded them all if it is terminated.
    pub closed spec fn wf(self) -> bool {
        &&& self.taken <= self.items@.len()
        &&& self.terminated ==> self.taken == self.items@.len()
    }

    /// The stream that yields `items` in their order.
    pub fn new(items: Vec<u8>) -> (s: FusedStream)
        ensures
            s.wf(),
            s.remaining() == items@,
            !s.terminated(),
    {
        let s = FusedStream { items, taken: 0, terminated: false };
        assert(s.items@.skip(0) =~= s.items@);
        s
    }

    /// Whether the stream has yielded its end.
    pub fn is_terminated(&self) -> (b: bool)
        ensures
            b == self.terminated(),
    {
        self.terminated
    }

    /// The next item of the stream, or `None` at its end; then the stream is
    /// terminated.
    pub fn next(&mut self) -> (item: Option<u8>)
        requires
            old(self).wf(),
        ensures
            final(self).wf(),
            old(self).remaining().len() > 0 ==> {
                &&& item == Some(old(self).remaining()[0])
                &&& final(self).remaining() == old(self).remaining().drop_first()
                &&& final(self).terminated() == old(self).terminated()
            },
            old(self).remaining().len() == 0 ==> {
                &&& item is None
                &&& final(self).remaining() == old(self).remaining()
                &&& final(self).terminated()
            },
    {
        if self.taken < self.items.len() {
            let item = self.items[self.taken];
            self.taken = self.taken + 1;
            assert(self.items@.skip(self.taken as int) =~= old(self).items@.skip(
                old(self).taken as int,
            ).drop_first());
            Some(item)
        } else {
            self.terminated = true;
            None
        }
    }
}

/// Adds up the items of two streams, taking an item from whichever stream
/// has not ended until both have.
pub fn add_two_streams(s1: FusedStream, s2: FusedStream) -> (total: u8)
    requires
        s1.wf(),
        s2.wf(),
        sum(s1.remaining()) + sum(s2.remaining()) <= u8::MAX,
    ensures
        total == sum(s1.remaining()) + sum(s2.remaining()),
{
    let mut s1 = s1;
    let mut s2 = s2;
    let ghost all = sum(s1.remaining()) + sum(s2.remaining());
    let mut total: u8 = 0;
    loop
        invariant
            s1.wf(),
            s2.wf(),
            all <= u8::MAX,
            total + sum(s1.remaining()) + sum(s2.remaining()) == all,
        ensures
            total == all,
        decreases
            s1.remaining().len() + s2.remaining().len() + (if s1.terminated() {
                0int
            } else {
                1
            }) + (if s2.terminated() {
                0int
            } else {
                1
            }),
    {
        let item = if !s1.is_terminated() {
            s1.next()
        } else if !s2.is_terminated() {
            s2.next()
        } else {
            proof {
                s1.lemma_terminated_is_empty();
                s2.lemma_terminated_is_empty();
            }
            break ;
        };
        match item {
            Some(next_num) => {
                total = total + next_num;
            },
            None => {},
        }
    }
    total
}

impl FusedStream {
    /// A well-formed stream that is terminated has nothing left to yield.
    pub proof fn lemma_terminated_is_empty(self)
        requires
            self.wf(),
            self.terminated(),
        ensures
            self.remaining().len() == 0,
    {
    }
}

/// Adds up the values of two futures that are ready at once, one with 4 and
/// one with 6, taking each value once.
pub fn count() -> (total: i32)
    ensures
        total == 10,
{
    let mut a_fut: Option<i32> = Some(4);
    let mut b_fut: Option<i32> = Some(6);
    let mut total: i32 = 0;
    loop
        invariant
            total + (if a_fut is Some {
                4int
            } else {
                0
            }) + (if b_fut is Some {
                6int
            } else {
                0
            }) == 10,
            a_fut is Some ==> a_fut == Some(4i32),
            b_fut is Some ==> b_fut == Some(6i32),
        ensures
            total == 10,
        decreases
            (if a_fut is Some {
                1int
            } else {
                0
            }) + (if b_fut is Some {
                1int
            } else {
                0
            }),
    {
        match a_fut.take() {
            Some(a) => {
                total = total + a;
            },
            None => {
                match b_fut.take() {
                    Some(b) => {
                        total = total + b;
                    },
                    None => {
                        break ;
                    },
                }
            },
        }
    }
    total
}

} // verus!
