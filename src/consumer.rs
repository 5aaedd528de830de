//! Consumers: anonymous demand that orders a fixed batch when its need
//! timer runs out.
use crate::marketplace::bumped;
use crate::order::UnprocessedOrder;
use vstd::prelude::*;

verus! {

#[derive(Clone, Debug)]
pub struct Consumer {
    pub consumption: Vec<UnprocessedOrder>,
    pub orders: Vec<UnprocessedOrder>,
    pub order_creation_ticks: usize,
    pub current_tick: usize,
}

impl Consumer {
    pub fn new() -> (c: Self)
        ensures
            c.consumption@.len() == 0,
            c.orders@.len() == 0,
            c.order_creation_ticks == 1000,
            c.current_tick == 0,
    {
        Consumer { consumption: Vec::new(), orders: Vec::new(), order_creation_ticks: 1000, current_tick: 0 }
    }

    /// Advances the need timer, which saturates at `usize::MAX`; when it reaches `order_creation_ticks` the
    /// batch in `consumption` joins `orders` and, if there was one, the
    /// timer starts over.
    pub fn tick(&mut self)
        ensures
            ({
                let due = bumped(old(self).current_tick) == old(self).order_creation_ticks;
                &&& due ==> final(self).orders@ == old(self).orders@ + old(self).consumption@
                &&& !due ==> final(self).orders@ == old(self).orders@
                &&& final(self).current_tick == if due && old(self).consumption@.len() > 0 {
                    0
                } else {
                    bumped(old(self).current_tick)
                }
            }),
            final(self).consumption@ == old(self).consumption@,
            final(self).order_creation_ticks == old(self).order_creation_ticks,
    {
        self.current_tick = self.current_tick.saturating_add(1);
        if self.current_tick == self.order_creation_ticks {
            let mut i: usize = 0;
            while i < self.consumption.len()
                invariant
                    i <= self.consumption@.len(),
                    self.consumption@ == old(self).consumption@,
                    self.order_creation_ticks == old(self).order_creation_ticks,
                    self.current_tick == if i > 0 {
                        0
                    } else {
                        bumped(old(self).current_tick)
                    },
                    self.orders@ == old(self).orders@ + self.consumption@.take(i as int),
                decreases self.consumption.len() - i,
            {
                let order = self.consumption[i];
                self.current_tick = 0;
                self.orders.push(order);
                assert(self.consumption@.take(i + 1) =~= self.consumption@.take(i as int).push(order));
                i = i + 1;
            }
            assert(self.consumption@.take(self.consumption@.len() as int) =~= self.consumption@);
        }
    }
}

} // verus!
