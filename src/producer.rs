//! Producers: anonymous supply that offers a fixed batch every few ticks.
use crate::marketplace::bumped;
use crate::offer::UnprocessedOffer;
use vstd::prelude::*;

verus! {

#[derive(Clone, Debug)]
pub struct Producer {
    pub production: Vec<UnprocessedOffer>,
    pub offers: Vec<UnprocessedOffer>,
    pub offer_creation_ticks: usize,
    pub current_tick: usize,
}

impl Producer {
    pub fn new() -> (p: Self)
        ensures
            p.production@.len() == 0,
            p.offers@.len() == 0,
            p.offer_creation_ticks == 100,
            p.current_tick == 0,
    {
        Producer { production: Vec::new(), offers: Vec::new(), offer_creation_ticks: 100, current_tick: 0 }
    }

    /// Advances the production timer, which saturates at `usize::MAX`; on each multiple of
    /// `offer_creation_ticks` the batch in `production` joins `offers`.
    pub fn tick(&mut self)
        requires
            old(self).offer_creation_ticks > 0,
        ensures
            ({
                let due = old(self).current_tick % old(self).offer_creation_ticks == 0;
                &&& due ==> final(self).offers@ == old(self).offers@ + old(self).production@
                &&& due ==> final(self).current_tick == 1
                &&& !due ==> final(self).offers@ == old(self).offers@
                &&& !due ==> final(self).current_tick == bumped(old(self).current_tick)
            }),
            final(self).production@ == old(self).production@,
            final(self).offer_creation_ticks == old(self).offer_creation_ticks,
    {
        if self.current_tick % self.offer_creation_ticks == 0 {
            self.current_tick = 0;
            let mut i: usize = 0;
            while i < self.production.len()
                invariant
                    i <= self.production@.len(),
                    self.production@ == old(self).production@,
                    self.offer_creation_ticks == old(self).offer_creation_ticks,
                    self.current_tick == 0,
                    self.offers@ == old(self).offers@ + self.production@.take(i as int),
                decreases self.production.len() - i,
            {
                let offer = self.production[i];
                self.offers.push(offer);
                assert(self.production@.take(i + 1) =~= self.production@.take(i as int).push(offer));
                i = i + 1;
            }
            assert(self.production@.take(self.production@.len() as int) =~= self.production@);
        }
        self.current_tick = self.current_tick.saturating_add(1);
    }
}

} // verus!
