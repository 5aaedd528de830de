//! A tick-based economy: companies, producers and consumers trade resources
//! through a central marketplace that matches buy orders against sell offers
//! with escrow, partial fills, refunds and expiry.
//!
//! Quantities, prices and currency are whole units held in `u64`; credits
//! to a balance saturate at `u64::MAX`. Intents, companies and resources are
//! referred to by integer handles into the collections that own them.
pub mod stock;
pub mod sums;
pub mod company;
pub mod offer;
pub mod order;
pub mod market_data;
pub mod marketplace;
pub mod resource_data;
pub mod recipe;
pub mod processor;
pub mod producer;
pub mod consumer;
pub mod action_space;
pub mod state;
pub mod world_data;
pub mod world;
