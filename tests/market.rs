use econo_sim::company::{Company, Owner};
use econo_sim::market_data::MarketData;
use econo_sim::marketplace::Marketplace;
use econo_sim::offer::Offer;
use econo_sim::order::Order;

fn company(handle: usize, currency: u64) -> Company {
    let mut c = Company::new("Acme", handle, 2, 1);
    c.currency = currency;
    c
}

fn offer(resource: usize, amount: u64, price: u64, owner: Owner, ttl: usize) -> Offer {
    Offer { resource, amount, price_per_unit: price, owner, time_to_live: ttl }
}

fn order(resource: usize, amount: u64, max: u64, owner: Owner, ttl: usize) -> Order {
    Order { owner, resource, amount, max_price_per_unit: max, time_to_live: ttl }
}

#[test]
fn refund_and_payment_on_full_fill() {
    let mut market = Marketplace::new();
    let mut book = MarketData::new(2);
    let mut companies = vec![company(0, 0), company(1, 0)];
    // The buyer escrowed 10 * 5 = 50 before placing its order.
    market.place_order(order(0, 5, 10, Owner::Company(0), 10), &mut book).unwrap();
    market.place_offer(offer(0, 5, 7, Owner::Company(1), 10), &mut book).unwrap();
    market.tick(&mut book, &mut companies);
    assert_eq!(companies[0].currency, 15);
    assert_eq!(companies[1].currency, 35);
    assert_eq!(companies[0].stock.quantity_of(0), 5);
    assert!(book.offers.is_empty());
    assert!(book.orders.is_empty());
    assert_eq!(market.statistics.company_orders_fulfilled, 1);
    assert_eq!(market.statistics.company_offers_fulfilled, 1);
    assert_eq!(market.statistics.company_orders_partly_fulfilled, 0);
    assert_eq!(market.statistics.company_offers_partly_fulfilled, 0);
}

#[test]
fn larger_order_partly_filled() {
    let mut market = Marketplace::new();
    let mut book = MarketData::new(1);
    let mut companies = vec![company(0, 0), company(1, 0)];
    market.place_order(order(0, 10, 3, Owner::Company(0), 10), &mut book).unwrap();
    market.place_offer(offer(0, 4, 3, Owner::Company(1), 10), &mut book).unwrap();
    market.tick(&mut book, &mut companies);
    assert!(book.offers.is_empty());
    assert_eq!(book.orders.len(), 1);
    assert_eq!(book.orders[0].1.amount, 6);
    assert_eq!(book.orders[0].1.time_to_live, 9);
    assert_eq!(companies[0].stock.quantity_of(0), 4);
    assert_eq!(companies[1].currency, 12);
    assert_eq!(market.statistics.company_orders_partly_fulfilled, 1);
    assert_eq!(market.statistics.company_offers_fulfilled, 1);
    assert_eq!(book.order_index[0], Some((1, 3)));
    assert_eq!(book.price_index[0], None);
}

#[test]
fn larger_offer_partly_consumed() {
    let mut market = Marketplace::new();
    let mut book = MarketData::new(1);
    let mut companies = vec![company(0, 0), company(1, 0)];
    market.place_offer(offer(0, 9, 2, Owner::Company(1), 10), &mut book).unwrap();
    market.place_order(order(0, 3, 2, Owner::Company(0), 10), &mut book).unwrap();
    market.tick(&mut book, &mut companies);
    assert!(book.orders.is_empty());
    assert_eq!(book.offers.len(), 1);
    assert_eq!(book.offers[0].1.amount, 6);
    assert_eq!(book.price_index[0], Some((1, 2)));
    assert_eq!(market.statistics.company_orders_fulfilled, 1);
    assert_eq!(market.statistics.company_offers_partly_fulfilled, 1);
}

#[test]
fn expired_order_refunds_escrow() {
    let mut market = Marketplace::new();
    let mut book = MarketData::new(1);
    let mut companies = vec![company(0, 1)];
    market.place_order(order(0, 4, 6, Owner::Company(0), 1), &mut book).unwrap();
    market.tick(&mut book, &mut companies);
    assert!(book.orders.is_empty());
    assert_eq!(companies[0].currency, 1 + 24);
    assert_eq!(book.order_index[0], None);
}

#[test]
fn expired_offer_returns_units() {
    let mut market = Marketplace::new();
    let mut book = MarketData::new(2);
    let mut companies = vec![company(0, 0)];
    market.place_offer(offer(1, 8, 5, Owner::Company(0), 1), &mut book).unwrap();
    market.tick(&mut book, &mut companies);
    assert!(book.offers.is_empty());
    assert_eq!(companies[0].stock.quantity_of(1), 8);
    assert_eq!(book.price_index[1], None);
}

#[test]
fn unexpired_intents_age_by_one() {
    let mut market = Marketplace::new();
    let mut book = MarketData::new(1);
    let mut companies = vec![company(0, 0)];
    market.place_offer(offer(0, 8, 5, Owner::Company(0), 3), &mut book).unwrap();
    market.place_order(order(0, 2, 4, Owner::Market, 2), &mut book).unwrap();
    market.tick(&mut book, &mut companies);
    assert_eq!(book.offers[0].1.time_to_live, 2);
    assert_eq!(book.orders[0].1.time_to_live, 1);
    market.tick(&mut book, &mut companies);
    assert!(book.orders.is_empty());
    assert_eq!(book.offers.len(), 1);
}

#[test]
fn market_order_pays_company_and_consumes_units() {
    let mut market = Marketplace::new();
    let mut book = MarketData::new(1);
    let mut companies = vec![company(0, 0)];
    market.place_offer(offer(0, 5, 4, Owner::Company(0), 10), &mut book).unwrap();
    market.place_order(order(0, 5, 9, Owner::Market, 10), &mut book).unwrap();
    market.tick(&mut book, &mut companies);
    assert_eq!(companies[0].currency, 20);
    assert_eq!(companies[0].stock.quantity_of(0), 0);
    assert!(book.offers.is_empty());
    assert!(book.orders.is_empty());
    assert_eq!(market.statistics.company_offers_fulfilled, 1);
    assert_eq!(market.statistics.company_orders_fulfilled, 0);
}

#[test]
fn company_order_from_market_supply_pays_nobody() {
    let mut market = Marketplace::new();
    let mut book = MarketData::new(1);
    let mut companies = vec![company(0, 0)];
    market.place_offer(offer(0, 2, 3, Owner::Market, 10), &mut book).unwrap();
    market.place_order(order(0, 2, 5, Owner::Company(0), 10), &mut book).unwrap();
    market.tick(&mut book, &mut companies);
    assert_eq!(companies[0].currency, 4);
    assert_eq!(companies[0].stock.quantity_of(0), 2);
}

#[test]
fn order_below_cheapest_offer_stays_unmatched() {
    let mut market = Marketplace::new();
    let mut book = MarketData::new(1);
    let mut companies = vec![company(0, 0), company(1, 0)];
    market.place_offer(offer(0, 2, 8, Owner::Company(1), 10), &mut book).unwrap();
    market.place_order(order(0, 2, 7, Owner::Company(0), 10), &mut book).unwrap();
    market.tick(&mut book, &mut companies);
    assert_eq!(book.offers.len(), 1);
    assert_eq!(book.orders.len(), 1);
    assert_eq!(companies[0].currency, 0);
    assert_eq!(companies[1].currency, 0);
}

#[test]
fn cheapest_offer_is_taken_first() {
    let mut market = Marketplace::new();
    let mut book = MarketData::new(1);
    let mut companies = vec![company(0, 0), company(1, 0), company(2, 0)];
    market.place_offer(offer(0, 1, 6, Owner::Company(1), 10), &mut book).unwrap();
    market.place_offer(offer(0, 1, 4, Owner::Company(2), 10), &mut book).unwrap();
    market.place_order(order(0, 1, 6, Owner::Company(0), 10), &mut book).unwrap();
    market.tick(&mut book, &mut companies);
    assert_eq!(companies[2].currency, 4);
    assert_eq!(companies[1].currency, 0);
    assert_eq!(companies[0].currency, 2);
    assert_eq!(book.offers.len(), 1);
    assert_eq!(book.offers[0].0, 1);
}

#[test]
fn placement_rejections() {
    let mut market = Marketplace::new();
    let mut book = MarketData::new(2);
    assert_eq!(market.place_offer(offer(0, 0, 1, Owner::Market, 5), &mut book), None);
    assert_eq!(market.place_offer(offer(2, 1, 1, Owner::Market, 5), &mut book), None);
    assert_eq!(market.place_order(order(0, 0, 1, Owner::Market, 5), &mut book), None);
    assert_eq!(market.place_order(order(5, 1, 1, Owner::Market, 5), &mut book), None);
    assert!(book.offers.is_empty());
    assert!(book.orders.is_empty());
    assert_eq!(market.next_offer_id, 0);
    assert_eq!(market.next_order_id, 0);
    assert_eq!(market.statistics.company_offers_placed, 0);
}

#[test]
fn handles_are_monotonic_and_counted_for_companies() {
    let mut market = Marketplace::new();
    let mut book = MarketData::new(1);
    assert_eq!(market.place_offer(offer(0, 1, 1, Owner::Market, 5), &mut book), Some(1));
    assert_eq!(market.place_offer(offer(0, 1, 1, Owner::Company(0), 5), &mut book), Some(2));
    assert_eq!(market.place_order(order(0, 1, 1, Owner::Company(0), 5), &mut book), Some(1));
    assert_eq!(market.statistics.company_offers_placed, 1);
    assert_eq!(market.statistics.company_orders_placed, 1);
}

#[test]
fn price_index_tracks_cheapest_offer() {
    let mut market = Marketplace::new();
    let mut book = MarketData::new(2);
    assert_eq!(book.price_index[0], None);
    market.place_offer(offer(0, 3, 9, Owner::Market, 5), &mut book).unwrap();
    assert_eq!(book.price_index[0], Some((1, 9)));
    market.place_offer(offer(0, 3, 4, Owner::Market, 5), &mut book).unwrap();
    assert_eq!(book.price_index[0], Some((2, 4)));
    market.place_offer(offer(0, 3, 4, Owner::Market, 5), &mut book).unwrap();
    assert_eq!(book.price_index[0], Some((2, 4)));
    assert_eq!(book.price_index[1], None);
    market.place_order(order(1, 3, 2, Owner::Market, 5), &mut book).unwrap();
    market.place_order(order(1, 3, 7, Owner::Market, 5), &mut book).unwrap();
    assert_eq!(book.order_index[1], Some((2, 7)));
    assert_eq!(book.order_index[0], None);
    assert_eq!(market.get_cheapest_offer(0, &book.offers), Some((2, 4)));
    assert_eq!(market.get_highest_order(1, &book), Some((2, 7)));
    assert_eq!(market.get_highest_order(0, &book), None);
}

#[test]
fn lookups_by_handle() {
    let mut market = Marketplace::new();
    let mut book = MarketData::new(1);
    market.place_offer(offer(0, 3, 9, Owner::Market, 5), &mut book).unwrap();
    market.place_order(order(0, 2, 1, Owner::Market, 5), &mut book).unwrap();
    assert_eq!(market.get_offer_by_handle(1, &book).unwrap().amount, 3);
    assert!(market.get_offer_by_handle(2, &book).is_none());
    assert_eq!(market.get_order_by_handle(1, &book).unwrap().max_price_per_unit, 1);
    assert!(market.get_order_by_handle(7, &book).is_none());
}

#[test]
fn completed_orders_cleanup_is_idempotent() {
    let mut market = Marketplace::new();
    let mut book = MarketData::new(1);
    market.place_order(order(0, 2, 1, Owner::Market, 5), &mut book).unwrap();
    market.place_order(order(0, 4, 1, Owner::Market, 5), &mut book).unwrap();
    book.orders[0].1.amount = 0;
    market.cleanup_complete_orders(&mut book);
    assert_eq!(book.orders.len(), 1);
    assert_eq!(book.orders[0].0, 2);
    market.cleanup_complete_orders(&mut book);
    assert_eq!(book.orders.len(), 1);
    assert_eq!(book.orders[0].0, 2);
    assert_eq!(book.orders[0].1.amount, 4);
}

#[test]
fn index_refresh_after_settlement() {
    let mut market = Marketplace::new();
    let mut book = MarketData::new(1);
    let mut companies = vec![company(0, 0)];
    market.place_offer(offer(0, 1, 2, Owner::Market, 10), &mut book).unwrap();
    market.place_offer(offer(0, 1, 5, Owner::Market, 10), &mut book).unwrap();
    market.place_order(order(0, 1, 3, Owner::Market, 10), &mut book).unwrap();
    market.tick(&mut book, &mut companies);
    assert_eq!(book.price_index[0], Some((2, 5)));
    assert_eq!(book.order_index[0], None);
}

#[test]
fn empty_book_tick_changes_nothing() {
    let mut market = Marketplace::new();
    let mut book = MarketData::new(3);
    let mut companies = vec![company(0, 7)];
    market.tick(&mut book, &mut companies);
    assert_eq!(companies[0].currency, 7);
    assert_eq!(book.price_index, vec![None, None, None]);
    assert_eq!(book.order_index, vec![None, None, None]);
}

#[test]
fn currency_conserved_between_companies() {
    let mut market = Marketplace::new();
    let mut book = MarketData::new(1);
    let mut companies = vec![company(0, 100), company(1, 3)];
    // Company 0 escrows 6 * 8 = 48.
    companies[0].currency -= 48;
    market.place_order(order(0, 6, 8, Owner::Company(0), 10), &mut book).unwrap();
    market.place_offer(offer(0, 2, 5, Owner::Company(1), 10), &mut book).unwrap();
    market.tick(&mut book, &mut companies);
    let escrow: u64 = book.orders.iter().map(|(_, o)| o.amount * o.max_price_per_unit).sum();
    assert_eq!(companies[0].currency + companies[1].currency + escrow, 103);
}

#[test]
fn order_filled_from_several_offers() {
    let mut market = Marketplace::new();
    let mut book = MarketData::new(1);
    let mut companies = vec![company(0, 0), company(1, 0), company(2, 0)];
    market.place_offer(offer(0, 2, 5, Owner::Company(1), 10), &mut book).unwrap();
    market.place_offer(offer(0, 3, 4, Owner::Company(2), 10), &mut book).unwrap();
    market.place_offer(offer(0, 9, 8, Owner::Market, 10), &mut book).unwrap();
    // Escrow of 6 * 5 = 30 was taken before.
    market.place_order(order(0, 6, 5, Owner::Company(0), 10), &mut book).unwrap();
    market.tick(&mut book, &mut companies);
    assert_eq!(companies[2].currency, 12);
    assert_eq!(companies[1].currency, 10);
    assert_eq!(companies[0].stock.quantity_of(0), 5);
    assert_eq!(companies[0].currency, 3);
    assert_eq!(book.orders.len(), 1);
    assert_eq!(book.orders[0].1.amount, 1);
    assert_eq!(book.offers.len(), 1);
    assert_eq!(book.offers[0].0, 3);
    assert_eq!(book.offers[0].1.amount, 9);
    assert_eq!(market.statistics.company_offers_fulfilled, 2);
    assert_eq!(market.statistics.company_orders_partly_fulfilled, 2);
}
