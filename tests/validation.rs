use econo_sim::action_space::{ActionSpace, CompanyAction};
use econo_sim::company::{Company, Owner};
use econo_sim::market_data::MarketData;
use econo_sim::marketplace::Marketplace;
use econo_sim::offer::Offer;
use econo_sim::order::Order;
use econo_sim::processor::Processor;
use econo_sim::producer::Producer;
use econo_sim::recipe::Recipe;
use econo_sim::state::CompanyState;
use econo_sim::world::World;

#[test]
fn new_world_is_well_formed() {
    let world = World::new();
    assert!(world.check_well_formed());
    assert!(MarketData::new(4).check_well_formed());
}

#[test]
fn stale_index_is_detected() {
    let mut market = Marketplace::new();
    let mut book = MarketData::new(1);
    market.place_offer(Offer { resource: 0, amount: 1, price_per_unit: 3, owner: Owner::Market, time_to_live: 2 }, &mut book).unwrap();
    assert!(book.check_well_formed());
    book.price_index[0] = None;
    assert!(!book.check_well_formed());
    market.update_price_index(&mut book);
    assert!(book.check_well_formed());
}

#[test]
fn invalid_books_are_detected() {
    let mut book = MarketData::new(1);
    book.offers.push((1, Offer { resource: 0, amount: 0, price_per_unit: 3, owner: Owner::Market, time_to_live: 2 }));
    assert!(!book.check_well_formed());
    let mut book = MarketData::new(1);
    book.orders.push((2, Order { owner: Owner::Market, resource: 0, amount: 1, max_price_per_unit: 1, time_to_live: 2 }));
    book.orders.push((2, Order { owner: Owner::Market, resource: 0, amount: 1, max_price_per_unit: 1, time_to_live: 2 }));
    Marketplace::new().update_order_index(&mut book);
    assert!(!book.check_well_formed());
    let mut book = MarketData::new(1);
    book.orders.push((1, Order { owner: Owner::Company(0), resource: 0, amount: u64::MAX, max_price_per_unit: 2, time_to_live: 2 }));
    Marketplace::new().update_order_index(&mut book);
    assert!(!book.check_well_formed());
}

#[test]
fn invalid_worlds_are_detected() {
    let mut world = World::new();
    world.market_data = MarketData::new(1);
    world.market_place.place_order(Order { owner: Owner::Company(0), resource: 0, amount: 1, max_price_per_unit: 2, time_to_live: 2 }, &mut world.market_data).unwrap();
    assert!(!world.check_well_formed());
    world.company_data.companies.push(Company::new("A", 0, 1, 0));
    assert!(world.check_well_formed());
    world.market_place.next_order_id = 0;
    assert!(!world.check_well_formed());
    world.market_place.next_order_id = 1;
    let mut recipe = Recipe::new(String::from("R"), 1);
    recipe.ingredients.push((0, 1));
    recipe.ingredients.push((0, 2));
    world.recipe_data.recipes.push(recipe);
    assert!(!world.check_well_formed());
    world.recipe_data.recipes[0].ingredients.pop();
    assert!(world.check_well_formed());
    world.company_data.companies[0].processors.push(Processor {
        name: String::from("P"),
        production_speed: 1,
        recipe: 3,
        productive: true,
        produced_last_tick: false,
    });
    assert!(!world.check_well_formed());
    world.company_data.companies[0].processors[0].recipe = 0;
    assert!(world.check_well_formed());
    let mut producer = Producer::new();
    producer.offer_creation_ticks = 0;
    world.producer_data.producers.push(producer);
    assert!(!world.check_well_formed());
}

#[test]
fn selling_first_processor_of_recipe() {
    let mut world = World::new();
    world.recipe_data.recipes.push(Recipe::new(String::from("A"), 1));
    world.recipe_data.recipes.push(Recipe::new(String::from("B"), 1));
    world.actionspace = ActionSpace::new(1, 2);
    let mut company = Company::new("C", 0, 1, 2);
    company.currency = 3000;
    company.buy_processor(1, 1000, &world.recipe_data);
    company.buy_processor(0, 1000, &world.recipe_data);
    company.buy_processor(1, 1000, &world.recipe_data);
    world.company_data.companies.push(company);
    assert!(world.check_well_formed());
    assert_eq!(world.actionspace.actions[4], CompanyAction::SellProcessor(1));
    let state = world.observe_company(0);
    assert_eq!(state.processor_counts, vec![1, 2]);
    world.update_company(0, 4, state);
    let company = &world.company_data.companies[0];
    assert_eq!(company.currency, 1000);
    assert_eq!(company.processors.len(), 2);
    assert_eq!(company.processors[0].recipe, 0);
    assert_eq!(company.processors[1].recipe, 1);
    assert_eq!(company.old_state, CompanyState { stock: vec![], currency: 0, price_index: vec![], order_index: vec![], processor_counts: vec![1, 2], production_rates: vec![0] });
}

#[test]
fn company_offer_escrows_stock() {
    let mut world = World::new();
    world.market_data = MarketData::new(2);
    world.actionspace = ActionSpace::new(2, 0);
    let mut seller = Company::new("Seller", 0, 2, 0);
    seller.stock.add_to_stock(1, 7);
    world.company_data.companies.push(seller);
    world.market_place.place_order(Order { owner: Owner::Market, resource: 1, amount: 3, max_price_per_unit: 6, time_to_live: 4 }, &mut world.market_data).unwrap();
    let state = world.observe_company(0);
    assert_eq!(state.order_index, vec![0, 6]);
    assert_eq!(world.actionspace.actions[2], CompanyAction::SellResource(1, 5));
    world.update_company(0, 2, state);
    assert_eq!(world.company_data.companies[0].stock.quantity_of(1), 2);
    assert_eq!(world.market_data.offers.len(), 1);
    assert_eq!(world.market_data.offers[0].1.owner, Owner::Company(0));
    world.update_market();
    assert_eq!(world.company_data.companies[0].currency, 18);
    assert_eq!(world.market_data.offers[0].1.amount, 2);
    assert_eq!(world.market_place.statistics.company_offers_partly_fulfilled, 1);
}

#[test]
fn uncovered_company_offer_is_dropped() {
    let mut world = World::new();
    world.market_data = MarketData::new(2);
    world.actionspace = ActionSpace::new(2, 0);
    let mut seller = Company::new("Seller", 0, 2, 0);
    seller.stock.add_to_stock(1, 3);
    world.company_data.companies.push(seller);
    world.market_place.place_order(Order { owner: Owner::Market, resource: 1, amount: 3, max_price_per_unit: 6, time_to_live: 4 }, &mut world.market_data).unwrap();
    let state = world.observe_company(0);
    world.update_company(0, 2, state);
    assert_eq!(world.company_data.companies[0].stock.quantity_of(1), 3);
    assert!(world.market_data.offers.is_empty());
    assert!(world.company_data.companies[0].offers.is_empty());
    assert_eq!(world.market_place.next_offer_id, 0);
    assert_eq!(world.market_place.statistics.company_offers_placed, 0);
}
