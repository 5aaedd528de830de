use econo_sim::action_space::{ActionSpace, CompanyAction};
use econo_sim::company::{Company, Owner};
use econo_sim::consumer::Consumer;
use econo_sim::market_data::MarketData;
use econo_sim::marketplace::Marketplace;
use econo_sim::offer::{Offer, UnprocessedOffer};
use econo_sim::order::UnprocessedOrder;
use econo_sim::processor::Processor;
use econo_sim::producer::Producer;
use econo_sim::recipe::{Recipe, RecipeData};
use econo_sim::resource_data::{Resource, ResourceData};
use econo_sim::state::CompanyState;
use econo_sim::world::World;

#[test]
fn action_space_layout() {
    let space = ActionSpace::new(3, 2);
    assert_eq!(
        space.actions,
        vec![
            CompanyAction::Nothing,
            CompanyAction::BuyProcessor(0),
            CompanyAction::BuyProcessor(1),
            CompanyAction::SellProcessor(0),
            CompanyAction::SellProcessor(1),
            CompanyAction::BuyResource(1, 5),
            CompanyAction::SellResource(1, 5),
            CompanyAction::BuyResource(2, 5),
            CompanyAction::SellResource(2, 5),
        ]
    );
    assert_eq!(ActionSpace::new(0, 0).actions, vec![CompanyAction::Nothing]);
    assert_eq!(ActionSpace::new(1, 0).actions, vec![CompanyAction::Nothing]);
}

#[test]
fn zero_company_state() {
    let s = CompanyState::new(3, 2);
    assert_eq!(s.stock, vec![0, 0, 0]);
    assert_eq!(s.price_index, vec![0, 0, 0]);
    assert_eq!(s.order_index, vec![0, 0, 0]);
    assert_eq!(s.processor_counts, vec![0, 0]);
    assert_eq!(s.production_rates, vec![0, 0, 0]);
    assert_eq!(s.currency, 0);
}

#[test]
fn resource_catalog_lookups() {
    let mut data = ResourceData::new();
    assert_eq!(data.add_resource(Resource { name: String::from("Wood") }), 0);
    assert_eq!(data.add_resource(Resource { name: String::from("Iron") }), 1);
    assert_eq!(data.add_resource(Resource { name: String::from("Wood") }), 2);
    assert_eq!(data.get_resource_name_by_handle(1), Some("Iron"));
    assert_eq!(data.get_resource_name_by_handle(3), None);
    assert_eq!(data.get_resource_by_handle(0).unwrap().name, "Wood");
    assert!(data.get_resource_by_handle(5).is_none());
    assert_eq!(data.get_resource_handle_by_name("Wood"), Some(0));
    assert_eq!(data.get_resource_handle_by_name("Iron"), Some(1));
    assert_eq!(data.get_resource_handle_by_name("Gold"), None);
}

#[test]
fn producer_releases_batch_on_schedule() {
    let mut p = Producer::new();
    p.offer_creation_ticks = 3;
    p.production.push(UnprocessedOffer { resource: 0, amount: 2, price_per_unit: 5, time_to_live: 4 });
    p.tick();
    assert_eq!(p.offers.len(), 1);
    assert_eq!(p.current_tick, 1);
    p.offers.clear();
    p.tick();
    p.tick();
    assert!(p.offers.is_empty());
    assert_eq!(p.current_tick, 3);
    p.tick();
    assert_eq!(p.offers.len(), 1);
    assert_eq!(p.current_tick, 1);
}

#[test]
fn consumer_releases_batch_when_need_arises() {
    let mut c = Consumer::new();
    c.order_creation_ticks = 2;
    c.consumption.push(UnprocessedOrder { resource: 1, amount: 3, max_price_per_unit: 9, time_to_live: 4 });
    c.tick();
    assert!(c.orders.is_empty());
    assert_eq!(c.current_tick, 1);
    c.tick();
    assert_eq!(c.orders.len(), 1);
    assert_eq!(c.current_tick, 0);
}

fn sawmill() -> RecipeData {
    let mut recipes = RecipeData::new();
    let mut r = Recipe::new(String::from("Saw"), 1);
    r.ingredients.push((0, 2));
    r.products.push((1, 3));
    recipes.add_recipe(r);
    recipes
}

#[test]
fn processor_runs_when_ingredients_suffice() {
    let recipes = sawmill();
    let mut company = Company::new("Mill", 0, 2, 1);
    company.stock.add_to_stock(0, 5);
    let mut p = Processor {
        name: String::from("P"),
        production_speed: 2,
        recipe: 0,
        productive: true,
        produced_last_tick: false,
    };
    p.tick(&mut company.stock, &recipes);
    assert!(p.produced_last_tick);
    assert_eq!(company.stock.quantity_of(0), 3);
    assert_eq!(company.stock.quantity_of(1), 6);
    p.tick(&mut company.stock, &recipes);
    p.tick(&mut company.stock, &recipes);
    assert!(!p.produced_last_tick);
    assert_eq!(company.stock.quantity_of(0), 1);
    assert_eq!(company.stock.quantity_of(1), 12);
}

#[test]
fn buying_and_selling_processors() {
    let recipes = sawmill();
    let mut company = Company::new("Mill", 0, 2, 1);
    company.buy_processor(0, 10, &recipes);
    assert!(company.processors.is_empty());
    company.currency = 25;
    company.buy_processor(0, 10, &recipes);
    assert_eq!(company.currency, 15);
    assert_eq!(company.processors.len(), 1);
    assert_eq!(company.processors[0].name, "ProcSaw");
    company.sell_processor(3, 10);
    assert_eq!(company.currency, 15);
    company.sell_processor(0, 10);
    assert_eq!(company.currency, 25);
    assert!(company.processors.is_empty());
}

#[test]
fn company_tick_observes_itself_and_market() {
    let recipes = sawmill();
    let mut book = MarketData::new(2);
    let mut market = Marketplace::new();
    market.place_offer(Offer { resource: 1, amount: 1, price_per_unit: 4, owner: Owner::Market, time_to_live: 3 }, &mut book).unwrap();
    let mut company = Company::new("Mill", 0, 2, 1);
    company.currency = 50;
    company.buy_processor(0, 10, &recipes);
    company.stock.add_to_stock(0, 2);
    let state = company.tick(&recipes, &book);
    assert_eq!(state.stock, vec![0, 3]);
    assert_eq!(state.currency, 40);
    assert_eq!(state.price_index, vec![0, 4]);
    assert_eq!(state.order_index, vec![0, 0]);
    assert_eq!(state.processor_counts, vec![1]);
    assert_eq!(state.production_rates, vec![0, 3]);
    assert_eq!(company.company_value, 40);
    assert_eq!(company.productive_processor_ticks, 1);
}

#[test]
fn company_act_states_intents_at_best_price() {
    let recipes = sawmill();
    let mut book = MarketData::new(2);
    let mut market = Marketplace::new();
    market.place_offer(Offer { resource: 1, amount: 1, price_per_unit: 4, owner: Owner::Market, time_to_live: 3 }, &mut book).unwrap();
    let mut company = Company::new("Mill", 0, 2, 1);
    let state = CompanyState::new(2, 1);
    company.act(CompanyAction::BuyResource(1, 5), state.clone(), &recipes, &book, 10);
    assert_eq!(company.orders, vec![UnprocessedOrder { resource: 1, amount: 5, max_price_per_unit: 4, time_to_live: 100 }]);
    company.act(CompanyAction::SellResource(1, 5), state.clone(), &recipes, &book, 10);
    assert!(company.offers.is_empty());
    company.act(CompanyAction::BuyResource(0, 5), state, &recipes, &book, 10);
    assert_eq!(company.orders.len(), 1);
}

#[test]
fn world_tick_steps() {
    let mut world = World::new();
    world.market_data = MarketData::new(2);
    world.actionspace = ActionSpace::new(2, 0);
    let mut producer = Producer::new();
    producer.production.push(UnprocessedOffer { resource: 1, amount: 10, price_per_unit: 3, time_to_live: 5 });
    world.producer_data.producers.push(producer);
    let mut buyer = Company::new("Buyer", 0, 2, 0);
    buyer.currency = 100;
    world.company_data.companies.push(buyer);

    world.update_producers();
    world.update_consumers();
    assert_eq!(world.market_data.offers.len(), 1);
    let state = world.observe_company(0);
    assert_eq!(state.price_index, vec![0, 3]);
    // Action 1 buys five units of resource 1 at the cheapest price.
    assert_eq!(world.actionspace.actions[1], CompanyAction::BuyResource(1, 5));
    world.update_company(0, 1, state);
    assert_eq!(world.company_data.companies[0].currency, 85);
    assert_eq!(world.market_data.orders.len(), 1);
    world.update_market();
    assert_eq!(world.company_data.companies[0].stock.quantity_of(1), 5);
    assert_eq!(world.company_data.companies[0].currency, 85);
    assert_eq!(world.market_data.offers[0].1.amount, 5);
    assert!(world.market_data.orders.is_empty());
    assert_eq!(world.company_data.get_company_name_by_handle(0), Some("Buyer"));
}

#[test]
fn world_skips_unaffordable_order() {
    let mut world = World::new();
    world.market_data = MarketData::new(2);
    world.actionspace = ActionSpace::new(2, 0);
    let mut producer = Producer::new();
    producer.production.push(UnprocessedOffer { resource: 1, amount: 10, price_per_unit: 30, time_to_live: 5 });
    world.producer_data.producers.push(producer);
    let mut buyer = Company::new("Buyer", 0, 2, 0);
    buyer.currency = 100;
    world.company_data.companies.push(buyer);
    world.update_producers();
    let state = world.observe_company(0);
    world.update_company(0, 1, state);
    assert_eq!(world.company_data.companies[0].currency, 100);
    assert!(world.market_data.orders.is_empty());
    assert!(world.company_data.companies[0].orders.is_empty());
}
