use econo_sim::stock::Stock;

#[test]
fn new_stock_is_empty() {
    let s = Stock::new();
    assert_eq!(s.quantity_of(0), 0);
    assert_eq!(s.quantity_of(42), 0);
}

#[test]
fn add_and_remove() {
    let mut s = Stock::new();
    s.add_to_stock(1, 10);
    assert_eq!(s.quantity_of(1), 10);
    assert!(s.remove_from_stock_if_possible(1, 4));
    assert_eq!(s.quantity_of(1), 6);
    assert!(!s.remove_from_stock_if_possible(1, 7));
    assert_eq!(s.quantity_of(1), 6);
    assert!(s.remove_from_stock_if_possible(1, 6));
    assert_eq!(s.quantity_of(1), 0);
    assert!(!s.remove_from_stock_if_possible(3, 1));
    assert!(s.remove_from_stock_if_possible(3, 0));
}

#[test]
fn add_saturates() {
    let mut s = Stock::new();
    s.add_to_stock(0, u64::MAX - 1);
    s.add_to_stock(0, 5);
    assert_eq!(s.quantity_of(0), u64::MAX);
}

#[test]
fn checks_do_not_change_quantities() {
    let mut s = Stock::new();
    s.add_to_stock(0, 3);
    assert!(s.check_resource_in_stock(0, 3));
    assert!(!s.check_resource_in_stock(0, 4));
    assert!(!s.check_resource_in_stock(9, 1));
    assert!(s.check_resources_in_stock(&vec![(0, 2)]));
    assert!(!s.check_resources_in_stock(&vec![(0, 2), (9, 1)]));
    assert!(s.check_resources_in_stock(&vec![]));
    assert_eq!(s.quantity_of(0), 3);
    assert_eq!(s.quantity_of(9), 0);
}

#[test]
fn transaction_is_all_or_nothing() {
    let mut s = Stock::new();
    s.add_to_stock(0, 5);
    s.add_to_stock(1, 2);
    assert!(!s.make_transaction(&vec![(0, 3), (1, 3)]));
    assert_eq!(s.quantity_of(0), 5);
    assert_eq!(s.quantity_of(1), 2);
    assert!(s.make_transaction(&vec![(0, 3), (1, 2)]));
    assert_eq!(s.quantity_of(0), 2);
    assert_eq!(s.quantity_of(1), 0);
}

#[test]
fn repeated_resource_counts_in_total() {
    let mut s = Stock::new();
    s.add_to_stock(0, 5);
    assert!(!s.make_transaction(&vec![(0, 3), (0, 3)]));
    assert_eq!(s.quantity_of(0), 5);
    assert!(s.make_transaction(&vec![(0, 3), (0, 2)]));
    assert_eq!(s.quantity_of(0), 0);
}
