use checkout::basket::{Basket, ProductNotFound};
use checkout::catalog::{Catalog, Product};
use checkout::currency::Currency;
use checkout::deal::{Deal, DealKind};

fn inventory() -> Catalog {
    let mut catalog = Catalog::new();
    catalog.add(Product::new("A0001".to_string(), 1299));
    catalog.add(Product::new("A0002".to_string(), 399));
    catalog
}

fn deal1() -> Deal {
    Deal { product: "A0002".to_string(), kind: DealKind::Buy1Get1Free }
}

fn deal2() -> Deal {
    Deal { product: "A0001".to_string(), kind: DealKind::PercentageDiscount(10) }
}

fn percent_off(product: &str, percent: u32) -> Deal {
    Deal { product: product.to_string(), kind: DealKind::PercentageDiscount(percent) }
}

fn scan_times(basket: &mut Basket, product: &str, times: u32) {
    for _ in 0..times {
        assert_eq!(Ok(()), basket.scan(product));
    }
}

#[test]
fn test_total_without_products() {
    let catalog = inventory();
    let basket = Basket::new(&catalog);

    assert_eq!(Currency(0), basket.total());
}

#[test]
fn test_total_with_products() {
    let catalog = inventory();
    let mut basket = Basket::new(&catalog);

    let _ = basket.scan("A0001");
    let _ = basket.scan("A0002");

    assert_eq!(Currency(1698), basket.total());
}

#[test]
fn test_deal1() {
    let catalog = inventory();
    let deal = deal1();
    let mut basket = Basket::new(&catalog);

    let _ = basket.scan("A0002");
    let _ = basket.scan("A0001");
    let _ = basket.scan("A0002");

    basket.add_deal(&deal);

    assert_eq!(Currency(1698), basket.total());
}

#[test]
fn test_deal2() {
    let catalog = inventory();
    let deal = deal2();
    let mut basket = Basket::new(&catalog);

    let _ = basket.scan("A0002");
    let _ = basket.scan("A0001");
    let _ = basket.scan("A0002");

    basket.add_deal(&deal);

    assert_eq!(Currency(1967), basket.total());
}

#[test]
fn empty_basket_totals_zero_whatever_the_deals() {
    let catalog = inventory();
    let first = deal1();
    let second = deal2();
    let third = percent_off("A0002", 150);
    let mut basket = Basket::new(&catalog);
    basket.add_deal(&first);
    basket.add_deal(&second);
    basket.add_deal(&third);

    assert_eq!(Currency(0), basket.total());
    assert_eq!(Some(Currency(0)), basket.checked_total());
}

#[test]
fn empty_basket_of_an_empty_catalog_totals_zero() {
    let catalog = Catalog::new();
    let basket = Basket::new(&catalog);

    assert_eq!(Currency(0), basket.total());
}

#[test]
fn scanning_an_unknown_product_fails_and_changes_nothing() {
    let catalog = inventory();
    let deal = deal1();
    let mut basket = Basket::new(&catalog);
    scan_times(&mut basket, "A0002", 2);
    scan_times(&mut basket, "A0001", 1);
    basket.add_deal(&deal);
    let before = basket.total();

    assert_eq!(Err(ProductNotFound), basket.scan("A0003"));
    assert_eq!(Err(ProductNotFound), basket.scan(""));
    assert_eq!(Err(ProductNotFound), basket.scan("a0001"));

    assert_eq!(before, basket.total());
    assert_eq!(Currency(1698), basket.total());
    let a0001 = catalog.lookup("A0001").unwrap();
    let a0002 = catalog.lookup("A0002").unwrap();
    assert_eq!(1, basket.quantity(a0001));
    assert_eq!(2, basket.quantity(a0002));
}

#[test]
fn scanning_into_an_empty_basket_of_an_empty_catalog_fails() {
    let catalog = Catalog::new();
    let mut basket = Basket::new(&catalog);

    assert_eq!(Err(ProductNotFound), basket.scan("A0001"));
    assert_eq!(Currency(0), basket.total());
}

#[test]
fn repeated_scans_without_deals_total_the_unit_price_times_the_count() {
    let catalog = inventory();
    for times in [1u32, 2, 3, 7, 100] {
        let mut basket = Basket::new(&catalog);
        scan_times(&mut basket, "A0001", times);
        assert_eq!(Currency(times * 1299), basket.total());
    }
    let mut basket = Basket::new(&catalog);
    scan_times(&mut basket, "A0002", 5);
    assert_eq!(Currency(1995), basket.total());
}

#[test]
fn quantity_counts_the_scans_of_each_product() {
    let catalog = inventory();
    let a0001 = catalog.lookup("A0001").unwrap();
    let a0002 = catalog.lookup("A0002").unwrap();
    let stranger = Product::new("A0001".to_string(), 1300);
    let mut basket = Basket::new(&catalog);

    assert_eq!(0, basket.quantity(a0001));
    scan_times(&mut basket, "A0002", 1);
    scan_times(&mut basket, "A0001", 1);
    scan_times(&mut basket, "A0002", 2);

    assert_eq!(1, basket.quantity(a0001));
    assert_eq!(3, basket.quantity(a0002));
    assert_eq!(0, basket.quantity(&stranger));
}

#[test]
fn buy_one_get_one_free_bills_two_of_three() {
    let catalog = inventory();
    let deal = deal1();
    let mut basket = Basket::new(&catalog);
    basket.add_deal(&deal);
    scan_times(&mut basket, "A0002", 3);

    assert_eq!(Currency(2 * 399), basket.total());
}

#[test]
fn buy_one_get_one_free_bills_half_rounded_up() {
    let catalog = inventory();
    let deal = deal1();
    let billed = [(1u32, 1u32), (2, 1), (3, 2), (4, 2), (5, 3), (10, 5), (11, 6)];
    for (scanned, billable) in billed {
        let mut basket = Basket::new(&catalog);
        scan_times(&mut basket, "A0002", scanned);
        basket.add_deal(&deal);
        assert_eq!(Currency(billable * 399), basket.total());
    }
}

#[test]
fn ten_percent_off_one_unit_drops_the_fraction() {
    let catalog = inventory();
    let deal = deal2();
    let mut basket = Basket::new(&catalog);
    basket.add_deal(&deal);
    scan_times(&mut basket, "A0001", 1);

    assert_eq!(Currency(1169), basket.total());
}

#[test]
fn percentage_discount_applies_to_the_whole_line() {
    let catalog = inventory();
    let deal = deal2();
    let mut basket = Basket::new(&catalog);
    basket.add_deal(&deal);
    scan_times(&mut basket, "A0001", 3);

    // 3 * 1299 * 90 / 100 = 3507.3, not 3 * 1169 = 3507: the fraction is
    // dropped once, from the line.
    assert_eq!(Currency(3507), basket.total());

    let third = percent_off("A0002", 33);
    let mut basket = Basket::new(&catalog);
    basket.add_deal(&third);
    scan_times(&mut basket, "A0002", 3);

    // 3 * 399 * 67 / 100 = 801.99; unit by unit it would be 3 * 267 = 801.
    assert_eq!(Currency(801), basket.total());
    let mut basket = Basket::new(&catalog);
    basket.add_deal(&third);
    scan_times(&mut basket, "A0002", 1);
    assert_eq!(Currency(267), basket.total());
}

#[test]
fn percentage_discount_of_nothing_and_of_everything() {
    let catalog = inventory();
    let nothing = percent_off("A0001", 0);
    let everything = percent_off("A0002", 100);
    let mut basket = Basket::new(&catalog);
    basket.add_deal(&nothing);
    basket.add_deal(&everything);
    scan_times(&mut basket, "A0001", 2);
    scan_times(&mut basket, "A0002", 4);

    assert_eq!(Currency(2598), basket.total());
}

#[test]
fn only_the_first_deal_for_a_product_applies() {
    let catalog = inventory();
    let free = deal1();
    let off = percent_off("A0002", 50);

    let mut basket = Basket::new(&catalog);
    scan_times(&mut basket, "A0002", 3);
    basket.add_deal(&free);
    basket.add_deal(&off);
    assert_eq!(Currency(798), basket.total());

    let mut basket = Basket::new(&catalog);
    scan_times(&mut basket, "A0002", 3);
    basket.add_deal(&off);
    basket.add_deal(&free);
    assert_eq!(Currency(598), basket.total());
}

#[test]
fn the_first_deal_applies_even_where_a_later_one_is_cheaper() {
    let catalog = inventory();
    let small = percent_off("A0001", 10);
    let large = percent_off("A0001", 90);
    let mut basket = Basket::new(&catalog);
    scan_times(&mut basket, "A0001", 1);
    basket.add_deal(&small);
    let with_one = basket.total();
    basket.add_deal(&large);

    assert_eq!(with_one, basket.total());
    assert_eq!(Currency(1169), basket.total());
}

#[test]
fn a_deal_for_an_unknown_product_is_inert() {
    let catalog = inventory();
    let stray = percent_off("A0003", 50);
    let lower_case = Deal { product: "a0002".to_string(), kind: DealKind::Buy1Get1Free };
    let mut basket = Basket::new(&catalog);
    scan_times(&mut basket, "A0001", 1);
    scan_times(&mut basket, "A0002", 2);
    basket.add_deal(&stray);
    basket.add_deal(&lower_case);

    assert_eq!(Currency(1299 + 798), basket.total());
}

#[test]
fn deals_for_different_products_apply_together() {
    let catalog = inventory();
    let free = deal1();
    let off = deal2();
    let mut basket = Basket::new(&catalog);
    scan_times(&mut basket, "A0002", 2);
    scan_times(&mut basket, "A0001", 1);
    basket.add_deal(&off);
    basket.add_deal(&free);

    assert_eq!(Currency(399 + 1169), basket.total());
}

#[test]
fn deals_apply_whether_added_before_or_after_the_scans() {
    let catalog = inventory();
    let deal = deal1();

    let mut before = Basket::new(&catalog);
    before.add_deal(&deal);
    scan_times(&mut before, "A0002", 2);
    scan_times(&mut before, "A0001", 1);

    let mut after = Basket::new(&catalog);
    scan_times(&mut after, "A0002", 2);
    scan_times(&mut after, "A0001", 1);
    after.add_deal(&deal);

    assert_eq!(Currency(1698), before.total());
    assert_eq!(before.total(), after.total());
}

#[test]
fn total_does_not_depend_on_the_order_of_the_scans() {
    let catalog = inventory();
    let free = deal1();
    let off = deal2();
    let orders = [
        ["A0001", "A0002", "A0002"],
        ["A0002", "A0001", "A0002"],
        ["A0002", "A0002", "A0001"],
    ];
    for order in orders {
        let mut basket = Basket::new(&catalog);
        basket.add_deal(&free);
        basket.add_deal(&off);
        for name in order {
            assert_eq!(Ok(()), basket.scan(name));
        }
        assert_eq!(Currency(399 + 1169), basket.total());
    }
}

#[test]
fn total_is_the_same_however_often_it_is_taken() {
    let catalog = inventory();
    let deal = deal2();
    let mut basket = Basket::new(&catalog);
    scan_times(&mut basket, "A0002", 2);
    scan_times(&mut basket, "A0001", 1);
    basket.add_deal(&deal);

    let first = basket.total();
    let second = basket.total();
    let third = basket.checked_total();

    assert_eq!(first, second);
    assert_eq!(Some(first), third);
    assert_eq!(Currency(1967), second);
}

#[test]
fn checked_total_agrees_with_total() {
    let catalog = inventory();
    let deal = deal1();
    let mut basket = Basket::new(&catalog);
    assert_eq!(Some(Currency(0)), basket.checked_total());
    scan_times(&mut basket, "A0002", 2);
    scan_times(&mut basket, "A0001", 1);
    assert_eq!(Some(Currency(2097)), basket.checked_total());
    basket.add_deal(&deal);

    assert_eq!(Some(Currency(1698)), basket.checked_total());
    assert_eq!(Some(basket.total()), basket.checked_total());
}

#[test]
fn checked_total_is_none_where_the_total_does_not_fit() {
    let mut catalog = Catalog::new();
    catalog.add(Product::new("gold".to_string(), u32::MAX));
    catalog.add(Product::new("dust".to_string(), 1));
    let mut basket = Basket::new(&catalog);
    scan_times(&mut basket, "gold", 1);
    assert_eq!(Some(Currency(u32::MAX)), basket.checked_total());
    assert_eq!(Currency(u32::MAX), basket.total());

    scan_times(&mut basket, "dust", 1);
    assert_eq!(None, basket.checked_total());

    let mut basket = Basket::new(&catalog);
    scan_times(&mut basket, "gold", 2);
    assert_eq!(None, basket.checked_total());
}

#[test]
fn a_deal_can_bring_the_total_back_into_range() {
    let mut catalog = Catalog::new();
    catalog.add(Product::new("gold".to_string(), u32::MAX));
    let free = Deal { product: "gold".to_string(), kind: DealKind::Buy1Get1Free };
    let tenth = percent_off("gold", 90);

    let mut basket = Basket::new(&catalog);
    scan_times(&mut basket, "gold", 2);
    assert_eq!(None, basket.checked_total());
    basket.add_deal(&free);
    assert_eq!(Some(Currency(u32::MAX)), basket.checked_total());

    // 10 * 4294967295 * 10 / 100 = 4294967295: the product on the way is
    // far beyond the currency, what is billed is not.
    let mut basket = Basket::new(&catalog);
    scan_times(&mut basket, "gold", 10);
    basket.add_deal(&tenth);
    assert_eq!(Some(Currency(u32::MAX)), basket.checked_total());
    assert_eq!(Currency(u32::MAX), basket.total());
}

#[test]
fn checked_total_is_none_under_a_discount_of_more_than_all() {
    let catalog = inventory();
    let too_much = percent_off("A0001", 101);
    let mut basket = Basket::new(&catalog);
    scan_times(&mut basket, "A0002", 1);
    basket.add_deal(&too_much);

    // The deal is in force for no scanned product yet.
    assert_eq!(Some(Currency(399)), basket.checked_total());

    scan_times(&mut basket, "A0001", 1);
    assert_eq!(None, basket.checked_total());
}

#[test]
fn a_discount_of_more_than_all_behind_another_deal_is_never_applied() {
    let catalog = inventory();
    let fine = deal2();
    let too_much = percent_off("A0001", 1000);
    let mut basket = Basket::new(&catalog);
    scan_times(&mut basket, "A0001", 1);
    basket.add_deal(&fine);
    basket.add_deal(&too_much);

    assert_eq!(Some(Currency(1169)), basket.checked_total());
    assert_eq!(Currency(1169), basket.total());
}

#[test]
fn products_are_told_apart_by_name_and_price() {
    let mut catalog = Catalog::new();
    catalog.add(Product::new("tea".to_string(), 250));
    catalog.add(Product::new("Tea".to_string(), 250));
    let deal = Deal { product: "tea".to_string(), kind: DealKind::Buy1Get1Free };
    let mut basket = Basket::new(&catalog);
    scan_times(&mut basket, "tea", 2);
    scan_times(&mut basket, "Tea", 2);
    basket.add_deal(&deal);

    assert_eq!(Currency(250 + 500), basket.total());
    assert_eq!(2, basket.quantity(&Product::new("tea".to_string(), 250)));
    assert_eq!(0, basket.quantity(&Product::new("tea".to_string(), 251)));
}

#[test]
fn a_free_product_costs_nothing_under_any_deal() {
    let mut catalog = Catalog::new();
    catalog.add(Product::new("flyer".to_string(), 0));
    let deal = percent_off("flyer", 40);
    let mut basket = Basket::new(&catalog);
    scan_times(&mut basket, "flyer", 9);
    assert_eq!(Currency(0), basket.total());
    basket.add_deal(&deal);

    assert_eq!(Currency(0), basket.total());
}
