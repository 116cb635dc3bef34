use checkout::catalog::{Catalog, Product};
use checkout::currency::Currency;

#[test]
fn product_new_takes_name_and_price() {
    let product = Product::new("A0001".to_string(), 1299);

    assert_eq!("A0001", product.name);
    assert_eq!(Currency(1299), product.price);
}

#[test]
fn products_are_equal_where_name_and_price_are() {
    let product = Product::new("A0001".to_string(), 1299);

    assert!(product == Product::new("A0001".to_string(), 1299));
    assert!(product != Product::new("A0001".to_string(), 1298));
    assert!(product != Product::new("A0002".to_string(), 1299));
    assert!(product != Product::new("".to_string(), 0));
}

#[test]
fn lookup_finds_what_was_added() {
    let mut catalog = Catalog::new();
    catalog.add(Product::new("A0001".to_string(), 1299));
    catalog.add(Product::new("A0002".to_string(), 399));

    assert_eq!(Some(&Product::new("A0001".to_string(), 1299)), catalog.lookup("A0001"));
    assert_eq!(Some(&Product::new("A0002".to_string(), 399)), catalog.lookup("A0002"));
}

#[test]
fn lookup_finds_nothing_else() {
    let mut catalog = Catalog::new();
    assert_eq!(None, catalog.lookup("A0001"));
    catalog.add(Product::new("A0001".to_string(), 1299));

    assert_eq!(None, catalog.lookup("A0002"));
    assert_eq!(None, catalog.lookup("a0001"));
    assert_eq!(None, catalog.lookup("A0001 "));
    assert_eq!(None, catalog.lookup(""));
}

#[test]
fn add_replaces_the_product_of_the_same_name() {
    let mut catalog = Catalog::new();
    catalog.add(Product::new("A0001".to_string(), 1299));
    catalog.add(Product::new("A0002".to_string(), 399));
    catalog.add(Product::new("A0001".to_string(), 999));

    assert_eq!(Some(&Product::new("A0001".to_string(), 999)), catalog.lookup("A0001"));
    assert_eq!(Some(&Product::new("A0002".to_string(), 399)), catalog.lookup("A0002"));
}
