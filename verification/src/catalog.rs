//! Products and the catalog that identifies them.

use crate::currency::Currency;
use vstd::hash_map::StringHashMap;
use vstd::prelude::*;

verus! {

/// A product on sale: a name and the price of one unit. Two products are
/// the same where both agree.
#[derive(Debug, Hash)]
pub struct Product {
    pub name: String,
    pub price: Currency,
}

/// What a product is to the pricing rules: its name as a sequence of
/// characters and its unit price in minor units.
pub struct ProductView {
    pub name: Seq<char>,
    pub price: nat,
}

impl View for Product {
    type V = ProductView;

    open spec fn view(&self) -> ProductView {
        ProductView { name: self.name@, price: self.price.0 as nat }
    }
}

impl PartialEq for Product {
    fn eq(&self, other: &Product) -> (equal: bool) {
        self.name == other.name && self.price.0 == other.price.0
    }
}

impl Eq for Product {}

impl vstd::std_specs::cmp::PartialEqSpecImpl for Product {
    open spec fn obeys_eq_spec() -> bool {
        true
    }

    open spec fn eq_spec(&self, other: &Product) -> bool {
        self@ == other@
    }
}

impl Product {
    /// A product called `name` that sells at `price` minor units apiece.
    pub fn new(name: String, price: u32) -> (product: Product)
        ensures
            product@ == (ProductView { name: name@, price: price as nat }),
    {
        Product { name, price: Currency(price) }
    }
}

/// The products on sale, each found under the identifier it was added with:
/// its own name. The view is the map from identifier to product.
pub struct Catalog {
    products: StringHashMap<Product>,
}

impl View for Catalog {
    type V = Map<Seq<char>, ProductView>;

    closed spec fn view(&self) -> Map<Seq<char>, ProductView> {
        self.products@.map_values(|product: Product| product@)
    }
}

impl Catalog {
    /// The catalog is valid: every product is on sale under its own name,
    /// so that no two products on sale have the same name.
    pub open spec fn wf(&self) -> bool {
        forall|identifier: Seq<char>| #[trigger]
            self@.contains_key(identifier) ==> self@[identifier].name == identifier
    }

    /// A catalog with nothing on sale.
    pub fn new() -> (catalog: Catalog)
        ensures
            catalog@ == Map::<Seq<char>, ProductView>::empty(),
            catalog.wf(),
    {
        Catalog { products: StringHashMap::new() }
    }

    /// Puts `product` on sale under its name, in place of any product that
    /// was on sale under that name before.
    pub fn add(&mut self, product: Product)
        ensures
            final(self)@ == old(self)@.insert(product.name@, product@),
            old(self).wf() ==> final(self).wf(),
    {
        let name = product.name.clone();
        self.products.insert(name, product);
        assert(self@ == old(self)@.insert(product.name@, product@));
    }

    /// The product on sale under `identifier`, if there is one. In a valid
    /// catalog it is the product of that name.
    pub fn lookup(&self, identifier: &str) -> (found: Option<&Product>)
        ensures
            match found {
                Some(product) => self@.contains_key(identifier@) && product@ == self@[identifier@],
                None => !self@.contains_key(identifier@),
            },
            self.wf() ==> (found matches Some(product) ==> product@.name == identifier@),
    {
        let found = self.products.get(identifier);
        assert(found is Some ==> self@.contains_key(identifier@));
        found
    }
}

} // verus!
