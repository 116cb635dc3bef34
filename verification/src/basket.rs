//! The basket: scanned quantities, the deals in force, and the total.

use crate::catalog::{Catalog, Product, ProductView};
use crate::currency::Currency;
use crate::deal::{
    applicable_deal, checked_line_amount, deal_views, find_deal, is_billable,
    lemma_line_amount_bounds, line_amount, Deal, DealKind, DealView,
};
use crate::summation::{
    lemma_seq_sum_is_set_sum, lemma_seq_sum_pointwise, lemma_set_sum_bounds, seq_sum, set_sum,
};
use vstd::prelude::*;

verus! {

/// The one way a scan fails: the catalog has no product under the
/// identifier that was scanned.
#[derive(Debug, Clone, Copy, PartialEq, Eq, Structural)]
pub struct ProductNotFound;

/// A basket as the pricing rules see it: how many units of each product
/// were scanned, and the deals in the order in which they were added.
pub struct BasketView {
    pub quantities: Map<ProductView, nat>,
    pub deals: Seq<DealView>,
}

impl BasketView {
    /// Finitely many products were scanned, each at least once.
    pub open spec fn wf(self) -> bool {
        &&& self.quantities.dom().finite()
        &&& forall|product: ProductView| #[trigger]
            self.quantities.contains_key(product) ==> self.quantities[product] >= 1
    }

    /// The basket with `deals` in which nothing was scanned.
    pub open spec fn unscanned(deals: Seq<DealView>) -> BasketView {
        BasketView { quantities: Map::empty(), deals }
    }

    /// The basket in which nothing was scanned and to which no deal was
    /// added.
    pub open spec fn empty() -> BasketView {
        Self::unscanned(Seq::empty())
    }

    /// How many units of `product` were scanned.
    pub open spec fn quantity(self, product: ProductView) -> nat {
        if self.quantities.contains_key(product) {
            self.quantities[product]
        } else {
            0
        }
    }

    /// The basket after one more unit of `product` was scanned.
    pub open spec fn scanned(self, product: ProductView) -> BasketView {
        BasketView {
            quantities: self.quantities.insert(product, self.quantity(product) + 1),
            deals: self.deals,
        }
    }

    /// The basket after `times` more units of `product` were scanned.
    pub open spec fn scanned_times(self, product: ProductView, times: nat) -> BasketView
        decreases times,
    {
        if times == 0 {
            self
        } else {
            self.scanned_times(product, (times - 1) as nat).scanned(product)
        }
    }

    /// The basket after `deal` was added behind the deals it already has.
    pub open spec fn with_deal(self, deal: DealView) -> BasketView {
        BasketView { quantities: self.quantities, deals: self.deals.push(deal) }
    }

    /// The deal in force for `product`: the first one that was added for
    /// its name.
    pub open spec fn deal_for(self, product: ProductView) -> Option<DealKind> {
        applicable_deal(self.deals, product.name)
    }

    /// The amount billed for the units of `product` in the basket, under
    /// the deal in force for it.
    pub open spec fn amount(self, product: ProductView) -> int {
        line_amount(self.deal_for(product), self.quantity(product), product.price)
    }

    /// [`Self::amount`] as a function of the product.
    pub open spec fn amounts(self) -> spec_fn(ProductView) -> int {
        |product: ProductView| self.amount(product)
    }

    /// The total of the basket: the amounts billed for the products that
    /// were scanned, added up. The order in which they are taken does not
    /// enter into it.
    pub open spec fn total(self) -> int {
        set_sum(self.quantities.dom(), self.amounts())
    }

    /// Whether the total of the basket is an amount of money: every deal in
    /// force for a scanned product can price it, and the total fits the
    /// currency.
    pub open spec fn priceable(self) -> bool {
        &&& forall|product: ProductView| #[trigger]
            self.quantities.contains_key(product) ==> is_billable(self.deal_for(product))
        &&& self.total() <= u32::MAX
    }
}

/// One product that was scanned and how many units of it.
struct Line<'a> {
    product: &'a Product,
    quantity: u32,
}

/// The products of `lines`, in order.
spec fn line_products(lines: Seq<Line>) -> Seq<ProductView> {
    lines.map_values(|line: Line| line.product@)
}

/// The quantity that `lines` hold for each product.
spec fn line_quantities(lines: Seq<Line>) -> Map<ProductView, nat> {
    Map::new(
        |product: ProductView| line_products(lines).contains(product),
        |product: ProductView| lines[line_products(lines).index_of(product)].quantity as nat,
    )
}

/// Where no product has two lines, each line holds the quantity of its
/// product, and the products with a quantity are those of the lines.
proof fn lemma_line_quantities(lines: Seq<Line>)
    requires
        line_products(lines).no_duplicates(),
    ensures
        line_quantities(lines).dom() == line_products(lines).to_set(),
        line_quantities(lines).dom().finite(),
        forall|i: int|
            0 <= i < lines.len() ==> {
                &&& line_quantities(lines).contains_key(#[trigger] lines[i].product@)
                &&& line_quantities(lines)[lines[i].product@] == lines[i].quantity
            },
{
    let products = line_products(lines);
    assert(line_quantities(lines).dom() =~= products.to_set());
    vstd::seq_lib::seq_to_set_is_finite(products);
    assert forall|i: int| 0 <= i < lines.len() implies {
        &&& line_quantities(lines).contains_key(#[trigger] lines[i].product@)
        &&& line_quantities(lines)[lines[i].product@] == lines[i].quantity
    } by {
        assert(products[i] == lines[i].product@);
        let j = products.index_of(lines[i].product@);
        assert(products[j] == products[i]);
    }
}

/// Putting `line` in the place of the line at `i`, which has the same
/// product, changes the quantity of that product and nothing else.
proof fn lemma_line_replaced(lines: Seq<Line>, i: int, line: Line)
    requires
        line_products(lines).no_duplicates(),
        0 <= i < lines.len(),
        lines[i].product@ == line.product@,
    ensures
        line_products(lines.update(i, line)) == line_products(lines),
        line_quantities(lines.update(i, line)) == line_quantities(lines).insert(
            line.product@,
            line.quantity as nat,
        ),
{
    let after = lines.update(i, line);
    assert(line_products(after) =~= line_products(lines));
    lemma_line_quantities(lines);
    lemma_line_quantities(after);
    let before = line_quantities(lines);
    assert forall|other: ProductView| #[trigger]
        before.contains_key(other) && other != line.product@ implies line_quantities(after)[other]
        == before[other] by {
        let j = line_products(lines).index_of(other);
        assert(after[j].product@ == other);
        assert(lines[j].product@ == other);
    }
    assert(after[i].product@ == line.product@);
    assert(line_quantities(after) =~= line_quantities(lines).insert(
        line.product@,
        line.quantity as nat,
    ));
}

/// A line for a product that has none yet gives that product its quantity
/// and changes nothing else.
proof fn lemma_line_added(lines: Seq<Line>, line: Line)
    requires
        line_products(lines).no_duplicates(),
        !line_products(lines).contains(line.product@),
    ensures
        line_products(lines.push(line)) == line_products(lines).push(line.product@),
        line_products(lines.push(line)).no_duplicates(),
        line_quantities(lines.push(line)) == line_quantities(lines).insert(
            line.product@,
            line.quantity as nat,
        ),
{
    let after = lines.push(line);
    assert(line_products(after) =~= line_products(lines).push(line.product@));
    lemma_line_quantities(lines);
    lemma_line_quantities(after);
    line_products(lines).lemma_push_to_set_commute(line.product@);
    assert forall|other: ProductView| #[trigger]
        line_quantities(lines).contains_key(other) implies line_quantities(after)[other]
        == line_quantities(lines)[other] by {
        let j = line_products(lines).index_of(other);
        assert(after[j].product@ == other);
        assert(lines[j].product@ == other);
    }
    assert(after[lines.len() as int].product@ == line.product@);
    assert(line_quantities(after) =~= line_quantities(lines).insert(
        line.product@,
        line.quantity as nat,
    ));
}

/// A basket of products from one catalog, with the deals that apply to it.
///
/// The deals are borrowed: whoever adds one keeps it, unchanged, for as long
/// as the basket is in use.
pub struct Basket<'a> {
    catalog: &'a Catalog,
    lines: Vec<Line<'a>>,
    deals: Vec<&'a Deal>,
}

impl<'a> View for Basket<'a> {
    type V = BasketView;

    closed spec fn view(&self) -> BasketView {
        BasketView { quantities: line_quantities(self.lines@), deals: deal_views(self.deals@) }
    }
}

impl<'a> Basket<'a> {
    /// No product has two lines, and no line is empty.
    pub closed spec fn lines_wf(&self) -> bool {
        &&& line_products(self.lines@).no_duplicates()
        &&& forall|i: int| 0 <= i < self.lines.len() ==> #[trigger] self.lines[i].quantity >= 1
    }

    /// The basket is valid: what it holds stands for its view, and the view
    /// is valid.
    pub open spec fn wf(&self) -> bool {
        &&& self.lines_wf()
        &&& self@.wf()
    }

    /// The catalog that the basket scans against.
    pub closed spec fn catalog(&self) -> Catalog {
        *self.catalog
    }

    /// Lines that are valid stand for a valid view.
    proof fn lemma_view_wf(&self)
        requires
            self.lines_wf(),
        ensures
            self@.wf(),
    {
        lemma_line_quantities(self.lines@);
        assert forall|product: ProductView| #[trigger]
            self@.quantities.contains_key(product) implies self@.quantities[product] >= 1 by {
            let i = line_products(self.lines@).index_of(product);
            assert(self.lines[i].quantity >= 1);
        }
    }

    /// An empty basket that scans against `catalog`.
    pub fn new(catalog: &'a Catalog) -> (basket: Basket<'a>)
        ensures
            basket.wf(),
            basket@ == BasketView::empty(),
            basket.catalog() == *catalog,
    {
        let basket = Basket { catalog, lines: Vec::new(), deals: Vec::new() };
        proof {
            assert(basket@.quantities =~= Map::empty());
            assert(basket@.deals =~= Seq::empty());
        }
        basket
    }

    /// The position of the line of `product`, if the basket has one.
    fn find_line(&self, product: &Product) -> (found: Option<usize>)
        ensures
            match found {
                Some(i) => i < self.lines.len() && self.lines[i as int].product@ == product@,
                None => !line_products(self.lines@).contains(product@),
            },
    {
        let mut i: usize = 0;
        while i < self.lines.len()
            invariant
                i <= self.lines.len(),
                forall|j: int| 0 <= j < i ==> line_products(self.lines@)[j] != product@,
            decreases self.lines.len() - i,
        {
            if *self.lines[i].product == *product {
                return Some(i);
            }
            i += 1;
        }
        None
    }

    /// How many units of `product` were scanned.
    pub fn quantity(&self, product: &Product) -> (quantity: u32)
        requires
            self.wf(),
        ensures
            quantity == self@.quantity(product@),
    {
        proof {
            lemma_line_quantities(self.lines@);
        }
        match self.find_line(product) {
            Some(i) => self.lines[i].quantity,
            None => 0,
        }
    }

    /// Scans one unit of the product that the catalog has under
    /// `product_name`: the first scan of a product puts it into the basket
    /// with a quantity of one, each further scan adds one to that. Where
    /// the catalog has no such product, the scan fails and the basket stays
    /// as it was.
    ///
    /// The quantity of the product has to be below `u32::MAX`, the most
    /// that the basket can count.
    pub fn scan(&mut self, product_name: &str) -> (outcome: Result<(), ProductNotFound>)
        requires
            old(self).wf(),
            old(self).catalog()@.contains_key(product_name@) ==> old(self)@.quantity(
                old(self).catalog()@[product_name@],
            ) < u32::MAX,
        ensures
            final(self).wf(),
            final(self).catalog() == old(self).catalog(),
            outcome is Ok <==> old(self).catalog()@.contains_key(product_name@),
            outcome is Ok ==> final(self)@ == old(self)@.scanned(
                old(self).catalog()@[product_name@],
            ),
            outcome is Err ==> *final(self) == *old(self),
            outcome is Err ==> final(self)@.total() == old(self)@.total(),
    {
        let catalog: &'a Catalog = self.catalog;
        let product: &'a Product = match catalog.lookup(product_name) {
            Some(product) => product,
            None => {
                return Err(ProductNotFound);
            },
        };
        proof {
            lemma_line_quantities(self.lines@);
        }
        match self.find_line(product) {
            Some(i) => {
                let quantity: u32 = self.lines[i].quantity;
                self.lines[i].quantity = quantity + 1;
                proof {
                    lemma_line_replaced(old(self).lines@, i as int, self.lines[i as int]);
                    assert(self.lines@ =~= old(self).lines@.update(i as int, self.lines[i as int]));
                }
            },
            None => {
                let line = Line { product, quantity: 1 };
                proof {
                    lemma_line_added(self.lines@, line);
                }
                self.lines.push(line);
            },
        }
        proof {
            self.lemma_view_wf();
        }
        Ok(())
    }

    /// Adds `deal` behind the deals that the basket already has. It is in
    /// force for a product only where no earlier deal is bound to the same
    /// name; a deal for a name that no scanned product has does nothing.
    pub fn add_deal(&mut self, deal: &'a Deal)
        requires
            old(self).wf(),
        ensures
            final(self).wf(),
            final(self).catalog() == old(self).catalog(),
            final(self)@ == old(self)@.with_deal(deal@),
    {
        self.deals.push(deal);
        proof {
            assert(deal_views(self.deals@) =~= deal_views(old(self).deals@).push(deal@));
        }
    }

    /// The total is the sum of the amounts of the lines, in whatever order
    /// the lines stand.
    proof fn lemma_total_by_lines(&self)
        requires
            self.wf(),
        ensures
            self@.quantities.dom() == line_products(self.lines@).to_set(),
            self@.total() == seq_sum(line_products(self.lines@), self@.amounts()),
    {
        lemma_line_quantities(self.lines@);
        lemma_seq_sum_is_set_sum(line_products(self.lines@), self@.amounts());
    }

    /// In a basket whose total is an amount of money, the amount of every
    /// line is one.
    proof fn lemma_priceable_lines(&self)
        requires
            self.wf(),
            self@.priceable(),
        ensures
            forall|i: int|
                0 <= i < self.lines.len() ==> {
                    &&& is_billable(self@.deal_for(#[trigger] line_products(self.lines@)[i]))
                    &&& 0 <= self@.amount(line_products(self.lines@)[i]) <= u32::MAX
                },
    {
        lemma_line_quantities(self.lines@);
        assert forall|product: ProductView| #[trigger]
            self@.quantities.contains_key(product) implies 0 <= (self@.amounts())(product) by {
            lemma_line_amount_bounds(
                self@.deal_for(product),
                self@.quantity(product),
                product.price,
            );
        }
        lemma_set_sum_bounds(self@.quantities.dom(), self@.amounts());
        assert forall|i: int| 0 <= i < self.lines.len() implies {
            &&& is_billable(self@.deal_for(#[trigger] line_products(self.lines@)[i]))
            &&& 0 <= self@.amount(line_products(self.lines@)[i]) <= u32::MAX
        } by {
            let product = line_products(self.lines@)[i];
            assert(product == self.lines[i].product@);
            assert(self@.quantities.contains_key(product));
            assert((self@.amounts())(product) <= self@.total());
        }
    }

    /// The amount billed for each line, in the order of the lines: for each
    /// the first deal that is bound to the name of its product is looked
    /// up and applied. There are no amounts where some line has none that
    /// is an amount of money.
    fn line_amounts(&self) -> (amounts: Option<Vec<Currency>>)
        requires
            self.wf(),
        ensures
            match amounts {
                Some(amounts) => {
                    &&& amounts.len() == self.lines.len()
                    &&& forall|i: int|
                        #![trigger line_products(self.lines@)[i]]
                        #![trigger amounts[i]]
                        0 <= i < amounts.len() ==> {
                            &&& is_billable(self@.deal_for(line_products(self.lines@)[i]))
                            &&& amounts[i].0 == self@.amount(line_products(self.lines@)[i])
                        }
                },
                None => exists|i: int|
                    0 <= i < self.lines.len() && {
                        ||| !is_billable(self@.deal_for(#[trigger] line_products(self.lines@)[i]))
                        ||| self@.amount(line_products(self.lines@)[i]) > u32::MAX
                    },
            },
    {
        proof {
            lemma_line_quantities(self.lines@);
        }
        let mut amounts: Vec<Currency> = Vec::new();
        let mut i: usize = 0;
        while i < self.lines.len()
            invariant
                i <= self.lines.len(),
                amounts.len() == i,
                forall|j: int|
                    0 <= j < self.lines.len() ==> {
                        &&& self@.quantities.contains_key(#[trigger] self.lines[j].product@)
                        &&& self@.quantities[self.lines[j].product@] == self.lines[j].quantity
                    },
                forall|j: int|
                    #![trigger line_products(self.lines@)[j]]
                    #![trigger amounts[j]]
                    0 <= j < i ==> {
                        &&& is_billable(self@.deal_for(line_products(self.lines@)[j]))
                        &&& amounts[j].0 == self@.amount(line_products(self.lines@)[j])
                    },
            decreases self.lines.len() - i,
        {
            let line = &self.lines[i];
            let deal = find_deal(&self.deals, &line.product.name);
            proof {
                let product = line_products(self.lines@)[i as int];
                assert(product == self.lines[i as int].product@);
                assert(self@.quantity(product) == line.quantity);
                assert(self@.deal_for(product) == deal);
            }
            match checked_line_amount(deal, line.quantity, line.product.price.0) {
                Some(amount) => {
                    amounts.push(Currency(amount));
                },
                None => {
                    return None;
                },
            }
            i += 1;
        }
        Some(amounts)
    }

    /// The total of the basket, where it is an amount of money: the amounts
    /// billed for the scanned products, added up. Each product is billed
    /// under the first deal that was added for its name, or in full where
    /// there is none.
    pub fn checked_total(&self) -> (total: Option<Currency>)
        requires
            self.wf(),
        ensures
            total is Some <==> self@.priceable(),
            total matches Some(amount) ==> amount.0 == self@.total(),
    {
        proof {
            self.lemma_total_by_lines();
            if self@.priceable() {
                self.lemma_priceable_lines();
            }
        }
        match self.line_amounts() {
            Some(amounts) => {
                proof {
                    lemma_seq_sum_pointwise(
                        amounts@,
                        Currency::units(),
                        line_products(self.lines@),
                        self@.amounts(),
                    );
                }
                Currency::checked_sum(amounts.as_slice())
            },
            None => None,
        }
    }

    /// The total of the basket: the amounts billed for the scanned
    /// products, added up. Each product is billed under the first deal that
    /// was added for its name, or in full where there is none. Taking the
    /// total changes nothing, so that it is the same however often it is
    /// taken.
    ///
    /// The total has to be an amount of money; [`Self::checked_total`]
    /// finds out whether it is.
    pub fn total(&self) -> (total: Currency)
        requires
            self.wf(),
            self@.priceable(),
        ensures
            total.0 == self@.total(),
    {
        proof {
            self.lemma_total_by_lines();
            self.lemma_priceable_lines();
        }
        let amounts = self.line_amounts().unwrap();
        proof {
            lemma_seq_sum_pointwise(
                amounts@,
                Currency::units(),
                line_products(self.lines@),
                self@.amounts(),
            );
        }
        Currency::sum(amounts.as_slice())
    }
}

} // verus!
