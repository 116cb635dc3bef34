//! What holds of every basket, whatever was scanned and whatever deals were
//! added: stated over the views that the contracts of the basket speak of.

use crate::basket::BasketView;
use crate::catalog::ProductView;
use crate::currency::Currency;
use crate::deal::{
    applicable_deal, half_rounded_up, lemma_applicable_deal_push, lemma_first_bound_deal_applies,
    lemma_line_amount_of_none, lemma_no_deal_applies, line_amount, DealKind, DealView,
};
use crate::summation::{
    lemma_set_sum_agree, lemma_set_sum_empty, lemma_set_sum_insert, lemma_set_sum_remove,
};
use vstd::prelude::*;

verus! {

/// A basket in which nothing was scanned totals zero, whatever deals it
/// has, and that total is an amount of money.
pub proof fn lemma_empty_basket_totals_zero(deals: Seq<DealView>)
    ensures
        BasketView::unscanned(deals).total() == 0,
        BasketView::unscanned(deals).priceable(),
{
    let basket = BasketView::unscanned(deals);
    assert(basket.quantities.dom() =~= Set::empty());
    lemma_set_sum_empty(basket.amounts());
}

/// Scanning keeps a basket valid.
pub proof fn lemma_scanned_wf(basket: BasketView, product: ProductView)
    requires
        basket.wf(),
    ensures
        basket.scanned(product).wf(),
        basket.scanned(product).quantity(product) == basket.quantity(product) + 1,
        forall|other: ProductView|
            other != product ==> #[trigger] basket.scanned(product).quantity(other)
                == basket.quantity(other),
{
}

/// A scan changes the amount of the scanned product and of no other: the
/// total moves by the difference between what the product was billed
/// before and what it is billed now.
pub proof fn lemma_scan_moves_one_amount(basket: BasketView, product: ProductView)
    requires
        basket.wf(),
    ensures
        basket.scanned(product).total() == basket.total() - basket.amount(product)
            + basket.scanned(product).amount(product),
        forall|other: ProductView|
            other != product ==> #[trigger] basket.scanned(product).amount(other) == basket.amount(
                other,
            ),
{
    let after = basket.scanned(product);
    let others = basket.quantities.dom().remove(product);
    assert(after.quantities.dom().remove(product) =~= others);
    lemma_set_sum_remove(after.quantities.dom(), after.amounts(), product);
    if basket.quantities.contains_key(product) {
        lemma_set_sum_remove(basket.quantities.dom(), basket.amounts(), product);
    } else {
        assert(others =~= basket.quantities.dom());
        lemma_line_amount_of_none(basket.deal_for(product), product.price);
    }
    lemma_set_sum_agree(others, basket.amounts(), after.amounts());
}

/// Two scans come to the same basket in either order.
pub proof fn lemma_scans_commute(basket: BasketView, first: ProductView, second: ProductView)
    ensures
        basket.scanned(first).scanned(second) == basket.scanned(second).scanned(first),
{
    assert(basket.scanned(first).scanned(second).quantities =~= basket.scanned(second).scanned(
        first,
    ).quantities);
}

/// After `times` scans of one product into a basket in which nothing was
/// scanned, the basket holds that product alone, `times` times, and the
/// deals it had.
pub proof fn lemma_repeated_scan_quantities(
    deals: Seq<DealView>,
    product: ProductView,
    times: nat,
)
    ensures
        BasketView::unscanned(deals).scanned_times(product, times).deals == deals,
        BasketView::unscanned(deals).scanned_times(product, times).quantities == if times == 0 {
            Map::<ProductView, nat>::empty()
        } else {
            Map::<ProductView, nat>::empty().insert(product, times)
        },
    decreases times,
{
    if times > 0 {
        lemma_repeated_scan_quantities(deals, product, (times - 1) as nat);
        let before = BasketView::unscanned(deals).scanned_times(product, (times - 1) as nat);
        assert(before.scanned(product).quantities =~= Map::<ProductView, nat>::empty().insert(
            product,
            times,
        ));
    }
}

/// The total after `times` scans of one product into a basket in which
/// nothing was scanned is the amount that the deal in force for the product
/// bills for `times` units.
pub proof fn lemma_repeated_scan_total(deals: Seq<DealView>, product: ProductView, times: nat)
    ensures
        BasketView::unscanned(deals).scanned_times(product, times).total()
            == line_amount(applicable_deal(deals, product.name), times, product.price),
{
    let start = BasketView::unscanned(deals);
    let after = start.scanned_times(product, times);
    lemma_repeated_scan_quantities(deals, product, times);
    if times == 0 {
        lemma_empty_basket_totals_zero(deals);
        lemma_line_amount_of_none(applicable_deal(deals, product.name), product.price);
    } else {
        assert(after.quantities.dom() =~= Set::empty().insert(product));
        lemma_set_sum_empty(after.amounts());
        lemma_set_sum_insert(Set::empty(), after.amounts(), product);
    }
}

/// Without deals, `times` scans of one product total `times` unit prices
/// exactly.
pub proof fn lemma_total_without_deals(product: ProductView, times: nat)
    ensures
        BasketView::empty().scanned_times(product, times).total() == times * product.price,
{
    lemma_repeated_scan_total(Seq::empty(), product, times);
}

/// Where the deal in force for a product is buy one, get one free, every
/// second unit is free: `times` scans total the unit price times half of
/// `times`, rounded up.
pub proof fn lemma_total_buy_one_get_one_free(
    deals: Seq<DealView>,
    product: ProductView,
    times: nat,
)
    requires
        applicable_deal(deals, product.name) == Some(DealKind::Buy1Get1Free),
    ensures
        BasketView::unscanned(deals).scanned_times(product, times).total()
            == half_rounded_up(times) * product.price,
{
    lemma_repeated_scan_total(deals, product, times);
}

/// Where the deal in force for a product is a discount of `percent`
/// percent, `times` scans total the undiscounted amount less that share,
/// and the fraction of a minor unit that is left is dropped.
pub proof fn lemma_total_percentage_discount(
    deals: Seq<DealView>,
    product: ProductView,
    times: nat,
    percent: u32,
)
    requires
        applicable_deal(deals, product.name) == Some(DealKind::PercentageDiscount(percent)),
    ensures
        BasketView::unscanned(deals).scanned_times(product, times).total()
            == times * product.price * (100 - percent) / 100,
{
    lemma_repeated_scan_total(deals, product, times);
}

/// A deal that is added applies to a product only where it is bound to the
/// product's name and no deal that was added before it is: the amount of
/// every other product stays as it was.
pub proof fn lemma_added_deal_amounts(basket: BasketView, later: DealView, product: ProductView)
    ensures
        basket.with_deal(later).amount(product) == if basket.deal_for(product) is None
            && later.product == product.name {
            line_amount(Some(later.kind), basket.quantity(product), product.price)
        } else {
            basket.amount(product)
        },
{
    lemma_applicable_deal_push(basket.deals, later, product.name);
}

/// Of the deals that are bound to the name of a product, the one that was
/// added first prices it, whatever was added behind it.
pub proof fn lemma_first_added_deal_prices(basket: BasketView, product: ProductView, first: int)
    requires
        0 <= first < basket.deals.len(),
        basket.deals[first].product == product.name,
        forall|earlier: int| 0 <= earlier < first ==> basket.deals[earlier].product != product.name,
    ensures
        basket.deal_for(product) == Some(basket.deals[first].kind),
        basket.amount(product) == line_amount(
            Some(basket.deals[first].kind),
            basket.quantity(product),
            product.price,
        ),
{
    lemma_first_bound_deal_applies(basket.deals, product.name, first);
}

/// Of two deals for one product only the one that was added first is
/// applied: adding a deal for a name that an earlier deal is bound to
/// changes no amount and leaves the total as it was.
pub proof fn lemma_first_deal_wins(basket: BasketView, later: DealView)
    requires
        basket.wf(),
        exists|earlier: int|
            0 <= earlier < basket.deals.len() && (#[trigger] basket.deals[earlier]).product
                == later.product,
    ensures
        forall|product: ProductView| #[trigger]
            basket.with_deal(later).amount(product) == basket.amount(product),
        basket.with_deal(later).total() == basket.total(),
        basket.with_deal(later).priceable() == basket.priceable(),
{
    let after = basket.with_deal(later);
    lemma_no_deal_applies(basket.deals, later.product);
    assert forall|product: ProductView|
        after.deal_for(product) == basket.deal_for(product) by {
        lemma_applicable_deal_push(basket.deals, later, product.name);
    }
    lemma_set_sum_agree(basket.quantities.dom(), basket.amounts(), after.amounts());
}

/// A deal for a name that no scanned product has is inert: it changes the
/// amount of no scanned product and leaves the total as it was.
pub proof fn lemma_unmatched_deal_is_inert(basket: BasketView, later: DealView)
    requires
        basket.wf(),
        forall|product: ProductView| #[trigger]
            basket.quantities.contains_key(product) ==> product.name != later.product,
    ensures
        forall|product: ProductView| #[trigger]
            basket.quantities.contains_key(product) ==> basket.with_deal(later).amount(product)
                == basket.amount(product),
        basket.with_deal(later).total() == basket.total(),
        basket.with_deal(later).priceable() == basket.priceable(),
{
    let after = basket.with_deal(later);
    assert forall|product: ProductView| #[trigger]
        basket.quantities.contains_key(product) implies after.deal_for(product)
        == basket.deal_for(product) by {
        lemma_applicable_deal_push(basket.deals, later, product.name);
    }
    lemma_set_sum_agree(basket.quantities.dom(), basket.amounts(), after.amounts());
}

/// The total is a function of the basket alone: whenever it is taken of
/// the same basket, it is the same amount.
pub proof fn lemma_total_is_repeatable(basket: BasketView, first: Currency, second: Currency)
    requires
        first.0 == basket.total(),
        second.0 == basket.total(),
    ensures
        first == second,
{
}

} // verus!
