//! Promotional deals and what they make of a line of the basket.

use vstd::prelude::*;

verus! {

/// How a deal prices the units of the product it is bound to.
#[derive(Debug, Clone, Copy, PartialEq, Eq, Structural)]
pub enum DealKind {
    /// Every second unit is free.
    Buy1Get1Free,
    /// The line is reduced by this many percent.
    PercentageDiscount(u32),
}

/// A promotional rule, bound to the product that carries this name.
#[derive(Debug)]
pub struct Deal {
    pub product: String,
    pub kind: DealKind,
}

/// A deal as the pricing rules see it.
pub struct DealView {
    pub product: Seq<char>,
    pub kind: DealKind,
}

impl View for Deal {
    type V = DealView;

    open spec fn view(&self) -> DealView {
        DealView { product: self.product@, kind: self.kind }
    }
}

/// The deal that applies to the product called `name`: the first one in
/// `deals` that is bound to that name, whatever follows it.
pub open spec fn applicable_deal(deals: Seq<DealView>, name: Seq<char>) -> Option<DealKind>
    decreases deals.len(),
{
    if deals.len() == 0 {
        None
    } else if deals.first().product == name {
        Some(deals.first().kind)
    } else {
        applicable_deal(deals.drop_first(), name)
    }
}

/// The deal that applies is the first that is bound to the name: the deal at
/// position `first` applies where no deal before it is bound to `name`.
pub proof fn lemma_first_bound_deal_applies(deals: Seq<DealView>, name: Seq<char>, first: int)
    requires
        0 <= first < deals.len(),
        deals[first].product == name,
        forall|earlier: int| 0 <= earlier < first ==> deals[earlier].product != name,
    ensures
        applicable_deal(deals, name) == Some(deals[first].kind),
    decreases deals.len(),
{
    if first > 0 {
        assert(deals[0].product != name);
        let rest = deals.drop_first();
        assert forall|earlier: int| 0 <= earlier < first - 1 implies rest[earlier].product
            != name by {
            assert(rest[earlier] == deals[earlier + 1]);
        }
        lemma_first_bound_deal_applies(rest, name, first - 1);
    }
}

/// No deal applies exactly where none is bound to the name.
pub proof fn lemma_no_deal_applies(deals: Seq<DealView>, name: Seq<char>)
    ensures
        applicable_deal(deals, name) is None <==> forall|i: int|
            0 <= i < deals.len() ==> (#[trigger] deals[i]).product != name,
    decreases deals.len(),
{
    if deals.len() > 0 {
        lemma_no_deal_applies(deals.drop_first(), name);
        if deals.first().product != name {
            if applicable_deal(deals, name) is None {
                assert forall|i: int| 0 <= i < deals.len() implies (#[trigger] deals[i]).product
                    != name by {
                    if i > 0 {
                        assert(deals.drop_first()[i - 1] == deals[i]);
                    }
                }
            } else {
                let i = choose|i: int|
                    0 <= i < deals.drop_first().len() && (#[trigger] deals.drop_first()[i]).product
                        == name;
                assert(deals[i + 1] == deals.drop_first()[i]);
            }
        }
    }
}

/// A deal that is added behind others applies only to the names that none of
/// them is bound to: for every other name the earlier deal stays in force.
pub proof fn lemma_applicable_deal_push(deals: Seq<DealView>, later: DealView, name: Seq<char>)
    ensures
        applicable_deal(deals.push(later), name) == match applicable_deal(deals, name) {
            Some(kind) => Some(kind),
            None => if later.product == name {
                Some(later.kind)
            } else {
                None
            },
        },
    decreases deals.len(),
{
    if deals.len() == 0 {
        assert(deals.push(later).drop_first() =~= deals);
    } else {
        assert(deals.push(later).drop_first() =~= deals.drop_first().push(later));
        lemma_applicable_deal_push(deals.drop_first(), later, name);
    }
}

/// Half of `n`, rounded up.
pub open spec fn half_rounded_up(n: nat) -> nat {
    (n + 1) / 2
}

/// The amount billed for `quantity` units at `price` apiece under the deal
/// `deal`, in minor units. Without a deal every unit is billed in full.
/// A fraction of a minor unit that a percentage leaves is dropped.
pub open spec fn line_amount(deal: Option<DealKind>, quantity: nat, price: nat) -> int {
    match deal {
        None => (quantity * price) as int,
        Some(DealKind::Buy1Get1Free) => (half_rounded_up(quantity) * price) as int,
        Some(DealKind::PercentageDiscount(percent)) => quantity * price * (100 - percent) / 100,
    }
}

/// Whether `deal` can price a line at all: a discount of more than a
/// hundred percent would bill less than nothing.
pub open spec fn is_billable(deal: Option<DealKind>) -> bool {
    deal matches Some(DealKind::PercentageDiscount(percent)) ==> percent <= 100
}

/// No units cost nothing, whatever the deal.
pub proof fn lemma_line_amount_of_none(deal: Option<DealKind>, price: nat)
    ensures
        line_amount(deal, 0, price) == 0,
{
    assert(0 * price == 0) by (nonlinear_arith);
    if let Some(DealKind::PercentageDiscount(percent)) = deal {
        assert(0 * price * (100 - percent) == 0) by (nonlinear_arith);
    }
}

/// Under a deal that can price it, a line is billed at least nothing and
/// at most its undiscounted amount.
pub proof fn lemma_line_amount_bounds(deal: Option<DealKind>, quantity: nat, price: nat)
    requires
        is_billable(deal),
    ensures
        0 <= line_amount(deal, quantity, price) <= quantity * price,
{
    assert(0 <= quantity * price) by (nonlinear_arith);
    match deal {
        None => {},
        Some(DealKind::Buy1Get1Free) => {
            assert(0 <= half_rounded_up(quantity) * price <= quantity * price)
                by (nonlinear_arith)
                requires
                    half_rounded_up(quantity) <= quantity,
            ;
        },
        Some(DealKind::PercentageDiscount(percent)) => {
            let full = quantity * price;
            assert(0 <= full * (100 - percent) <= full * 100) by (nonlinear_arith)
                requires
                    0 <= full,
                    0 <= percent <= 100,
            ;
        },
    }
}

impl Deal {
    /// Whether this deal is bound to the product called `name`.
    pub fn binds(&self, name: &String) -> (bound: bool)
        ensures
            bound == (self@.product == name@),
    {
        self.product == *name
    }
}

/// The views of `deals`, in order.
pub open spec fn deal_views(deals: Seq<&Deal>) -> Seq<DealView> {
    deals.map_values(|deal: &Deal| deal@)
}

/// Finds the deal that applies to the product called `name`.
pub fn find_deal(deals: &Vec<&Deal>, name: &String) -> (found: Option<DealKind>)
    ensures
        found == applicable_deal(deal_views(deals@), name@),
{
    let mut i: usize = 0;
    assert(deal_views(deals@).skip(0) =~= deal_views(deals@));
    while i < deals.len()
        invariant
            i <= deals.len(),
            applicable_deal(deal_views(deals@), name@) == applicable_deal(
                deal_views(deals@).skip(i as int),
                name@,
            ),
        decreases deals.len() - i,
    {
        let deal = deals[i];
        proof {
            let rest = deal_views(deals@).skip(i as int);
            assert(rest.first() == deal@);
            assert(rest.drop_first() =~= deal_views(deals@).skip(i + 1));
        }
        if deal.binds(name) {
            return Some(deal.kind);
        }
        i += 1;
    }
    None
}

/// The product of two numbers that fit 32 bits fits 64 bits.
proof fn lemma_product_fits(a: u32, b: u32)
    ensures
        0 <= a * b <= 0xffff_ffff * 0xffff_ffff,
{
    assert(0 <= a * b <= 0xffff_ffff * 0xffff_ffff) by (nonlinear_arith)
        requires
            0 <= a <= 0xffff_ffff,
            0 <= b <= 0xffff_ffff,
    ;
}

/// Prices a line of `quantity` units at `price` apiece under `deal`: in
/// full without a deal, every second unit free under buy one, get one free,
/// and less the percentage under a discount, whatever is left of a minor
/// unit dropped. There is no amount where the deal cannot price the line or
/// where the amount does not fit the currency; what is computed on the way
/// may be larger.
pub fn checked_line_amount(
    deal: Option<DealKind>,
    quantity: u32,
    price: u32,
) -> (amount: Option<u32>)
    ensures
        amount is Some <==> is_billable(deal) && line_amount(deal, quantity as nat, price as nat)
            <= u32::MAX,
        amount matches Some(a) ==> a == line_amount(deal, quantity as nat, price as nat),
{
    let wide: u128 = match deal {
        None => {
            proof {
                lemma_product_fits(quantity, price);
            }
            (quantity as u128) * (price as u128)
        },
        Some(DealKind::Buy1Get1Free) => {
            let billable: u32 = quantity / 2 + quantity % 2;
            proof {
                lemma_product_fits(billable, price);
            }
            (billable as u128) * (price as u128)
        },
        Some(DealKind::PercentageDiscount(percent)) => {
            if percent > 100 {
                return None;
            }
            proof {
                lemma_product_fits(quantity, price);
            }
            let full: u128 = (quantity as u128) * (price as u128);
            let share: u128 = (100 - percent) as u128;
            assert(full * share <= 0xffff_ffff * 0xffff_ffff * 100) by (nonlinear_arith)
                requires
                    full <= 0xffff_ffff * 0xffff_ffff,
                    share <= 100,
            ;
            full * share / 100
        },
    };
    if wide > u32::MAX as u128 {
        None
    } else {
        Some(wide as u32)
    }
}

} // verus!
