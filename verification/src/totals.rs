//! The totals of a quote.

use vstd::prelude::*;
use crate::amount::{add_clamped, clamped, lemma_clamped_keeps_order};
use crate::row::{row_models, RowModel, RowView};

verus! {

/// The totals over the subscription lines and the one-shot lines of a quote,
/// as amounts.
#[derive(Clone, Copy, Debug, PartialEq, Eq, Structural)]
pub struct Totals {
    /// The amounts of the subscription lines.
    pub subs_total: i128,
    /// The deposits of the one-shot lines.
    pub ones_deposit_total: i128,
    /// The amounts of the one-shot lines.
    pub ones_full_total: i128,
    /// What is due at once: the subscriptions and the deposits.
    pub grand_pay_now: i128,
    /// The value of the whole quote: the subscriptions and the one-shot
    /// amounts.
    pub grand_full_value: i128,
}

impl Default for Totals {
    fn default() -> (out: Totals)
        ensures
            out == nothing(),
    {
        Totals {
            subs_total: 0,
            ones_deposit_total: 0,
            ones_full_total: 0,
            grand_pay_now: 0,
            grand_full_value: 0,
        }
    }
}

/// The totals that are all 0.
pub open spec fn nothing() -> Totals {
    Totals {
        subs_total: 0,
        ones_deposit_total: 0,
        ones_full_total: 0,
        grand_pay_now: 0,
        grand_full_value: 0,
    }
}

/// The sum of `amounts`.
pub open spec fn exact_total(amounts: Seq<int>) -> int
    decreases amounts.len(),
{
    if amounts.len() == 0 {
        0
    } else {
        exact_total(amounts.drop_last()) + amounts.last()
    }
}

/// The sum of `amounts`, taken from the first to the last and clamped after
/// each.
pub open spec fn running_total(amounts: Seq<int>) -> i128
    decreases amounts.len(),
{
    if amounts.len() == 0 {
        0
    } else {
        clamped(running_total(amounts.drop_last()) + amounts.last())
    }
}

/// The amounts of `rows`, in their order.
pub open spec fn full_amounts(rows: Seq<RowModel>) -> Seq<int> {
    Seq::new(rows.len(), |i: int| rows[i].full_amount)
}

/// The deposits of `rows`, in their order.
pub open spec fn deposit_amounts(rows: Seq<RowModel>) -> Seq<int> {
    Seq::new(rows.len(), |i: int| rows[i].deposit_amount)
}

/// The totals of the subscription lines `subs` and the one-shot lines
/// `ones`.
pub open spec fn totals_of(subs: Seq<RowModel>, ones: Seq<RowModel>) -> Totals {
    let subs_total = running_total(full_amounts(subs));
    let ones_deposit_total = running_total(deposit_amounts(ones));
    let ones_full_total = running_total(full_amounts(ones));
    Totals {
        subs_total,
        ones_deposit_total,
        ones_full_total,
        grand_pay_now: clamped(subs_total + ones_deposit_total),
        grand_full_value: clamped(subs_total + ones_full_total),
    }
}

/// Amounts of which none is negative add up to their sum, clamped.
pub proof fn law_running_total_is_sum(amounts: Seq<int>)
    requires
        forall|i: int| 0 <= i < amounts.len() ==> amounts[i] >= 0,
    ensures
        exact_total(amounts) >= 0,
        running_total(amounts) == clamped(exact_total(amounts)),
    decreases amounts.len(),
{
    if amounts.len() > 0 {
        law_running_total_is_sum(amounts.drop_last());
    }
}

/// A running total is no larger than that of amounts which are, each in its
/// place, no smaller.
pub proof fn lemma_running_total_keeps_order(a: Seq<int>, b: Seq<int>)
    requires
        a.len() == b.len(),
        forall|i: int| 0 <= i < a.len() ==> a[i] <= b[i],
    ensures
        running_total(a) <= running_total(b),
    decreases a.len(),
{
    if a.len() > 0 {
        lemma_running_total_keeps_order(a.drop_last(), b.drop_last());
        lemma_clamped_keeps_order(
            running_total(a.drop_last()) + a.last(),
            running_total(b.drop_last()) + b.last(),
        );
    }
}

/// The totals of no lines are all 0.
pub proof fn law_totals_of_nothing()
    ensures
        totals_of(Seq::<RowModel>::empty(), Seq::<RowModel>::empty()) == nothing(),
{
    assert(full_amounts(Seq::<RowModel>::empty()).len() == 0);
    assert(deposit_amounts(Seq::<RowModel>::empty()).len() == 0);
}

/// Where no one-shot line has a deposit above its amount, what is due at
/// once is no more than the value of the whole quote.
pub proof fn law_pay_now_within_full_value(subs: Seq<RowModel>, ones: Seq<RowModel>)
    requires
        forall|i: int| 0 <= i < ones.len() ==> ones[i].deposit_amount <= ones[i].full_amount,
    ensures
        totals_of(subs, ones).grand_pay_now <= totals_of(subs, ones).grand_full_value,
{
    lemma_running_total_keeps_order(deposit_amounts(ones), full_amounts(ones));
}

/// The running total of the deposits of `rows`, or of their amounts.
fn total_by(rows: &[RowView], deposits: bool) -> (out: i128)
    ensures
        out == running_total(
            if deposits {
                deposit_amounts(row_models(rows@))
            } else {
                full_amounts(row_models(rows@))
            },
        ),
{
    let ghost amounts = if deposits {
        deposit_amounts(row_models(rows@))
    } else {
        full_amounts(row_models(rows@))
    };
    let mut total: i128 = 0;
    let mut i: usize = 0;
    while i < rows.len()
        invariant
            i <= rows.len(),
            amounts.len() == rows.len(),
            forall|k: int|
                0 <= k < rows.len() ==> #[trigger] amounts[k] == if deposits {
                    rows@[k].deposit_amount as int
                } else {
                    rows@[k].full_amount as int
                },
            total == running_total(amounts.take(i as int)),
        decreases rows.len() - i,
    {
        let amount = if deposits {
            rows[i].deposit_amount
        } else {
            rows[i].full_amount
        };
        assert(amounts.take(i + 1).drop_last() =~= amounts.take(i as int));
        assert(amounts.take(i + 1).last() == amounts[i as int]);
        total = add_clamped(total, amount);
        i += 1;
    }
    assert(amounts.take(rows.len() as int) =~= amounts);
    total
}

/// The totals of the subscription lines `subs` and the one-shot lines
/// `ones`. Without lines they are all 0.
pub fn compute_totals(subs: &[RowView], ones: &[RowView]) -> (out: Totals)
    ensures
        out == totals_of(row_models(subs@), row_models(ones@)),
{
    let subs_total = total_by(subs, false);
    let ones_full_total = total_by(ones, false);
    let ones_deposit_total = total_by(ones, true);
    Totals {
        subs_total,
        ones_deposit_total,
        ones_full_total,
        grand_pay_now: add_clamped(subs_total, ones_deposit_total),
        grand_full_value: add_clamped(subs_total, ones_full_total),
    }
}

} // verus!
