//! A quote: the lines for every item of a catalog at the quantities and
//! discounts that a form asks for, in two lists, and their totals.

use vstd::prelude::*;
use crate::amount::{FULL_DISCOUNT, MULTIPLIER_SCALE};
use crate::catalog::{item_models, Item, ItemModel};
use crate::number::{digit_value, digits_value};
use crate::row::{
    computed_row,
    discount_from,
    discount_of,
    law_deposit_within_amount,
    law_inputs_stay_in_range,
    quantity_from,
    quantity_of,
    row_at,
    row_models,
    row_of,
    RowModel,
    RowView,
};
use crate::text::{chars_of, same_chars};
use crate::totals::{compute_totals, law_pay_now_within_full_value, totals_of, Totals};

verus! {

/// The digit that writes `d`.
pub open spec fn digit_char(d: nat) -> char {
    (0x30 + d) as char
}

/// `n` written in base ten, without leading zeros.
pub open spec fn decimal_text(n: nat) -> Seq<char>
    decreases n,
{
    if n < 10 {
        seq![digit_char(n)]
    } else {
        decimal_text(n / 10).push(digit_char(n % 10))
    }
}

/// The key under which a form holds the quantity for the item `id`.
pub open spec fn quantity_key(id: int) -> Seq<char> {
    "qty_"@ + decimal_text(id as nat)
}

/// The key under which a form holds the discount for the item `id`.
pub open spec fn discount_key(id: int) -> Seq<char> {
    "disc_"@ + decimal_text(id as nat)
}

/// What `form` holds under `key`.
pub open spec fn lookup(form: Map<Seq<char>, Seq<char>>, key: Seq<char>) -> Option<Seq<char>> {
    if form.contains_key(key) {
        Some(form[key])
    } else {
        None
    }
}

/// The line for `item` at what `form` asks for under the item's two keys.
pub open spec fn requested_row(
    item: ItemModel,
    form: Map<Seq<char>, Seq<char>>,
    multiplier: int,
) -> RowModel {
    computed_row(
        item,
        lookup(form, quantity_key(item.id)),
        lookup(form, discount_key(item.id)),
        multiplier,
    )
}

/// The lines for `items`, in their order, at what `form` asks for.
pub open spec fn requested_rows(
    items: Seq<ItemModel>,
    form: Map<Seq<char>, Seq<char>>,
    multiplier: int,
) -> Seq<RowModel> {
    Seq::new(items.len(), |i: int| requested_row(items[i], form, multiplier))
}

/// The lines for `items`, in their order, at quantity 0 and discount 0.
pub open spec fn idle_rows(items: Seq<ItemModel>) -> Seq<RowModel> {
    Seq::new(items.len(), |i: int| row_of(items[i], 0, 0, 0))
}

/// The subscription lines among `rows`, in their order.
pub open spec fn subscriptions(rows: Seq<RowModel>) -> Seq<RowModel> {
    rows.filter(|row: RowModel| !row.is_one_shot)
}

/// The one-shot lines among `rows`, in their order.
pub open spec fn one_shots(rows: Seq<RowModel>) -> Seq<RowModel> {
    rows.filter(|row: RowModel| row.is_one_shot)
}

/// The map that a list of keys with their values stands for: where a key
/// stands more than once, its last value counts.
spec fn entries_map(entries: Seq<(Vec<char>, Vec<char>)>) -> Map<Seq<char>, Seq<char>>
    decreases entries.len(),
{
    if entries.len() == 0 {
        Map::empty()
    } else {
        entries_map(entries.drop_last()).insert(entries.last().0@, entries.last().1@)
    }
}

/// A number written in base ten writes that number.
pub proof fn lemma_decimal_text_value(n: nat)
    ensures
        digits_value(decimal_text(n)) == n,
    decreases n,
{
    let last = digit_char(n % 10);
    assert(last as u32 == 0x30 + n % 10);
    assert(digit_value(last) == n % 10);
    assert(decimal_text(n).last() == last);
    if n < 10 {
        assert(decimal_text(n).drop_last() =~= Seq::<char>::empty());
        assert(digits_value(decimal_text(n).drop_last()) == 0);
    } else {
        lemma_decimal_text_value(n / 10);
        assert(decimal_text(n).drop_last() =~= decimal_text(n / 10));
    }
}

/// No two items share a key, and no key for a quantity is a key for a
/// discount.
pub proof fn law_keys_tell_items_apart(a: int, b: int)
    requires
        0 <= a,
        0 <= b,
    ensures
        a != b ==> quantity_key(a) != quantity_key(b),
        a != b ==> discount_key(a) != discount_key(b),
        quantity_key(a) != discount_key(b),
{
    reveal_strlit("qty_");
    reveal_strlit("disc_");
    lemma_decimal_text_value(a as nat);
    lemma_decimal_text_value(b as nat);
    assert(quantity_key(a).skip(4) =~= decimal_text(a as nat));
    assert(quantity_key(b).skip(4) =~= decimal_text(b as nat));
    assert(discount_key(a).skip(5) =~= decimal_text(a as nat));
    assert(discount_key(b).skip(5) =~= decimal_text(b as nat));
    assert(quantity_key(a)[0] == 'q');
    assert(discount_key(b)[0] == 'd');
}

/// A form that holds nothing asks for quantity 0 and discount 0 of every
/// item.
pub proof fn law_empty_form_asks_for_nothing(items: Seq<ItemModel>, multiplier: int)
    ensures
        requested_rows(items, Map::empty(), multiplier) == idle_rows(items),
{
    assert forall|i: int| 0 <= i < items.len() implies requested_row(
        items[i],
        Map::empty(),
        multiplier,
    ) == row_of(items[i], 0, 0, 0) by {
        let price = items[i].price;
        assert(price * 0 * (FULL_DISCOUNT - 0) * multiplier == 0) by (nonlinear_arith);
        assert(price * 0 * (FULL_DISCOUNT - 0) * 0 == 0) by (nonlinear_arith);
    }
    assert(requested_rows(items, Map::empty(), multiplier) =~= idle_rows(items));
}

/// Where no price is negative and the multiplier is from 0 to 1, what is
/// due at once on a quote is no more than the quote's full value, whatever
/// the form holds.
pub proof fn law_quoted_pay_now_within_full_value(
    items: Seq<ItemModel>,
    form: Map<Seq<char>, Seq<char>>,
    multiplier: int,
)
    requires
        0 <= multiplier <= MULTIPLIER_SCALE,
        forall|i: int| 0 <= i < items.len() ==> (#[trigger] items[i]).price >= 0,
    ensures
        ({
            let rows = requested_rows(items, form, multiplier);
            let totals = totals_of(subscriptions(rows), one_shots(rows));
            totals.grand_pay_now <= totals.grand_full_value
        }),
{
    let rows = requested_rows(items, form, multiplier);
    let ones = one_shots(rows);
    assert forall|k: int| 0 <= k < ones.len() implies ones[k].deposit_amount
        <= ones[k].full_amount by {
        assert(ones.contains(ones[k]));
        rows.lemma_filter_contains_rev(|row: RowModel| row.is_one_shot, ones[k]);
        let i = choose|i: int| 0 <= i < rows.len() && rows[i] == ones[k];
        let item = items[i];
        let raw_qty = lookup(form, quantity_key(item.id));
        let raw_discount = lookup(form, discount_key(item.id));
        law_inputs_stay_in_range(raw_qty, raw_discount);
        law_deposit_within_amount(
            item,
            quantity_of(raw_qty),
            discount_of(raw_discount),
            multiplier,
        );
    }
    law_pay_now_within_full_value(subscriptions(rows), ones);
}

/// What a request holds: values of text under keys of text.
#[derive(Clone, Debug)]
pub struct Form {
    entries: Vec<(Vec<char>, Vec<char>)>,
}

impl View for Form {
    type V = Map<Seq<char>, Seq<char>>;

    closed spec fn view(&self) -> Map<Seq<char>, Seq<char>> {
        entries_map(self.entries@)
    }
}

impl Form {
    /// A form that holds nothing.
    pub fn new() -> (form: Form)
        ensures
            form@ == Map::<Seq<char>, Seq<char>>::empty(),
    {
        Form { entries: Vec::new() }
    }

    /// Puts `value` under `key`, in place of what was there.
    pub fn insert(&mut self, key: &str, value: &str)
        ensures
            final(self)@ == old(self)@.insert(key@, value@),
    {
        let entry = (chars_of(key), chars_of(value));
        self.entries.push(entry);
        assert(self.entries@.drop_last() =~= old(self).entries@);
    }

    /// The value under `key`, if there is one.
    pub fn get(&self, key: &[char]) -> (out: Option<&[char]>)
        ensures
            match out {
                Some(value) => lookup(self@, key@) == Some(value@),
                None => lookup(self@, key@) is None,
            },
    {
        let mut i: usize = self.entries.len();
        assert(self.entries@.take(i as int) =~= self.entries@);
        while i > 0
            invariant
                i <= self.entries.len(),
                lookup(entries_map(self.entries@), key@) == lookup(
                    entries_map(self.entries@.take(i as int)),
                    key@,
                ),
            decreases i,
        {
            let ghost upto = self.entries@.take(i as int);
            assert(upto.drop_last() =~= self.entries@.take(i - 1));
            assert(upto.last() == self.entries@[i - 1]);
            if same_chars(self.entries[i - 1].0.as_slice(), key) {
                return Some(self.entries[i - 1].1.as_slice());
            }
            i -= 1;
        }
        None
    }
}

/// Writes `n` in base ten behind what `out` holds.
fn push_decimal(out: &mut Vec<char>, n: usize)
    ensures
        final(out)@ == old(out)@ + decimal_text(n as nat),
    decreases n,
{
    if n >= 10 {
        push_decimal(out, n / 10);
    }
    let digit: u8 = (n % 10) as u8;
    out.push((48u8 + digit) as char);
    proof {
        if n >= 10 {
            assert(final(out)@ =~= old(out)@ + decimal_text((n / 10) as nat).push(
                digit_char((n % 10) as nat),
            ));
        } else {
            assert(final(out)@ =~= old(out)@ + seq![digit_char(n as nat)]);
        }
    }
}

/// The key that `prefix` and the item `id` make.
fn field_key(prefix: &str, id: usize) -> (key: Vec<char>)
    ensures
        key@ == prefix@ + decimal_text(id as nat),
{
    let mut key = chars_of(prefix);
    push_decimal(&mut key, id);
    key
}

/// The line for `entry` at what `form` asks for under the entry's two keys.
pub fn requested(entry: &Item, form: &Form, multiplier: u32) -> (row: RowView)
    ensures
        row@ == requested_row(entry@, form@, multiplier as int),
        row@.well_formed(),
{
    let qty_key = field_key("qty_", entry.id);
    let disc_key = field_key("disc_", entry.id);
    let qty = match form.get(qty_key.as_slice()) {
        Some(raw) => quantity_from(raw),
        None => 0,
    };
    let discount = match form.get(disc_key.as_slice()) {
        Some(raw) => discount_from(raw),
        None => 0,
    };
    row_at(entry, qty, discount, multiplier)
}

/// The lines of a quote in two lists, and their totals.
#[derive(Clone, Debug, PartialEq, Eq)]
pub struct Quote {
    /// The subscription lines, in the order of the catalog.
    pub subs: Vec<RowView>,
    /// The one-shot lines, in the order of the catalog.
    pub ones: Vec<RowView>,
    pub totals: Totals,
}

/// The quote for `items` at what `form` asks for: a line for every item, at
/// the quantity under `qty_` and the item's id and the discount under
/// `disc_` and the item's id; a key that is absent asks for 0, and the form's
/// other keys count for nothing.
pub fn calculate(items: &[Item], form: &Form, multiplier: u32) -> (quote: Quote)
    ensures
        row_models(quote.subs@) == subscriptions(
            requested_rows(item_models(items@), form@, multiplier as int),
        ),
        row_models(quote.ones@) == one_shots(
            requested_rows(item_models(items@), form@, multiplier as int),
        ),
        quote.totals == totals_of(row_models(quote.subs@), row_models(quote.ones@)),
{
    let mut subs: Vec<RowView> = Vec::new();
    let mut ones: Vec<RowView> = Vec::new();
    let ghost rows = requested_rows(item_models(items@), form@, multiplier as int);
    let mut i: usize = 0;
    proof {
        reveal(Seq::filter);
        assert(row_models(subs@) =~= subscriptions(rows.take(0)));
        assert(row_models(ones@) =~= one_shots(rows.take(0)));
    }
    while i < items.len()
        invariant
            i <= items.len(),
            rows == requested_rows(item_models(items@), form@, multiplier as int),
            row_models(subs@) == subscriptions(rows.take(i as int)),
            row_models(ones@) == one_shots(rows.take(i as int)),
        decreases items.len() - i,
    {
        let row = requested(&items[i], form, multiplier);
        proof {
            reveal(Seq::filter);
            assert(rows.take(i + 1).drop_last() =~= rows.take(i as int));
            assert(rows.take(i + 1).last() == row@);
        }
        let ghost before_subs = subs@;
        let ghost before_ones = ones@;
        if row.is_one_shot {
            ones.push(row);
            assert(row_models(ones@) =~= row_models(before_ones).push(row@));
        } else {
            subs.push(row);
            assert(row_models(subs@) =~= row_models(before_subs).push(row@));
        }
        i += 1;
    }
    assert(rows.take(items.len() as int) =~= rows);
    let totals = compute_totals(subs.as_slice(), ones.as_slice());
    Quote { subs, ones, totals }
}

/// The lines for `items` before anything is asked for: every line at
/// quantity 0 and discount 0, the subscription lines first.
pub fn default_rows(items: &[Item]) -> (out: (Vec<RowView>, Vec<RowView>))
    ensures
        row_models(out.0@) == subscriptions(idle_rows(item_models(items@))),
        row_models(out.1@) == one_shots(idle_rows(item_models(items@))),
{
    let mut subs: Vec<RowView> = Vec::new();
    let mut ones: Vec<RowView> = Vec::new();
    let ghost rows = idle_rows(item_models(items@));
    let mut i: usize = 0;
    proof {
        reveal(Seq::filter);
        assert(row_models(subs@) =~= subscriptions(rows.take(0)));
        assert(row_models(ones@) =~= one_shots(rows.take(0)));
    }
    while i < items.len()
        invariant
            i <= items.len(),
            rows == idle_rows(item_models(items@)),
            row_models(subs@) == subscriptions(rows.take(i as int)),
            row_models(ones@) == one_shots(rows.take(i as int)),
        decreases items.len() - i,
    {
        let row = row_at(&items[i], 0, 0, 0);
        proof {
            reveal(Seq::filter);
            assert(rows.take(i + 1).drop_last() =~= rows.take(i as int));
            assert(rows.take(i + 1).last() == row@);
        }
        let ghost before_subs = subs@;
        let ghost before_ones = ones@;
        if row.is_one_shot {
            ones.push(row);
            assert(row_models(ones@) =~= row_models(before_ones).push(row@));
        } else {
            subs.push(row);
            assert(row_models(subs@) =~= row_models(before_subs).push(row@));
        }
        i += 1;
    }
    assert(rows.take(items.len() as int) =~= rows);
    (subs, ones)
}

} // verus!
