//! One line of a quote: an item with the quantity and the discount asked
//! for, and the amounts that follow from them.

use vstd::prelude::*;
use crate::amount::{
    clamped,
    scale_clamped,
    DISCOUNT_PLACES,
    FULL_DISCOUNT,
    MULTIPLIER_SCALE,
};
use crate::catalog::{Item, ItemModel};
use crate::category::Category;
use crate::number::{integer_reading_of, read_decimal, read_integer, reading_of, Reading};
use crate::text::{chars_of, trim, trimmed};

verus! {

/// One line of a quote.
#[derive(Clone, Debug, PartialEq, Eq)]
pub struct RowView {
    pub id: usize,
    pub name: String,
    /// The price of one piece, in millionths of a currency unit.
    pub unit_price: i64,
    pub qty: i64,
    /// The discount, in ten-thousandths of a percent.
    pub discount: u32,
    /// The price of the line after the discount, as an amount.
    pub full_amount: i128,
    /// What is due at once of a one-shot line, as an amount; 0 for a
    /// subscription.
    pub deposit_amount: i128,
    pub is_one_shot: bool,
}

/// A line as contracts see it.
pub struct RowModel {
    pub id: int,
    pub name: Seq<char>,
    pub unit_price: int,
    pub qty: int,
    pub discount: int,
    pub full_amount: int,
    pub deposit_amount: int,
    pub is_one_shot: bool,
}

impl View for RowView {
    type V = RowModel;

    open spec fn view(&self) -> RowModel {
        RowModel {
            id: self.id as int,
            name: self.name@,
            unit_price: self.unit_price as int,
            qty: self.qty as int,
            discount: self.discount as int,
            full_amount: self.full_amount as int,
            deposit_amount: self.deposit_amount as int,
            is_one_shot: self.is_one_shot,
        }
    }
}

impl RowModel {
    /// What holds of every line: its quantity is not negative, its discount
    /// is from 0 to 100 percent, and it has a deposit only if it is a
    /// one-shot line.
    pub open spec fn well_formed(self) -> bool {
        &&& self.qty >= 0
        &&& 0 <= self.discount <= FULL_DISCOUNT
        &&& !self.is_one_shot ==> self.deposit_amount == 0
    }
}

/// The models of a sequence of lines.
pub open spec fn row_models(rows: Seq<RowView>) -> Seq<RowModel> {
    Seq::new(rows.len(), |i: int| rows[i]@)
}

/// The characters of a text that may be absent.
pub open spec fn text_model(raw: Option<&str>) -> Option<Seq<char>> {
    match raw {
        Some(text) => Some(text@),
        None => None,
    }
}

/// The quantity that a text asks for: the integer it writes, white space
/// around it aside, where that is from 0 to `i64::MAX`; 0 where the text is
/// absent, writes no integer, or writes one outside that range.
pub open spec fn quantity_of(raw: Option<Seq<char>>) -> int {
    match raw {
        None => 0,
        Some(text) => match integer_reading_of(trimmed(text), i64::MAX as nat) {
            Reading::Exact { negative: false, magnitude } => magnitude as int,
            _ => 0,
        },
    }
}

/// The discount that a text asks for: the decimal number of percent it
/// writes, white space around it aside, cut off after four decimal places,
/// raised to 0 and lowered to 100 percent; 0 where the text is absent or
/// writes no decimal number.
pub open spec fn discount_of(raw: Option<Seq<char>>) -> int {
    match raw {
        None => 0,
        Some(text) => match reading_of(
            trimmed(text),
            DISCOUNT_PLACES as nat,
            FULL_DISCOUNT as nat,
        ) {
            Reading::Invalid => 0,
            Reading::Exact { negative, magnitude } => if negative {
                0
            } else {
                magnitude as int
            },
            Reading::Beyond { negative } => if negative {
                0
            } else {
                FULL_DISCOUNT as int
            },
        },
    }
}

/// The amount of a line: price times quantity times what the discount
/// leaves of the whole.
pub open spec fn full_amount(price: int, qty: int, discount: int) -> i128 {
    clamped(price * qty * (FULL_DISCOUNT - discount) * MULTIPLIER_SCALE)
}

/// The deposit on a one-shot line: the line's amount times the multiplier.
pub open spec fn deposit_amount(price: int, qty: int, discount: int, multiplier: int) -> i128 {
    clamped(price * qty * (FULL_DISCOUNT - discount) * multiplier)
}

/// The line for `item` at a quantity and a discount.
pub open spec fn row_of(item: ItemModel, qty: int, discount: int, multiplier: int) -> RowModel {
    let is_one_shot = item.category == Category::OneShot;
    RowModel {
        id: item.id,
        name: item.name,
        unit_price: item.price,
        qty,
        discount,
        full_amount: full_amount(item.price, qty, discount) as int,
        deposit_amount: if is_one_shot {
            deposit_amount(item.price, qty, discount, multiplier) as int
        } else {
            0
        },
        is_one_shot,
    }
}

/// The line for `item` at the quantity and the discount that two texts ask
/// for.
pub open spec fn computed_row(
    item: ItemModel,
    raw_qty: Option<Seq<char>>,
    raw_discount: Option<Seq<char>>,
    multiplier: int,
) -> RowModel {
    row_of(item, quantity_of(raw_qty), discount_of(raw_discount), multiplier)
}

/// What two texts ask for is in range, whatever they hold: a quantity from
/// 0 up, a discount from 0 to 100 percent.
pub proof fn law_inputs_stay_in_range(raw_qty: Option<Seq<char>>, raw_discount: Option<Seq<char>>)
    ensures
        0 <= quantity_of(raw_qty) <= i64::MAX,
        0 <= discount_of(raw_discount) <= FULL_DISCOUNT,
{
}

/// The line that two texts ask for is well formed, whatever they hold.
pub proof fn law_computed_rows_are_well_formed(
    item: ItemModel,
    raw_qty: Option<Seq<char>>,
    raw_discount: Option<Seq<char>>,
    multiplier: int,
)
    ensures
        computed_row(item, raw_qty, raw_discount, multiplier).well_formed(),
{
}

/// At a price that is not negative, a larger quantity makes no smaller
/// amount.
pub proof fn law_amount_grows_with_quantity(price: int, qty: int, more: int, discount: int)
    requires
        price >= 0,
        0 <= qty <= more,
        0 <= discount <= FULL_DISCOUNT,
    ensures
        full_amount(price, qty, discount) <= full_amount(price, more, discount),
{
    let left = FULL_DISCOUNT - discount;
    assert(price * qty * left * MULTIPLIER_SCALE <= price * more * left * MULTIPLIER_SCALE)
        by (nonlinear_arith)
        requires
            price >= 0,
            0 <= qty <= more,
            left >= 0,
            MULTIPLIER_SCALE == 10_000,
    ;
}

/// At a price that is not negative, a larger discount makes no larger
/// amount.
pub proof fn law_amount_falls_with_discount(price: int, qty: int, discount: int, more: int)
    requires
        price >= 0,
        qty >= 0,
        0 <= discount <= more <= FULL_DISCOUNT,
    ensures
        full_amount(price, qty, more) <= full_amount(price, qty, discount),
{
    let left = FULL_DISCOUNT - discount;
    let less = FULL_DISCOUNT - more;
    assert(price * qty * less * MULTIPLIER_SCALE <= price * qty * left * MULTIPLIER_SCALE)
        by (nonlinear_arith)
        requires
            price >= 0,
            qty >= 0,
            0 <= less <= left,
            MULTIPLIER_SCALE == 10_000,
    ;
}

/// A subscription line has no deposit. The deposit of a one-shot line is
/// its amount times the multiplier, where neither lies beyond the bounds of
/// an amount.
pub proof fn law_deposit_is_share_of_amount(
    item: ItemModel,
    qty: int,
    discount: int,
    multiplier: int,
)
    ensures
        item.category == Category::Subscription ==> row_of(
            item,
            qty,
            discount,
            multiplier,
        ).deposit_amount == 0,
        ({
            let weight = item.price * qty * (FULL_DISCOUNT - discount);
            &&& item.category == Category::OneShot
            &&& i128::MIN <= weight * MULTIPLIER_SCALE <= i128::MAX
            &&& i128::MIN <= weight * multiplier <= i128::MAX
        }) ==> row_of(item, qty, discount, multiplier).deposit_amount * MULTIPLIER_SCALE == row_of(
            item,
            qty,
            discount,
            multiplier,
        ).full_amount * multiplier,
{
    let weight = item.price * qty * (FULL_DISCOUNT - discount);
    assert((weight * multiplier) * MULTIPLIER_SCALE == (weight * MULTIPLIER_SCALE) * multiplier)
        by (nonlinear_arith);
}

/// At a price that is not negative and a multiplier from 0 to 1, the
/// deposit of a line is from 0 to the line's amount.
pub proof fn law_deposit_within_amount(item: ItemModel, qty: int, discount: int, multiplier: int)
    requires
        item.price >= 0,
        qty >= 0,
        0 <= discount <= FULL_DISCOUNT,
        0 <= multiplier <= MULTIPLIER_SCALE,
    ensures
        0 <= row_of(item, qty, discount, multiplier).deposit_amount <= row_of(
            item,
            qty,
            discount,
            multiplier,
        ).full_amount,
{
    let price = item.price;
    let left = FULL_DISCOUNT - discount;
    assert(0 <= price * qty * left * multiplier <= price * qty * left * MULTIPLIER_SCALE)
        by (nonlinear_arith)
        requires
            price >= 0,
            qty >= 0,
            left >= 0,
            0 <= multiplier <= MULTIPLIER_SCALE,
    ;
}

/// The quantity that the characters `raw` ask for.
pub fn quantity_from(raw: &[char]) -> (qty: i64)
    ensures
        qty == quantity_of(Some(raw@)),
        qty >= 0,
{
    match read_integer(trim(raw), i64::MAX as u64) {
        Reading::Exact { negative: false, magnitude } => magnitude as i64,
        _ => 0,
    }
}

/// The discount that the characters `raw` ask for.
pub fn discount_from(raw: &[char]) -> (discount: u32)
    ensures
        discount == discount_of(Some(raw@)),
        discount <= FULL_DISCOUNT,
{
    match read_decimal(trim(raw), DISCOUNT_PLACES, FULL_DISCOUNT as u64) {
        Reading::Invalid => 0,
        Reading::Exact { negative, magnitude } => if negative {
            0
        } else {
            magnitude as u32
        },
        Reading::Beyond { negative } => if negative {
            0
        } else {
            FULL_DISCOUNT
        },
    }
}

/// The quantity that `raw` asks for; it is never negative.
pub fn parse_quantity(raw: Option<&str>) -> (qty: i64)
    ensures
        qty == quantity_of(text_model(raw)),
        qty >= 0,
{
    match raw {
        None => 0,
        Some(text) => {
            let chars = chars_of(text);
            quantity_from(chars.as_slice())
        },
    }
}

/// The discount that `raw` asks for; it is never above 100 percent.
pub fn parse_discount(raw: Option<&str>) -> (discount: u32)
    ensures
        discount == discount_of(text_model(raw)),
        discount <= FULL_DISCOUNT,
{
    match raw {
        None => 0,
        Some(text) => {
            let chars = chars_of(text);
            discount_from(chars.as_slice())
        },
    }
}

/// The line for `entry` at a quantity and a discount.
pub fn row_at(entry: &Item, qty: i64, discount: u32, multiplier: u32) -> (row: RowView)
    requires
        qty >= 0,
        discount <= FULL_DISCOUNT,
    ensures
        row@ == row_of(entry@, qty as int, discount as int, multiplier as int),
        row@.well_formed(),
{
    proof {
        let p = entry.price as int;
        let q = qty as int;
        assert(-0x4000_0000_0000_0000_0000_0000_0000_0000 <= p * q
            <= 0x4000_0000_0000_0000_0000_0000_0000_0000) by (nonlinear_arith)
            requires
                -0x8000_0000_0000_0000 <= p <= 0x8000_0000_0000_0000,
                0 <= q <= 0x8000_0000_0000_0000,
        ;
    }
    let base: i128 = entry.price as i128 * qty as i128;
    let left: i128 = (FULL_DISCOUNT - discount) as i128;
    assert(left * MULTIPLIER_SCALE <= 10_000_000_000 && left * multiplier >= 0 && left
        * multiplier <= 0x1_0000_0000_0000_0000) by (nonlinear_arith)
        requires
            0 <= left <= 1_000_000,
            MULTIPLIER_SCALE == 10_000,
            0 <= multiplier <= 0xFFFF_FFFF,
    ;
    let full = scale_clamped(base, left * MULTIPLIER_SCALE as i128);
    let is_one_shot = match entry.category {
        Category::OneShot => true,
        Category::Subscription => false,
    };
    let deposit = if is_one_shot {
        scale_clamped(base, left * multiplier as i128)
    } else {
        0
    };
    proof {
        let p = entry.price as int;
        let q = qty as int;
        let l = left as int;
        assert((p * q) * (l * MULTIPLIER_SCALE) == p * q * l * MULTIPLIER_SCALE)
            by (nonlinear_arith);
        assert((p * q) * (l * multiplier) == p * q * l * multiplier) by (nonlinear_arith);
    }
    RowView {
        id: entry.id,
        name: entry.name.clone(),
        unit_price: entry.price,
        qty,
        discount,
        full_amount: full,
        deposit_amount: deposit,
        is_one_shot,
    }
}

/// The line for `entry` at the quantity and the discount that two texts ask
/// for. A text that is absent or cannot be read asks for 0.
pub fn compute_row(
    entry: &Item,
    raw_qty: Option<&str>,
    raw_discount: Option<&str>,
    multiplier: u32,
) -> (row: RowView)
    ensures
        row@ == computed_row(
            entry@,
            text_model(raw_qty),
            text_model(raw_discount),
            multiplier as int,
        ),
        row@.well_formed(),
{
    let qty = parse_quantity(raw_qty);
    let discount = parse_discount(raw_discount);
    row_at(entry, qty, discount, multiplier)
}

} // verus!
