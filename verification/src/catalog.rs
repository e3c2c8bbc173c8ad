//! The catalog: priced items, each of one billing class.

use vstd::prelude::*;
use crate::category::Category;

verus! {

/// An item of the catalog.
#[derive(Clone, Debug, PartialEq, Eq)]
pub struct Item {
    /// The item's position in the catalog, counted from 0.
    pub id: usize,
    pub category: Category,
    pub name: String,
    /// The price of one piece, in millionths of a currency unit.
    pub price: i64,
}

/// An item as contracts see it.
pub struct ItemModel {
    pub id: int,
    pub category: Category,
    pub name: Seq<char>,
    pub price: int,
}

impl View for Item {
    type V = ItemModel;

    open spec fn view(&self) -> ItemModel {
        ItemModel {
            id: self.id as int,
            category: self.category,
            name: self.name@,
            price: self.price as int,
        }
    }
}

/// The models of a sequence of items.
pub open spec fn item_models(items: Seq<Item>) -> Seq<ItemModel> {
    Seq::new(items.len(), |i: int| items[i]@)
}

} // verus!
