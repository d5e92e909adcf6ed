//! The unit of a basket: a name and how many of it.

use vstd::prelude::*;

verus! {

/// An item of a basket. `quantity` is a binary64 bit pattern and may encode
/// a fraction.
#[derive(Debug)]
pub struct Item {
    pub name: String,
    pub quantity: u64,
}

/// What an `Item` is: the characters of its name and its quantity.
pub struct ItemView {
    pub name: Seq<char>,
    pub quantity: u64,
}

impl View for Item {
    type V = ItemView;

    open spec fn view(&self) -> ItemView {
        ItemView { name: self.name@, quantity: self.quantity }
    }
}

impl DeepView for Item {
    type V = ItemView;

    open spec fn deep_view(&self) -> ItemView {
        self@
    }
}

impl Clone for Item {
    fn clone(&self) -> (item: Item)
        ensures
            item == *self,
    {
        Item { name: self.name.clone(), quantity: self.quantity }
    }
}

} // verus!
