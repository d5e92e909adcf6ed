//! How amounts become text.
//!
//! The library writes amounts into labels and into the input of the content
//! key, and leaves the choice of their text to its caller: a function from an
//! amount to its text. What the library states of a text it has written is
//! that the caller's function gave it for the amount in question.

use vstd::prelude::*;
use crate::amount::Amount;

verus! {

/// `render` can be called on every amount.
pub open spec fn can_render<F: Fn(&Amount) -> String>(render: &F) -> bool {
    forall|amount: &Amount| call_requires(render, (amount,))
}

/// `text` is a text that `render` may give for `amount`.
pub open spec fn shows<F: Fn(&Amount) -> String>(render: &F, amount: Amount, text: Seq<char>) -> bool {
    exists|s: String| #[trigger] call_ensures(render, (&amount,), s) && s@ == text
}

/// `texts` holds, for each of `amounts` in turn, a text that `render` may
/// give for it.
pub open spec fn shows_all<F: Fn(&Amount) -> String>(
    render: &F,
    amounts: Seq<Amount>,
    texts: Seq<Seq<char>>,
) -> bool {
    &&& texts.len() == amounts.len()
    &&& forall|k: int| 0 <= k < amounts.len() ==> shows(render, amounts[k], #[trigger] texts[k])
}

/// `render` gives every amount one text only.
pub open spec fn renders_one_text<F: Fn(&Amount) -> String>(render: &F) -> bool {
    forall|amount: Amount, s: Seq<char>, t: Seq<char>|
        #[trigger] shows(render, amount, s) && #[trigger] shows(render, amount, t) ==> s == t
}

/// The text of `amount`.
pub fn show<F: Fn(&Amount) -> String>(render: &F, amount: &Amount) -> (text: String)
    requires
        can_render(render),
    ensures
        shows(render, *amount, text@),
{
    render(amount)
}

} // verus!
