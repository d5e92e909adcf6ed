//! What the library refuses.

use vstd::prelude::*;

verus! {

/// A fault that the library finds in what it is given.
#[derive(Debug)]
pub enum Error {
    /// The table gives `item` at `location`, which a composite names, a
    /// strategy that a composite cannot be made of.
    InvalidPricingModel { item: String, location: String },
}

/// What an `Error` is.
pub enum ErrorView {
    InvalidPricingModel { item: Seq<char>, location: Seq<char> },
}

impl View for Error {
    type V = ErrorView;

    open spec fn view(&self) -> ErrorView {
        match self {
            Error::InvalidPricingModel { item, location } => ErrorView::InvalidPricingModel {
                item: item@,
                location: location@,
            },
        }
    }
}

impl ErrorView {
    /// The fault in words.
    pub open spec fn message(self) -> Seq<char> {
        match self {
            ErrorView::InvalidPricingModel { item, location } => item + " at location "@ + location
                + " points to invalid PricingModel"@,
        }
    }
}

impl Error {
    /// The fault in words.
    pub fn message(&self) -> (text: String)
        ensures
            text@ == self@.message(),
    {
        match self {
            Error::InvalidPricingModel { item, location } => {
                let mut text: String = item.clone();
                text.append(" at location ");
                text.append(location.as_str());
                text.append(" points to invalid PricingModel");
                proof {
                    assert(text@ =~= self@.message());
                }
                text
            },
        }
    }
}

} // verus!
