//! A small menu: a breakfast with a seasonal fruit chosen by the house,
//! and the appetizers on offer.

use vstd::prelude::*;

verus! {

/// A breakfast: the guest picks the toast, the house picks the fruit.
#[derive(Debug)]
pub struct Breakfast {
    pub toast: String,
    seasonal_fruit: String,
}

/// A point whose second coordinate only this module can read.
pub struct Point(pub i32, i32);

#[derive(Debug, Clone, Copy, PartialEq, Eq, Structural)]
pub enum Appetizer {
    Soup,
    Salad,
}

impl Breakfast {
    /// The toast the guest asked for.
    pub closed spec fn toast_of(&self) -> Seq<char> {
        self.toast@
    }

    /// The fruit the house serves with it.
    pub closed spec fn fruit(&self) -> Seq<char> {
        self.seasonal_fruit@
    }

    /// The summer breakfast: the given toast, served with apples.
    pub fn summer(toast_name: &str) -> (r: Breakfast)
        ensures
            r.toast_of() == toast_name@,
            r.fruit() == "Apple"@,
    {
        Breakfast { toast: toast_name.to_owned(), seasonal_fruit: "Apple".to_owned() }
    }
}

} // verus!
