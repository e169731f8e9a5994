//! A restaurant's front and back of house: seating, orders, and breakfast.

use vstd::prelude::*;
use vstd::string::StringExecFns;

verus! {

/// Put the party on the waitlist.
pub fn add_to_waitlist() {
}

fn seat_at_table() {
}

fn take_order() {
}

fn serve_order() {
}

fn take_payment() {
}

fn cook_order() {
}

/// A wrong order is cooked again and served.
fn fix_incorrect_order() {
    cook_order();
    serve_order();
}

/// A breakfast: the customer picks the toast; the seasonal fruit is the
/// kitchen's choice.
pub struct Breakfast {
    pub toast: String,
    seasonal_fruit: String,
}

impl Breakfast {
    /// The toast that was picked.
    pub closed spec fn spec_toast(&self) -> Seq<char> {
        self.toast@
    }

    /// The fruit that comes with the meal.
    pub closed spec fn spec_seasonal_fruit(&self) -> Seq<char> {
        self.seasonal_fruit@
    }

    /// A summer breakfast with the given toast; the season's fruit is
    /// peaches.
    pub fn summer(toast: &str) -> (b: Breakfast)
        ensures
            b.spec_toast() == toast@,
            b.spec_seasonal_fruit() == "peaches"@,
    {
        Breakfast { toast: String::from_str(toast), seasonal_fruit: String::from_str("peaches") }
    }
}

/// An appetizer on the menu.
pub enum Appetizer {
    Soup,
    Salad,
}

/// Order a summer breakfast with rye toast, then change the choice to wheat;
/// the toast the kitchen hears of last wins.
pub fn eat_at_restaurant() -> (toast: String)
    ensures
        toast@ == "Wheat"@,
{
    add_to_waitlist();
    let mut meal = Breakfast::summer("Rye");
    meal.toast = String::from_str("Wheat");
    let order1 = Appetizer::Soup;
    let order2 = Appetizer::Salad;
    meal.toast
}

} // verus!
