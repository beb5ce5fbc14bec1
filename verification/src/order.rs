//! The outcome of comparing two values.

use std::cmp::Ordering;

use vstd::prelude::*;

verus! {

/// How the first of two compared values stands to the second.
#[derive(Clone, Copy, Debug, PartialEq, Eq, Structural)]
pub enum Order {
    Before,
    Same,
    After,
}

impl Order {
    /// The order of two values from that of their numbers.
    pub open spec fn of(a: int, b: int) -> Order {
        if a < b {
            Order::Before
        } else if a > b {
            Order::After
        } else {
            Order::Same
        }
    }

    /// The order with the two values exchanged.
    pub open spec fn exchanged(self) -> Order {
        match self {
            Order::Before => Order::After,
            Order::Same => Order::Same,
            Order::After => Order::Before,
        }
    }
}

/// The standard library's name for an order.
pub open spec fn ordering(o: Order) -> Ordering {
    match o {
        Order::Before => Ordering::Less,
        Order::Same => Ordering::Equal,
        Order::After => Ordering::Greater,
    }
}

/// The standard library's name for an order.
pub fn to_ordering(o: Order) -> (r: Ordering)
    ensures
        r == ordering(o),
{
    match o {
        Order::Before => Ordering::Less,
        Order::Same => Ordering::Equal,
        Order::After => Ordering::Greater,
    }
}

} // verus!
