//! Generic points and functions that find the largest element of a list.

use vstd::prelude::*;
use vstd::laws_cmp::obeys_partial_cmp_spec_properties;
use vstd::std_specs::cmp::PartialOrdSpec;
use core::cmp::Ordering;

verus! {

/// A point whose two coordinates share one type.
pub struct Point<T> {
    pub x: T,
    pub y: T,
}

impl<T> Point<T> {
    /// A borrow of the first coordinate.
    pub fn x(&self) -> (r: &T)
        ensures
            *r == self.x,
    {
        &self.x
    }
}

/// A point whose two coordinates may have different types.
#[allow(non_camel_case_types)]
pub struct Different_Point<T, U> {
    pub x: T,
    pub y: U,
}

impl<T, U> Different_Point<T, U> {
    /// A point made of this point's first coordinate and the other point's
    /// second coordinate.
    pub fn mixup<V, W>(self, other: Different_Point<V, W>) -> (r: Different_Point<T, W>)
        ensures
            r.x == self.x,
            r.y == other.y,
    {
        Different_Point { x: self.x, y: other.y }
    }
}

/// An element of the non-empty list that no element exceeds.
pub fn largest<T: PartialOrd + Copy>(list: &Vec<T>) -> (r: T)
    requires
        list@.len() > 0,
        T::obeys_partial_cmp_spec(),
        obeys_partial_cmp_spec_properties::<T>(),
    ensures
        list@.contains(r),
        forall|k: int|
            0 <= k < list@.len() ==> (#[trigger] list@[k]).partial_cmp_spec(&r) != Some(
                Ordering::Greater,
            ),
{
    proof {
        reveal(obeys_partial_cmp_spec_properties);
    }
    let mut largest: T = list[0];
    let mut i: usize = 1;
    while i < list.len()
        invariant
            1 <= i <= list@.len(),
            list@.contains(largest),
            T::obeys_partial_cmp_spec(),
            obeys_partial_cmp_spec_properties::<T>(),
            forall|k: int|
                0 <= k < i ==> (#[trigger] list@[k]).partial_cmp_spec(&largest) != Some(
                    Ordering::Greater,
                ),
        decreases list@.len() - i,
    {
        let item = list[i];
        if item > largest {
            proof {
                reveal(obeys_partial_cmp_spec_properties);
            }
            largest = item;
        }
        i = i + 1;
    }
    largest
}

/// An element of the non-empty list that no element exceeds.
pub fn largest_i32(list: &Vec<i32>) -> (r: i32)
    requires
        list@.len() > 0,
    ensures
        list@.contains(r),
        forall|k: int| 0 <= k < list@.len() ==> list@[k] <= r,
{
    let mut largest: i32 = list[0];
    let mut i: usize = 1;
    while i < list.len()
        invariant
            1 <= i <= list@.len(),
            list@.contains(largest),
            forall|k: int| 0 <= k < i ==> list@[k] <= largest,
        decreases list@.len() - i,
    {
        if list[i] > largest {
            largest = list[i];
        }
        i = i + 1;
    }
    largest
}

/// A character of the non-empty list that no character exceeds.
pub fn largest_char(list: &Vec<char>) -> (r: char)
    requires
        list@.len() > 0,
    ensures
        list@.contains(r),
        forall|k: int| 0 <= k < list@.len() ==> list@[k] <= r,
{
    let mut largest: char = list[0];
    let mut i: usize = 1;
    while i < list.len()
        invariant
            1 <= i <= list@.len(),
            list@.contains(largest),
            forall|k: int| 0 <= k < i ==> list@[k] <= largest,
        decreases list@.len() - i,
    {
        if list[i] > largest {
            largest = list[i];
        }
        i = i + 1;
    }
    largest
}

/// An element of the non-empty list that no element exceeds.
pub fn largest_func(list: &Vec<i32>) -> (r: i32)
    requires
        list@.len() > 0,
    ensures
        list@.contains(r),
        forall|k: int| 0 <= k < list@.len() ==> list@[k] <= r,
{
    largest_i32(list)
}

} // verus!
