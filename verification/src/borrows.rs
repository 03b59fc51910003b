//! Small reference-passing helpers: functions that hand references through,
//! pick one of two, or mutate through a borrow.

use vstd::prelude::*;

verus! {

/// Product of the two referenced values; the caller keeps it in range.
pub fn multiply(first: &i32, second: &i32) -> (r: i32)
    requires
        i32::MIN <= *first * *second <= i32::MAX,
    ensures
        r == *first * *second,
{
    (*first) * (*second)
}

/// Hands back the first of the two references.
pub fn choose_first<'a: 'b, 'b>(first: &'a i32, _second: &'b i32) -> (r: &'b i32)
    ensures
        r == first,
{
    first
}

/// Hands the reference straight through.
pub fn pass_val<'a>(v: &'a i32) -> (r: &'a i32)
    ensures
        r == v,
{
    v
}

/// Picks the first of two references with unrelated lifetimes.
pub fn pass_x<'a, 'b>(x: &'a i32, _y: &'b i32) -> (r: &'a i32)
    ensures
        r == x,
{
    x
}

/// Picks the second of two references sharing one lifetime.
pub fn pass_y<'a>(_x: &'a i32, y: &'a i32) -> (r: &'a i32)
    ensures
        r == y,
{
    y
}

/// A counter owned by value and bumped through a mutable borrow.
pub struct Owner(pub i32);

impl Owner {
    /// Adds one to the owned value.
    pub fn add_one(&mut self)
        requires
            old(self).0 < i32::MAX,
        ensures
            final(self).0 == old(self).0 + 1,
    {
        self.0 = self.0 + 1;
    }

    /// The owned value.
    pub fn value(&self) -> (r: i32)
        ensures
            r == self.0,
    {
        self.0
    }
}

/// A one-field wrapper box.
pub struct MyBox<T>(pub T);

impl<T> MyBox<T> {
    /// Wraps a value.
    pub fn new(x: T) -> (r: MyBox<T>)
        ensures
            r.0 == x,
    {
        MyBox(x)
    }

    /// Borrows the wrapped value.
    pub fn inner(&self) -> (r: &T)
        ensures
            r == self.0,
    {
        &self.0
    }
}

} // verus!
