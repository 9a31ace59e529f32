//! Layouts of the game's own data that the loader reads.

use vstd::prelude::*;
use std::marker::PhantomData;

verus! {

/// The game's `std::vector<T>` (LLVM libc++): the addresses of its first
/// element, one past its last element, and the end of its storage.
pub struct Vector<T> {
    pub start: usize,
    pub end: usize,
    pub capacity_end: usize,
    pub phantom: PhantomData<T>,
}

impl<T> Vector<T> {
    /// A vector with the given bounds.
    pub fn new(start: usize, end: usize, capacity_end: usize) -> (v: Vector<T>)
        ensures
            v.start == start && v.end == end && v.capacity_end == capacity_end,
    {
        Vector { start, end, capacity_end, phantom: PhantomData }
    }

    /// The number of elements: 0 for a null vector, otherwise the span from
    /// `start` to `end` in elements.
    pub fn len(&self) -> (n: usize)
        requires
            self.start != 0 ==> self.start <= self.end && vstd::layout::size_of::<T>() > 0,
        ensures
            self.start == 0 ==> n == 0,
            self.start != 0 ==> n == (self.end - self.start) / (vstd::layout::size_of::<T>() as int),
    {
        if self.start == 0 {
            0
        } else {
            let span = self.end - self.start;
            span / core::mem::size_of::<T>()
        }
    }
}

/// Common attributes of an image.
pub struct ImageAttributes {
    pub width: i32,
    pub height: i32,
    pub size: u32,
    bytes_per_row: u32,
    calculated_width: u32,
    ignore: u32,
    bits_per_pixel: u32,
    rgb_bits: [u32; 3],
    rgb_shift: [u32; 3],
    rgb_loss: [u32; 3],
    ignore_post: [u32; 3],
}

} // verus!
