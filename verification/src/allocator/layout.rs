//! The shape of an allocation request: a size and an alignment.

use crate::allocator::align::{
    align_up, align_up_spec, checked_align_up, is_power_of_two, lemma_align_up_bounds,
    lemma_pow2_positive,
};
use vstd::arithmetic::power2::is_pow2;
use vstd::prelude::*;

verus! {

/// A size and an alignment that do not make a valid layout.
#[derive(Clone, Copy, Debug, PartialEq, Eq)]
pub struct LayoutError;

/// Size and alignment of a block of memory, both in bytes.
#[derive(Clone, Copy, Debug)]
pub struct Layout {
    pub size: usize,
    pub align: usize,
}

/// A size and an alignment make a layout when the alignment is a power of
/// two and the size, rounded up to the alignment, fits a signed offset.
pub open spec fn valid_size_align(size: int, align: int) -> bool {
    is_pow2(align) && align_up_spec(size, align) <= isize::MAX
}

impl Layout {
    /// The validity every layout handed to an allocator has.
    pub open spec fn wf(self) -> bool {
        valid_size_align(self.size as int, self.align as int)
    }

    /// The layout of `size` bytes at alignment `align`, if the two make one.
    pub fn from_size_align(size: usize, align: usize) -> (made: Result<Layout, LayoutError>)
        ensures
            made == if valid_size_align(size as int, align as int) {
                Ok::<Layout, LayoutError>(Layout { size, align })
            } else {
                Err::<Layout, LayoutError>(LayoutError)
            },
    {
        if !is_power_of_two(align) {
            return Err(LayoutError);
        }
        proof {
            lemma_pow2_positive(align as int);
        }
        match checked_align_up(size, align) {
            Some(padded) => {
                if padded <= isize::MAX as usize {
                    Ok(Layout { size, align })
                } else {
                    Err(LayoutError)
                }
            },
            None => Err(LayoutError),
        }
    }

    /// The size in bytes.
    pub fn size(&self) -> (size: usize)
        ensures
            size == self.size,
    {
        self.size
    }

    /// The alignment in bytes.
    pub fn align(&self) -> (align: usize)
        ensures
            align == self.align,
    {
        self.align
    }

    /// The same size at an alignment of at least `align`: the larger of the
    /// two alignments, if the size makes a layout with `align`.
    pub fn align_to(&self, align: usize) -> (made: Result<Layout, LayoutError>)
        requires
            self.wf(),
        ensures
            made == if valid_size_align(self.size as int, align as int) {
                Ok::<Layout, LayoutError>(
                    Layout {
                        size: self.size,
                        align: if self.align >= align {
                            self.align
                        } else {
                            align
                        },
                    },
                )
            } else {
                Err::<Layout, LayoutError>(LayoutError)
            },
            made.is_ok() ==> made.unwrap().wf(),
    {
        match Layout::from_size_align(self.size, align) {
            Ok(other) => Ok(
                Layout {
                    size: self.size,
                    align: if self.align >= align {
                        self.align
                    } else {
                        align
                    },
                },
            ),
            Err(error) => Err(error),
        }
    }

    /// The size rounded up to a multiple of the alignment, at the same
    /// alignment.
    pub fn pad_to_align(&self) -> (padded: Layout)
        requires
            self.wf(),
        ensures
            padded.wf(),
            padded.align == self.align,
            padded.size == align_up_spec(self.size as int, self.align as int),
    {
        proof {
            lemma_pow2_positive(self.align as int);
            lemma_align_up_bounds(self.size as int, self.align as int);
        }
        Layout { size: align_up(self.size, self.align), align: self.align }
    }
}

} // verus!
