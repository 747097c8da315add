//! Handing a finished token array out as a read-only buffer.
//!
//! A consumer asks for a view with a set of request bits. The view that it
//! gets is always one-dimensional, contiguous and read-only; the bits only
//! decide which of the optional fields are filled in. A request for a
//! writable view is refused.
use vstd::prelude::*;
use crate::Rank;

verus! {

/// Request bit: the consumer wants to write through the view.
pub const BUF_WRITABLE: i32 = 0x0001;

/// Request bit: the consumer wants the element format.
pub const BUF_FORMAT: i32 = 0x0004;

/// Request bit: the consumer wants the shape.
pub const BUF_ND: i32 = 0x0008;

/// Request bits: the consumer wants the strides, and with them the shape.
pub const BUF_STRIDES: i32 = 0x0018;

/// Size of one token in bytes.
pub const ITEM_SIZE: usize = 4;

/// Format code of one token: an unsigned integer of [`ITEM_SIZE`] bytes.
pub const FORMAT_UNSIGNED_INT: char = 'I';

/// Whether `flags` holds every bit of `request`.
pub open spec fn asks_for(flags: i32, request: i32) -> bool {
    flags & request == request
}

/// A request that cannot be granted.
#[derive(Debug, PartialEq, Eq)]
pub enum ExportViolation {
    /// The consumer asked for a writable view.
    NotWritable,
}

/// What a consumer is told about an exported buffer.
#[derive(Debug, PartialEq, Eq)]
pub struct BufferView {
    /// Length of the data in bytes.
    pub len: usize,
    /// Whether the consumer must not write.
    pub readonly: bool,
    /// Size of one item in bytes.
    pub itemsize: usize,
    /// Format code of one item; `None` for a view of raw bytes.
    pub format: Option<char>,
    /// Number of dimensions.
    pub ndim: usize,
    /// Number of items; `None` means one dimension of `len / itemsize` items.
    pub shape: Option<usize>,
    /// Distance in bytes from one item to the next; `None` means `itemsize`.
    pub strides: Option<usize>,
}

impl BufferView {
    /// The number of items that the view describes, with the shape filled in
    /// or not.
    pub open spec fn item_count(&self) -> int {
        match self.shape {
            Some(n) => n as int,
            None => self.len as int / self.itemsize as int,
        }
    }

    /// The distance in bytes from one item to the next, with the strides
    /// filled in or not.
    pub open spec fn item_stride(&self) -> int {
        match self.strides {
            Some(n) => n as int,
            None => self.itemsize as int,
        }
    }

    /// The fields agree with each other: the data is `item_count` items of
    /// `itemsize` bytes, one directly behind the other.
    pub open spec fn is_consistent(&self) -> bool {
        &&& self.itemsize > 0
        &&& self.ndim == 1
        &&& self.len == self.item_count() * self.itemsize
        &&& self.item_stride() == self.itemsize
    }
}

/// The view that a request with `flags` gets of an array of `count` tokens.
pub open spec fn view_for(count: nat, flags: i32) -> BufferView {
    BufferView {
        len: (count * ITEM_SIZE) as usize,
        readonly: true,
        itemsize: ITEM_SIZE,
        format: if asks_for(flags, BUF_FORMAT) {
            Some(FORMAT_UNSIGNED_INT)
        } else {
            None
        },
        ndim: 1,
        shape: if asks_for(flags, BUF_ND) {
            Some(count as usize)
        } else {
            None
        },
        strides: if asks_for(flags, BUF_STRIDES) {
            Some(ITEM_SIZE)
        } else {
            None
        },
    }
}

/// A token array that is handed out: it owns the tokens from then on and
/// offers no way to change them.
pub struct TiktokenBuffer {
    tokens: Vec<Rank>,
}

impl TiktokenBuffer {
    /// The tokens that the buffer owns.
    pub closed spec fn view(&self) -> Seq<Rank> {
        self.tokens@
    }

    /// Takes the tokens over.
    pub fn new(tokens: Vec<Rank>) -> (buffer: Self)
        ensures
            buffer.view() == tokens@,
    {
        TiktokenBuffer { tokens }
    }

    /// The tokens, to read.
    pub fn tokens(&self) -> (tokens: &[Rank])
        ensures
            tokens@ == self.view(),
    {
        self.tokens.as_slice()
    }

    /// Answers a request for a view. A request with [`BUF_WRITABLE`] is
    /// refused; every other request gets the read-only view of
    /// [`view_for`].
    pub fn get_buffer(&self, flags: i32) -> (r: Result<BufferView, ExportViolation>)
        requires
            self.view().len() * ITEM_SIZE <= usize::MAX,
        ensures
            r is Err <==> asks_for(flags, BUF_WRITABLE),
            r matches Ok(view) ==> view == view_for(self.view().len(), flags),
    {
        if flags & BUF_WRITABLE == BUF_WRITABLE {
            return Err(ExportViolation::NotWritable);
        }
        let count = self.tokens.len();
        Ok(
            BufferView {
                len: count * ITEM_SIZE,
                readonly: true,
                itemsize: ITEM_SIZE,
                format: if flags & BUF_FORMAT == BUF_FORMAT {
                    Some(FORMAT_UNSIGNED_INT)
                } else {
                    None
                },
                ndim: 1,
                shape: if flags & BUF_ND == BUF_ND {
                    Some(count)
                } else {
                    None
                },
                strides: if flags & BUF_STRIDES == BUF_STRIDES {
                    Some(ITEM_SIZE)
                } else {
                    None
                },
            },
        )
    }
}

/// Every view that is handed out is read-only and consistent, whichever
/// optional fields the consumer asked for.
pub proof fn lemma_view_is_read_only_and_consistent(count: nat, flags: i32)
    requires
        count * ITEM_SIZE <= usize::MAX,
    ensures
        view_for(count, flags).readonly,
        view_for(count, flags).is_consistent(),
        view_for(count, flags).item_count() == count,
{
    assert((count * 4) / 4 == count) by (nonlinear_arith);
}

} // verus!
