//! Typed buffers: the flat backing store of a tensor, and the slices cut from
//! it.
//!
//! A floating-point number is held as its bit pattern: a single as 32 bits, a
//! double as 64, so that a slice holds exactly the bits that the buffer held.

use vstd::prelude::*;

verus! {

/// The kinds of number that a slice can hold.
#[derive(Clone, Copy, Debug, PartialEq, Eq, Structural)]
pub enum ElementKind {
    U8,
    U16,
    U32,
    U64,
    I8,
    I16,
    I32,
    I64,
    F32,
    F64,
}

/// What a slice is, as mathematics: the kind of its numbers and, for each, the
/// integer that it is (for a floating-point number, its bit pattern).
pub struct NumericSeq {
    pub kind: ElementKind,
    pub items: Seq<int>,
}

/// The flat buffer of a tensor.
///
/// `F16` holds half-precision samples, each already widened to the single of
/// the same value and held as that single's bits. `Jpeg`, `Nv12` and `Yuy2`
/// hold encoded media, which is not a sequence of numbers.
#[derive(Clone, Debug, PartialEq, Eq)]
pub enum TypedBuffer {
    U8(Vec<u8>),
    U16(Vec<u16>),
    U32(Vec<u32>),
    U64(Vec<u64>),
    I8(Vec<i8>),
    I16(Vec<i16>),
    I32(Vec<i32>),
    I64(Vec<i64>),
    F16(Vec<u32>),
    F32(Vec<u32>),
    F64(Vec<u64>),
    Jpeg(Vec<u8>),
    Nv12(Vec<u8>),
    Yuy2(Vec<u8>),
}

/// A run of numbers cut from a buffer, owned.
#[derive(Clone, Debug, PartialEq, Eq)]
pub enum Values {
    U8(Vec<u8>),
    U16(Vec<u16>),
    U32(Vec<u32>),
    U64(Vec<u64>),
    I8(Vec<i8>),
    I16(Vec<i16>),
    I32(Vec<i32>),
    I64(Vec<i64>),
    F32(Vec<u32>),
    F64(Vec<u64>),
}

/// The integers that a run of `u8` holds.
pub open spec fn ints_of_u8(run: Seq<u8>) -> Seq<int> {
    Seq::new(run.len(), |i: int| run[i] as int)
}

/// The integers that a run of `u16` holds.
pub open spec fn ints_of_u16(run: Seq<u16>) -> Seq<int> {
    Seq::new(run.len(), |i: int| run[i] as int)
}

/// The integers that a run of `u32` holds.
pub open spec fn ints_of_u32(run: Seq<u32>) -> Seq<int> {
    Seq::new(run.len(), |i: int| run[i] as int)
}

/// The integers that a run of `u64` holds.
pub open spec fn ints_of_u64(run: Seq<u64>) -> Seq<int> {
    Seq::new(run.len(), |i: int| run[i] as int)
}

/// The integers that a run of `i8` holds.
pub open spec fn ints_of_i8(run: Seq<i8>) -> Seq<int> {
    Seq::new(run.len(), |i: int| run[i] as int)
}

/// The integers that a run of `i16` holds.
pub open spec fn ints_of_i16(run: Seq<i16>) -> Seq<int> {
    Seq::new(run.len(), |i: int| run[i] as int)
}

/// The integers that a run of `i32` holds.
pub open spec fn ints_of_i32(run: Seq<i32>) -> Seq<int> {
    Seq::new(run.len(), |i: int| run[i] as int)
}

/// The integers that a run of `i64` holds.
pub open spec fn ints_of_i64(run: Seq<i64>) -> Seq<int> {
    Seq::new(run.len(), |i: int| run[i] as int)
}

impl View for Values {
    type V = NumericSeq;

    open spec fn view(&self) -> NumericSeq {
        match self {
            Values::U8(run) => NumericSeq { kind: ElementKind::U8, items: ints_of_u8(run@) },
            Values::U16(run) => NumericSeq { kind: ElementKind::U16, items: ints_of_u16(run@) },
            Values::U32(run) => NumericSeq { kind: ElementKind::U32, items: ints_of_u32(run@) },
            Values::U64(run) => NumericSeq { kind: ElementKind::U64, items: ints_of_u64(run@) },
            Values::I8(run) => NumericSeq { kind: ElementKind::I8, items: ints_of_i8(run@) },
            Values::I16(run) => NumericSeq { kind: ElementKind::I16, items: ints_of_i16(run@) },
            Values::I32(run) => NumericSeq { kind: ElementKind::I32, items: ints_of_i32(run@) },
            Values::I64(run) => NumericSeq { kind: ElementKind::I64, items: ints_of_i64(run@) },
            Values::F32(run) => NumericSeq { kind: ElementKind::F32, items: ints_of_u32(run@) },
            Values::F64(run) => NumericSeq { kind: ElementKind::F64, items: ints_of_u64(run@) },
        }
    }
}

impl Values {
    /// How many numbers the run holds.
    pub fn len(&self) -> (n: usize)
        ensures
            n == self@.items.len(),
    {
        match self {
            Values::U8(run) => run.len(),
            Values::U16(run) => run.len(),
            Values::U32(run) => run.len(),
            Values::U64(run) => run.len(),
            Values::I8(run) => run.len(),
            Values::I16(run) => run.len(),
            Values::I32(run) => run.len(),
            Values::I64(run) => run.len(),
            Values::F32(run) => run.len(),
            Values::F64(run) => run.len(),
        }
    }

    /// The kind of the numbers.
    pub fn kind(&self) -> (kind: ElementKind)
        ensures
            kind == self@.kind,
    {
        match self {
            Values::U8(_) => ElementKind::U8,
            Values::U16(_) => ElementKind::U16,
            Values::U32(_) => ElementKind::U32,
            Values::U64(_) => ElementKind::U64,
            Values::I8(_) => ElementKind::I8,
            Values::I16(_) => ElementKind::I16,
            Values::I32(_) => ElementKind::I32,
            Values::I64(_) => ElementKind::I64,
            Values::F32(_) => ElementKind::F32,
            Values::F64(_) => ElementKind::F64,
        }
    }
}

impl TypedBuffer {
    /// Whether the buffer holds encoded media rather than numbers.
    pub open spec fn is_encoded(&self) -> bool {
        self is Jpeg || self is Nv12 || self is Yuy2
    }

    /// The kind of the numbers in a slice of this buffer. Half-precision
    /// samples come out as singles, encoded media as its bytes.
    pub open spec fn value_kind(&self) -> ElementKind {
        match self {
            TypedBuffer::U8(_) => ElementKind::U8,
            TypedBuffer::U16(_) => ElementKind::U16,
            TypedBuffer::U32(_) => ElementKind::U32,
            TypedBuffer::U64(_) => ElementKind::U64,
            TypedBuffer::I8(_) => ElementKind::I8,
            TypedBuffer::I16(_) => ElementKind::I16,
            TypedBuffer::I32(_) => ElementKind::I32,
            TypedBuffer::I64(_) => ElementKind::I64,
            TypedBuffer::F16(_) => ElementKind::F32,
            TypedBuffer::F32(_) => ElementKind::F32,
            TypedBuffer::F64(_) => ElementKind::F64,
            _ => ElementKind::U8,
        }
    }

    /// The elements of the buffer, each as the integer that it is.
    pub open spec fn items(&self) -> Seq<int> {
        match self {
            TypedBuffer::U8(run) => ints_of_u8(run@),
            TypedBuffer::U16(run) => ints_of_u16(run@),
            TypedBuffer::U32(run) => ints_of_u32(run@),
            TypedBuffer::U64(run) => ints_of_u64(run@),
            TypedBuffer::I8(run) => ints_of_i8(run@),
            TypedBuffer::I16(run) => ints_of_i16(run@),
            TypedBuffer::I32(run) => ints_of_i32(run@),
            TypedBuffer::I64(run) => ints_of_i64(run@),
            TypedBuffer::F16(run) => ints_of_u32(run@),
            TypedBuffer::F32(run) => ints_of_u32(run@),
            TypedBuffer::F64(run) => ints_of_u64(run@),
            TypedBuffer::Jpeg(run) => ints_of_u8(run@),
            TypedBuffer::Nv12(run) => ints_of_u8(run@),
            TypedBuffer::Yuy2(run) => ints_of_u8(run@),
        }
    }

    /// The slice `[start, end)` of the buffer, as mathematics.
    pub open spec fn slice_view(&self, start: int, end: int) -> NumericSeq
        recommends
            0 <= start <= end <= self.items().len(),
    {
        NumericSeq { kind: self.value_kind(), items: self.items().subrange(start, end) }
    }

    /// Whether the buffer holds encoded media rather than numbers.
    pub fn encoded(&self) -> (yes: bool)
        ensures
            yes == self.is_encoded(),
    {
        match self {
            TypedBuffer::Jpeg(_) => true,
            TypedBuffer::Nv12(_) => true,
            TypedBuffer::Yuy2(_) => true,
            _ => false,
        }
    }

    /// How many elements the buffer holds.
    pub fn len(&self) -> (n: usize)
        ensures
            n == self.items().len(),
    {
        match self {
            TypedBuffer::U8(run) => run.len(),
            TypedBuffer::U16(run) => run.len(),
            TypedBuffer::U32(run) => run.len(),
            TypedBuffer::U64(run) => run.len(),
            TypedBuffer::I8(run) => run.len(),
            TypedBuffer::I16(run) => run.len(),
            TypedBuffer::I32(run) => run.len(),
            TypedBuffer::I64(run) => run.len(),
            TypedBuffer::F16(run) => run.len(),
            TypedBuffer::F32(run) => run.len(),
            TypedBuffer::F64(run) => run.len(),
            TypedBuffer::Jpeg(run) => run.len(),
            TypedBuffer::Nv12(run) => run.len(),
            TypedBuffer::Yuy2(run) => run.len(),
        }
    }

    /// Copies the slice `[start, end)` out of the buffer.
    pub fn slice(&self, start: usize, end: usize) -> (values: Values)
        requires
            start <= end <= self.items().len(),
        ensures
            values@ == self.slice_view(start as int, end as int),
    {
        match self {
            TypedBuffer::U8(run) => {
                let cut = copy_range(run, start, end);
                assert(ints_of_u8(cut@) =~= ints_of_u8(run@).subrange(start as int, end as int));
                Values::U8(cut)
            },
            TypedBuffer::U16(run) => {
                let cut = copy_range(run, start, end);
                assert(ints_of_u16(cut@) =~= ints_of_u16(run@).subrange(start as int, end as int));
                Values::U16(cut)
            },
            TypedBuffer::U32(run) => {
                let cut = copy_range(run, start, end);
                assert(ints_of_u32(cut@) =~= ints_of_u32(run@).subrange(start as int, end as int));
                Values::U32(cut)
            },
            TypedBuffer::U64(run) => {
                let cut = copy_range(run, start, end);
                assert(ints_of_u64(cut@) =~= ints_of_u64(run@).subrange(start as int, end as int));
                Values::U64(cut)
            },
            TypedBuffer::I8(run) => {
                let cut = copy_range(run, start, end);
                assert(ints_of_i8(cut@) =~= ints_of_i8(run@).subrange(start as int, end as int));
                Values::I8(cut)
            },
            TypedBuffer::I16(run) => {
                let cut = copy_range(run, start, end);
                assert(ints_of_i16(cut@) =~= ints_of_i16(run@).subrange(start as int, end as int));
                Values::I16(cut)
            },
            TypedBuffer::I32(run) => {
                let cut = copy_range(run, start, end);
                assert(ints_of_i32(cut@) =~= ints_of_i32(run@).subrange(start as int, end as int));
                Values::I32(cut)
            },
            TypedBuffer::I64(run) => {
                let cut = copy_range(run, start, end);
                assert(ints_of_i64(cut@) =~= ints_of_i64(run@).subrange(start as int, end as int));
                Values::I64(cut)
            },
            TypedBuffer::F16(run) => {
                let cut = copy_range(run, start, end);
                assert(ints_of_u32(cut@) =~= ints_of_u32(run@).subrange(start as int, end as int));
                Values::F32(cut)
            },
            TypedBuffer::F32(run) => {
                let cut = copy_range(run, start, end);
                assert(ints_of_u32(cut@) =~= ints_of_u32(run@).subrange(start as int, end as int));
                Values::F32(cut)
            },
            TypedBuffer::F64(run) => {
                let cut = copy_range(run, start, end);
                assert(ints_of_u64(cut@) =~= ints_of_u64(run@).subrange(start as int, end as int));
                Values::F64(cut)
            },
            TypedBuffer::Jpeg(run) => {
                let cut = copy_range(run, start, end);
                assert(ints_of_u8(cut@) =~= ints_of_u8(run@).subrange(start as int, end as int));
                Values::U8(cut)
            },
            TypedBuffer::Nv12(run) => {
                let cut = copy_range(run, start, end);
                assert(ints_of_u8(cut@) =~= ints_of_u8(run@).subrange(start as int, end as int));
                Values::U8(cut)
            },
            TypedBuffer::Yuy2(run) => {
                let cut = copy_range(run, start, end);
                assert(ints_of_u8(cut@) =~= ints_of_u8(run@).subrange(start as int, end as int));
                Values::U8(cut)
            },
        }
    }
}

/// Copies the elements `[start, end)` of a vector.
pub fn copy_range<T: Copy>(run: &Vec<T>, start: usize, end: usize) -> (cut: Vec<T>)
    requires
        start <= end <= run@.len(),
    ensures
        cut@ == run@.subrange(start as int, end as int),
{
    let mut cut: Vec<T> = Vec::new();
    let mut at: usize = start;
    while at < end
        invariant
            start <= at <= end <= run@.len(),
            cut@ == run@.subrange(start as int, at as int),
        decreases end - at,
    {
        cut.push(run[at]);
        at = at + 1;
        assert(cut@ =~= run@.subrange(start as int, at as int));
    }
    cut
}

} // verus!
