//! Utilities related to memory management: the layout of a Qt object followed by the Rust
//! data that belongs to it, and the bookkeeping of memory allocated by `malloc`.
use core::marker::PhantomData;
use vstd::prelude::*;

verus! {

/// True when `n` is a power of two.
pub open spec fn is_power_of_two(n: int) -> bool
    decreases n,
{
    if n <= 0 {
        false
    } else if n == 1 {
        true
    } else {
        n % 2 == 0 && is_power_of_two(n / 2)
    }
}

/// Whether `n` is a power of two.
pub fn power_of_two(n: usize) -> (r: bool)
    ensures
        r == is_power_of_two(n as int),
{
    if n == 0 {
        return false;
    }
    let mut m = n;
    while m > 1
        invariant
            m >= 1,
            is_power_of_two(n as int) == is_power_of_two(m as int),
        decreases m,
    {
        if m % 2 != 0 {
            return false;
        }
        m = m / 2;
    }
    true
}

/// True when a block of `size` bytes aligned to `align` is a layout Rust accepts: `align` is
/// a power of two and `size`, rounded up to a multiple of `align`, does not exceed
/// `isize::MAX`.
pub open spec fn fits_layout(size: int, align: int) -> bool {
    is_power_of_two(align) && size <= isize::MAX - (align - 1)
}

/// `n` rounded up to a multiple of `a`.
pub open spec fn round_up(n: int, a: int) -> int {
    if n % a == 0 {
        n
    } else {
        n + (a - n % a)
    }
}

/// A Qt object of `size` bytes aligned to `align`, followed by Rust data of `data_size`
/// bytes aligned to `data_align`: the size of the whole block (padded to its alignment), its
/// alignment, and the offset of the Rust data; `None` when either part or the whole is not a
/// layout Rust accepts.
pub open spec fn object_layout(size: int, align: int, data_size: int, data_align: int) -> Option<
    (int, int, int),
> {
    if !fits_layout(size, align) || !fits_layout(data_size, data_align) {
        None
    } else {
        let offset = round_up(size, data_align);
        let total = offset + data_size;
        let whole_align = if align >= data_align {
            align
        } else {
            data_align
        };
        if !fits_layout(total, whole_align) {
            None
        } else {
            Some((round_up(total, whole_align), whole_align, offset))
        }
    }
}

/// `round_up` gives the least multiple of `a` that is not below `n`.
proof fn lemma_round_up(n: int, a: int)
    requires
        n >= 0,
        a > 0,
    ensures
        n <= round_up(n, a) < n + a,
        round_up(n, a) % a == 0,
{
    vstd::arithmetic::div_mod::lemma_mod_bound(n, a);
    if n % a != 0 {
        vstd::arithmetic::div_mod::lemma_fundamental_div_mod(n, a);
        let q = n / a;
        assert(n == a * q + n % a);
        assert(round_up(n, a) == a * (q + 1)) by (nonlinear_arith)
            requires
                n == a * q + n % a,
                round_up(n, a) == n + (a - n % a),
        ;
        vstd::arithmetic::div_mod::lemma_mod_multiples_basic(q + 1, a);
    }
}

/// The layout of an object holds its Qt part and its Rust data without overlap: the data
/// starts after the Qt part at a multiple of its alignment and ends within the block, and the
/// block's size is a multiple of its alignment.
pub proof fn lemma_object_layout_sound(size: int, align: int, data_size: int, data_align: int)
    requires
        size >= 0,
        data_size >= 0,
        object_layout(size, align, data_size, data_align) is Some,
    ensures
        ({
            let (s, a, o) = object_layout(size, align, data_size, data_align).unwrap();
            &&& size <= o
            &&& o % data_align == 0
            &&& o + data_size <= s
            &&& s % a == 0
            &&& a >= align && a >= data_align
        }),
{
    lemma_round_up(size, data_align);
    let offset = round_up(size, data_align);
    let total = offset + data_size;
    let whole_align = if align >= data_align {
        align
    } else {
        data_align
    };
    lemma_round_up(total, whole_align);
}

/// Where the Rust data of an object stands and how large the whole block is.
pub struct ObjectLayout {
    /// The size of the whole block, a multiple of its alignment.
    pub size: usize,
    /// The alignment of the whole block.
    pub align: usize,
    /// The offset of the Rust data within the block.
    pub offset: usize,
}

/// `n` rounded up to a multiple of `a`.
fn round_up_exec(n: usize, a: usize) -> (r: usize)
    requires
        a > 0,
        n + a <= usize::MAX,
    ensures
        r == round_up(n as int, a as int),
{
    proof {
        vstd::arithmetic::div_mod::lemma_mod_bound(n as int, a as int);
    }
    let rem = n % a;
    if rem == 0 {
        n
    } else {
        n + (a - rem)
    }
}

/// Computes the layout of a Qt object of `size` bytes aligned to `align` followed by Rust
/// data of `data_size` bytes aligned to `data_align`: the data comes at the first offset
/// after the object that is a multiple of `data_align`, the block is aligned to the larger
/// alignment and its size is padded to a multiple of it. `None` when a layout is not one
/// Rust accepts.
pub fn object_layout_exec(size: usize, align: usize, data_size: usize, data_align: usize) -> (r:
    Option<ObjectLayout>)
    ensures
        match object_layout(size as int, align as int, data_size as int, data_align as int) {
            Some((s, a, o)) => r matches Some(l) && l.size == s && l.align == a && l.offset == o,
            None => r is None,
        },
{
    if !power_of_two(align) || align - 1 > isize::MAX as usize || size > (isize::MAX as usize) - (
    align - 1) {
        return None;
    }
    if !power_of_two(data_align) || data_align - 1 > isize::MAX as usize || data_size > (
    isize::MAX as usize) - (data_align - 1) {
        return None;
    }
    let offset = round_up_exec(size, data_align);
    proof {
        vstd::arithmetic::div_mod::lemma_mod_bound(size as int, data_align as int);
    }
    if offset > usize::MAX - data_size {
        return None;
    }
    let total = offset + data_size;
    let whole_align = if align >= data_align {
        align
    } else {
        data_align
    };
    if total > (isize::MAX as usize) - (whole_align - 1) {
        return None;
    }
    let padded = round_up_exec(total, whole_align);
    Some(ObjectLayout { size: padded, align: whole_align, offset })
}

/// The number of strong references to a reference-counted Qt object.
#[derive(Clone, Copy)]
pub struct RefCount {
    count: usize,
}

impl RefCount {
    /// The number of references.
    pub closed spec fn count(&self) -> nat {
        self.count as nat
    }

    /// A count of `count` references.
    pub fn new(count: usize) -> (r: RefCount)
        ensures
            r.count() == count,
    {
        RefCount { count }
    }

    /// The number of references.
    pub fn get(&self) -> (r: usize)
        ensures
            r == self.count(),
    {
        self.count
    }

    /// Increments the strong reference count on the object.
    pub fn increase_ref(&mut self)
        requires
            old(self).count() < usize::MAX,
        ensures
            final(self).count() == old(self).count() + 1,
    {
        self.count = self.count + 1;
    }

    /// Decrements the strong reference count on the object and returns remaining references;
    /// the object is to be destroyed when none remains.
    pub fn decrease_ref(&mut self) -> (r: usize)
        requires
            old(self).count() > 0,
        ensures
            r == old(self).count() - 1,
            final(self).count() == r,
    {
        self.count = self.count - 1;
        self.count
    }
}

/// Why memory for values of a type cannot be allocated.
#[derive(Debug)]
pub enum HeapError {
    /// The values take no space.
    ZeroSized,
    /// The size of the block overflows.
    Overflow,
    /// The type needs a larger alignment than `malloc` gives.
    Unaligned,
}

/// The outcome of asking for a block of `count` values of `size` bytes aligned to `align`,
/// with `max_align` the alignment `malloc` gives: the size of the block in bytes, or why it
/// cannot be allocated (a size overflow first, then a zero size, then a too large alignment).
pub open spec fn heap_request(count: int, size: int, align: int, max_align: int) -> Result<
    int,
    HeapError,
> {
    if count * size > isize::MAX - (align - 1) {
        Err(HeapError::Overflow)
    } else if count * size == 0 {
        Err(HeapError::ZeroSized)
    } else if align > max_align {
        Err(HeapError::Unaligned)
    } else {
        Ok(count * size)
    }
}

/// Whether a block is refused for its alignment depends on the alignment alone: a block
/// whose size is neither zero nor too large is given, with `count * size` bytes, exactly when
/// `align` is at most `max_align`, whatever the size of the values; a larger size is never
/// refused for its alignment when the alignment is small enough.
pub proof fn lemma_heap_request_alignment(count: int, size: int, align: int, max_align: int)
    requires
        count >= 0,
        size >= 0,
    ensures
        heap_request(count, size, align, max_align) is Ok ==> align <= max_align,
        heap_request(count, size, align, max_align) matches Ok(n) ==> n == count * size,
        heap_request(count, size, align, max_align) matches Err(HeapError::Unaligned) ==> align
            > max_align,
        0 < count * size <= isize::MAX - (align - 1) ==> (heap_request(count, size, align, max_align)
            is Ok <==> align <= max_align),
        0 < count * size <= isize::MAX - (align - 1) && align <= max_align ==> heap_request(
            count,
            size,
            align,
            max_align,
        ) == Ok::<int, HeapError>(count * size),
{
}

/// Encapsulates a pointer to memory allocated by `malloc`, held as its address.
pub struct HeapPtr<T> {
    addr: usize,
    count: usize,
    marker: PhantomData<T>,
}

impl<T> HeapPtr<T> {
    /// The address of the memory.
    pub closed spec fn addr(&self) -> usize {
        self.addr
    }

    /// The number of values the memory holds.
    pub closed spec fn count(&self) -> usize {
        self.count
    }

    /// The number of bytes to allocate for `count` values of `T`, with `max_align` the
    /// alignment `malloc` gives.
    pub fn request(count: usize, max_align: usize) -> (r: Result<usize, HeapError>)
        ensures
            match (r, heap_request(
                count as int,
                vstd::layout::size_of::<T>() as int,
                vstd::layout::align_of::<T>() as int,
                max_align as int,
            )) {
                (Ok(n), Ok(m)) => n == m,
                (Err(HeapError::Overflow), Err(HeapError::Overflow)) => true,
                (Err(HeapError::ZeroSized), Err(HeapError::ZeroSized)) => true,
                (Err(HeapError::Unaligned), Err(HeapError::Unaligned)) => true,
                _ => false,
            },
            r matches Err(HeapError::Unaligned) ==> vstd::layout::align_of::<T>() > max_align,
            r matches Ok(n) ==> n == count * vstd::layout::size_of::<T>()
                && vstd::layout::align_of::<T>() <= max_align,
    {
        vstd::layout::layout_for_type_is_valid::<T>();
        let size = core::mem::size_of::<T>();
        let align = core::mem::align_of::<T>();
        if align - 1 > isize::MAX as usize {
            return Err(HeapError::Overflow);
        }
        let limit = (isize::MAX as usize) - (align - 1);
        let bytes = match count.checked_mul(size) {
            Some(b) => b,
            None => return Err(HeapError::Overflow),
        };
        if bytes > limit {
            return Err(HeapError::Overflow);
        }
        if bytes == 0 {
            return Err(HeapError::ZeroSized);
        }
        if align > max_align {
            return Err(HeapError::Unaligned);
        }
        Ok(bytes)
    }

    /// Takes ownership of the memory at `addr`, as `malloc` returned it for `count` values;
    /// `None` when `malloc` returned null.
    pub fn adopt(addr: usize, count: usize) -> (r: Option<HeapPtr<T>>)
        ensures
            addr == 0 <==> r is None,
            r matches Some(p) ==> p.addr() == addr && p.count() == count,
    {
        if addr == 0 {
            None
        } else {
            Some(HeapPtr { addr, count, marker: PhantomData })
        }
    }

    /// Returns the encapsulated pointer.
    pub fn get(&self) -> (r: usize)
        ensures
            r == self.addr(),
    {
        self.addr
    }

    /// Releases the ownership of the pointer.
    pub fn into_raw(self) -> (r: usize)
        ensures
            r == self.addr(),
    {
        self.addr
    }
}

} // verus!
