//! A bump arena over a zero-initialized byte buffer. Allocations are offsets
//! into the buffer; an allocation of alignment `align` starts at a multiple of
//! `align` counted from the start of the buffer.
use vstd::prelude::*;

verus! {

/// `n` is a power of two.
pub open spec fn is_pow2(n: usize) -> bool {
    n != 0 && n & ((n - 1) as usize) == 0
}

/// The least multiple of `a` that is at least `p`.
pub open spec fn round_up(p: int, a: int) -> int {
    if p % a == 0 {
        p
    } else {
        p + a - p % a
    }
}

/// `b` with the `len` bytes from `start` set to zero.
pub open spec fn zeroed(b: Seq<u8>, start: int, len: int) -> Seq<u8> {
    Seq::new(b.len(), |i: int| if start <= i < start + len { 0u8 } else { b[i] })
}

/// `b` with the bytes `v` written from `start` on.
pub open spec fn written(b: Seq<u8>, start: int, v: Seq<u8>) -> Seq<u8> {
    Seq::new(b.len(), |i: int| if start <= i < start + v.len() { v[i - start] } else { b[i] })
}

/// `z` with the `n` bytes that start at `src` copied to `dst`.
pub open spec fn moved(z: Seq<u8>, src: int, dst: int, n: int) -> Seq<u8> {
    Seq::new(z.len(), |i: int| if dst <= i < dst + n { z[src + i - dst] } else { z[i] })
}

pub open spec fn min_nat(a: int, b: int) -> int {
    if a <= b {
        a
    } else {
        b
    }
}

/// A bump allocator over a buffer of bytes. Positions are offsets from the
/// start of the buffer, and alignment is counted from there too: an
/// allocation aligned to `a` starts at an offset that is a multiple of `a`.
/// (A buffer that itself starts at an address aligned to 8, as one from the
/// system allocator does, gives the same addresses for alignments up to 8.)
pub struct Arena {
    buffer: Vec<u8>,
    capacity: usize,
    offset: usize,
    prev_offset: usize,
}

impl Arena {
    /// The bytes of the buffer.
    pub closed spec fn bytes(&self) -> Seq<u8> {
        self.buffer@
    }

    pub closed spec fn spec_capacity(&self) -> nat {
        self.capacity as nat
    }

    /// Where the next allocation may start.
    pub closed spec fn spec_offset(&self) -> nat {
        self.offset as nat
    }

    /// Where the last allocation started.
    pub closed spec fn spec_prev_offset(&self) -> nat {
        self.prev_offset as nat
    }

    /// The buffer holds `capacity` bytes; the next free byte and the start of
    /// the last allocation lie within it.
    pub open spec fn wf(&self) -> bool {
        &&& self.bytes().len() == self.spec_capacity()
        &&& self.spec_offset() <= self.spec_capacity()
        &&& self.spec_prev_offset() <= self.spec_capacity()
    }

    /// An arena of `capacity` zero bytes.
    pub fn new(capacity: usize) -> (r: Arena)
        requires
            capacity <= isize::MAX - 7,
        ensures
            r.wf(),
            r.spec_capacity() == capacity,
            r.spec_offset() == 0,
            r.spec_prev_offset() == 0,
            r.bytes() == Seq::new(capacity as nat, |i: int| 0u8),
    {
        let mut buffer: Vec<u8> = Vec::new();
        let mut i: usize = 0;
        while i < capacity
            invariant
                i <= capacity,
                buffer@ == Seq::new(i as nat, |k: int| 0u8),
            decreases capacity - i,
        {
            buffer.push(0);
            assert(buffer@ =~= Seq::new((i + 1) as nat, |k: int| 0u8));
            i = i + 1;
        }
        Arena { buffer, capacity, offset: 0, prev_offset: 0 }
    }

    /// The first multiple of `size` at or after `ptr`.
    pub fn align_forward(&self, ptr: usize, size: usize) -> (r: usize)
        requires
            is_pow2(size),
            round_up(ptr as int, size as int) <= usize::MAX,
        ensures
            r == round_up(ptr as int, size as int),
            r % size == 0,
            ptr <= r < ptr + size,
    {
        let mut p = ptr;
        let a = size;
        // `a` is a power of two, so this is the low bits of `p`.
        let modulo = p % a;
        if modulo != 0 {
            p = p + (a - modulo);
        }
        assert((ptr + (size - ptr % size)) % (size as int) == 0) by (nonlinear_arith)
            requires
                size > 0,
        {
            vstd::arithmetic::div_mod::lemma_fundamental_div_mod(ptr as int, size as int);
            vstd::arithmetic::div_mod::lemma_mod_multiples_basic(ptr / size + 1, size as int);
        }
        p
    }

    /// Makes the whole buffer free again, keeping its bytes.
    pub fn reset(&mut self)
        requires
            old(self).wf(),
        ensures
            final(self).wf(),
            final(self).spec_offset() == 0,
            final(self).spec_prev_offset() == old(self).spec_prev_offset(),
            final(self).bytes() == old(self).bytes(),
            final(self).spec_capacity() == old(self).spec_capacity(),
    {
        self.offset = 0;
    }

    /// Sets the `len` bytes from `start` to zero.
    fn zero_bytes(&mut self, start: usize, len: usize)
        requires
            old(self).wf(),
            start + len <= old(self).spec_capacity(),
        ensures
            final(self).wf(),
            final(self).bytes() == zeroed(old(self).bytes(), start as int, len as int),
            final(self).spec_capacity() == old(self).spec_capacity(),
            final(self).spec_offset() == old(self).spec_offset(),
            final(self).spec_prev_offset() == old(self).spec_prev_offset(),
    {
        let ghost b0 = self.buffer@;
        let mut k: usize = 0;
        while k < len
            invariant
                k <= len,
                start + len <= self.capacity,
                self.buffer@.len() == self.capacity,
                self.offset <= self.capacity,
                self.prev_offset <= self.capacity,
                self.capacity == old(self).capacity,
                self.offset == old(self).offset,
                self.prev_offset == old(self).prev_offset,
                b0 == old(self).buffer@,
                self.buffer@ == zeroed(b0, start as int, k as int),
            decreases len - k,
        {
            self.buffer.set(start + k, 0);
            assert(self.buffer@ =~= zeroed(b0, start as int, k + 1));
            k = k + 1;
        }
    }

    /// Allocates `size` zeroed bytes aligned to `align`; the start of the
    /// allocation is returned.
    pub fn arena_alloc_align(&mut self, size: usize, align: usize) -> (r: usize)
        requires
            old(self).wf(),
            is_pow2(align),
            round_up(old(self).spec_offset() as int, align as int) + size <= old(
                self,
            ).spec_capacity(),
        ensures
            final(self).wf(),
            r == round_up(old(self).spec_offset() as int, align as int),
            r % align == 0,
            final(self).spec_prev_offset() == r,
            final(self).spec_offset() == r + size,
            final(self).spec_capacity() == old(self).spec_capacity(),
            final(self).bytes() == zeroed(old(self).bytes(), r as int, size as int),
    {
        let offsett = self.align_forward(self.offset, align);
        self.prev_offset = offsett;
        self.offset = offsett + size;
        self.zero_bytes(offsett, size);
        offsett
    }

    /// Allocates a copy of the bytes `value`, aligned to `align`; the start
    /// of the copy is returned.
    pub fn alloc_bytes(&mut self, value: &[u8], align: usize) -> (r: usize)
        requires
            old(self).wf(),
            is_pow2(align),
            round_up(old(self).spec_offset() as int, align as int) + value@.len() <= old(
                self,
            ).spec_capacity(),
        ensures
            final(self).wf(),
            r == round_up(old(self).spec_offset() as int, align as int),
            final(self).spec_prev_offset() == r,
            final(self).spec_offset() == r + value@.len(),
            final(self).spec_capacity() == old(self).spec_capacity(),
            final(self).bytes() == written(old(self).bytes(), r as int, value@),
    {
        let ptr = self.arena_alloc_align(value.len(), align);
        let ghost z = self.buffer@;
        let mut k: usize = 0;
        while k < value.len()
            invariant
                k <= value@.len(),
                ptr + value@.len() <= self.capacity,
                self.buffer@.len() == self.capacity,
                self.offset <= self.capacity,
                self.prev_offset <= self.capacity,
                self.buffer@ == written(z, ptr as int, value@.take(k as int)),
                z.len() == self.capacity,
                self.offset == ptr + value@.len(),
                self.prev_offset == ptr,
                self.capacity == old(self).capacity,
            decreases value@.len() - k,
        {
            self.buffer.set(ptr + k, value[k]);
            assert(self.buffer@ =~= written(z, ptr as int, value@.take(k + 1)));
            k = k + 1;
        }
        assert(value@.take(k as int) =~= value@);
        assert(written(z, ptr as int, value@) =~= written(old(self).bytes(), ptr as int, value@));
        ptr
    }

    /// The bytes of the buffer.
    pub fn buffer(&self) -> (r: &[u8])
        ensures
            r@ == self.bytes(),
    {
        self.buffer.as_slice()
    }

    pub fn capacity(&self) -> (r: usize)
        ensures
            r == self.spec_capacity(),
    {
        self.capacity
    }

    /// Where the next allocation may start.
    pub fn offset(&self) -> (r: usize)
        ensures
            r == self.spec_offset(),
    {
        self.offset
    }

    /// A fresh allocation of `size` bytes aligned to `align` fits the buffer.
    pub open spec fn fits(&self, size: int, align: usize) -> bool {
        round_up(self.spec_offset() as int, align as int) + size <= self.spec_capacity()
    }

    /// The inputs on which [`Arena::arena_resize_align`] stays within the
    /// buffer: a previous allocation starts inside the buffer; when it is the
    /// last one it grows in place, otherwise a new one of `new_size` bytes fits
    /// and the copied bytes lie within the buffer.
    pub open spec fn resize_fits(
        &self,
        old_memory: Option<usize>,
        old_size: usize,
        new_size: usize,
        align: usize,
    ) -> bool {
        if old_memory is None || old_size == 0 {
            self.fits(new_size as int, align)
        } else {
            let m = old_memory->0;
            &&& m < self.spec_capacity()
            &&& if m == self.spec_prev_offset() {
                m + new_size <= self.spec_capacity()
            } else {
                &&& self.fits(new_size as int, align)
                &&& m + min_nat(old_size as int, new_size as int) <= self.spec_capacity()
            }
        }
    }

    /// Resizes the allocation of `old_size` bytes at `old_memory` (none, or
    /// of size zero, asks for a fresh allocation) to `new_size` bytes. The
    /// last allocation is resized in place; when it grows, its first
    /// `new_size` bytes are set to zero. Any other is copied, as far as both
    /// sizes reach, into a fresh zeroed allocation.
    pub fn arena_resize_align(
        &mut self,
        old_memory: Option<usize>,
        old_size: usize,
        new_size: usize,
        align: usize,
    ) -> (r: usize)
        requires
            old(self).wf(),
            is_pow2(align),
            old(self).resize_fits(old_memory, old_size, new_size, align),
        ensures
            final(self).wf(),
            final(self).spec_capacity() == old(self).spec_capacity(),
            if old_memory is None || old_size == 0 {
                &&& r == round_up(old(self).spec_offset() as int, align as int)
                &&& final(self).spec_prev_offset() == r
                &&& final(self).spec_offset() == r + new_size
                &&& final(self).bytes() == zeroed(old(self).bytes(), r as int, new_size as int)
            } else if old_memory->0 == old(self).spec_prev_offset() {
                &&& r == old_memory->0
                &&& final(self).spec_prev_offset() == old(self).spec_prev_offset()
                &&& final(self).spec_offset() == r + new_size
                &&& final(self).bytes() == if new_size > old_size {
                    zeroed(old(self).bytes(), r as int, new_size as int)
                } else {
                    old(self).bytes()
                }
            } else {
                &&& r == round_up(old(self).spec_offset() as int, align as int)
                &&& final(self).spec_prev_offset() == r
                &&& final(self).spec_offset() == r + new_size
                &&& final(self).bytes() == moved(
                    zeroed(old(self).bytes(), r as int, new_size as int),
                    old_memory->0 as int,
                    r as int,
                    min_nat(old_size as int, new_size as int),
                )
            },
    {
        match old_memory {
            None => {
                return self.arena_alloc_align(new_size, align);
            },
            Some(m) => {
                if old_size == 0 {
                    return self.arena_alloc_align(new_size, align);
                }
                if m == self.prev_offset {
                    self.offset = self.prev_offset + new_size;
                    if new_size > old_size {
                        self.zero_bytes(m, new_size);
                    }
                    return m;
                }
                let new_ptr = self.arena_alloc_align(new_size, align);
                let copy_size = if old_size <= new_size {
                    old_size
                } else {
                    new_size
                };
                let ghost z = self.buffer@;
                let mut tmp: Vec<u8> = Vec::new();
                let mut k: usize = 0;
                while k < copy_size
                    invariant
                        k <= copy_size,
                        m + copy_size <= self.capacity,
                        self.buffer@ == z,
                        self.buffer@.len() == self.capacity,
                        tmp@ == z.subrange(m as int, m + k),
                    decreases copy_size - k,
                {
                    tmp.push(self.buffer[m + k]);
                    assert(tmp@ =~= z.subrange(m as int, m + k + 1));
                    k = k + 1;
                }
                let mut j: usize = 0;
                while j < copy_size
                    invariant
                        j <= copy_size,
                        copy_size <= new_size,
                        new_ptr + new_size <= self.capacity,
                        tmp@ == z.subrange(m as int, m + copy_size),
                        m + copy_size <= z.len(),
                        tmp@.len() == copy_size,
                        z.len() == self.capacity,
                        self.buffer@.len() == self.capacity,
                        self.offset == new_ptr + new_size,
                        self.prev_offset == new_ptr,
                        self.capacity == old(self).capacity,
                        self.buffer@ == moved(z, m as int, new_ptr as int, j as int),
                    decreases copy_size - j,
                {
                    self.buffer.set(new_ptr + j, tmp[j]);
                    assert(self.buffer@ =~= moved(z, m as int, new_ptr as int, j + 1));
                    j = j + 1;
                }
                new_ptr
            },
        }
    }

    /// Sets every byte of the buffer to zero and frees the whole buffer.
    fn reset_and_clear(&mut self)
        requires
            old(self).wf(),
        ensures
            final(self).wf(),
            final(self).bytes() == Seq::new(old(self).spec_capacity(), |i: int| 0u8),
            final(self).spec_offset() == 0,
            final(self).spec_prev_offset() == old(self).spec_prev_offset(),
            final(self).spec_capacity() == old(self).spec_capacity(),
    {
        self.zero_bytes(0, self.capacity);
        self.offset = 0;
        assert(self.buffer@ =~= Seq::new(old(self).spec_capacity(), |i: int| 0u8));
    }
}

/// Law: an allocation starts at or after the end of the allocation made just
/// before it, so allocations made one after another never overlap.
pub proof fn law_allocations_follow(offset: int, size1: int, a1: usize, a2: usize)
    requires
        offset >= 0,
        size1 >= 0,
        is_pow2(a1),
        is_pow2(a2),
    ensures
        round_up(offset, a1 as int) >= offset,
        round_up(round_up(offset, a1 as int) + size1, a2 as int) >= round_up(offset, a1 as int)
            + size1,
{
    let p = round_up(offset, a1 as int) + size1;
    assert(offset % (a1 as int) < a1);
    assert(p % (a2 as int) < a2);
}

/// A fresh arena of `cap` zero bytes.
pub fn alloc_arena_memeory(cap: usize) -> (r: Arena)
    requires
        cap <= isize::MAX - 7,
    ensures
        r.wf(),
        r.spec_capacity() == cap,
        r.spec_offset() == 0,
        r.spec_prev_offset() == 0,
        r.bytes() == Seq::new(cap as nat, |i: int| 0u8),
{
    let arena = Arena::new(cap);
    arena
}

} // verus!
