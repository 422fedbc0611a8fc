//! Size/alignment descriptions of memory blocks, and the checked layout
//! arithmetic used when containers compute the byte layout of their storage.

use vstd::prelude::*;

verus! {

/// Size and alignment describing one memory block.
#[derive(Clone, Copy, Debug, PartialEq, Eq, Structural)]
pub struct Layout {
    /// Size of the block in bytes.
    pub size: usize,
    /// Required alignment of the block in bytes.
    pub align: usize,
}

impl Layout {
    /// A layout is well formed when its alignment is a power of two and its
    /// size stays under the platform bound on object sizes.
    pub open spec fn wf(self) -> bool {
        vstd::layout::valid_layout(self.size, self.align)
    }

    /// The layout of one value of type `T`, as a specification-level value.
    pub open spec fn spec_new<T>() -> Layout {
        Layout {
            size: vstd::layout::size_of::<T>() as usize,
            align: vstd::layout::align_of::<T>() as usize,
        }
    }

    /// Builds the layout of one value of type `T`.
    pub fn new<T>() -> (r: Layout)
        ensures
            r == Layout::spec_new::<T>(),
            r.wf(),
            r.size as nat == vstd::layout::size_of::<T>(),
            r.align as nat == vstd::layout::align_of::<T>(),
            r.align >= 1,
            r.size as int % r.align as int == 0,
    {
        vstd::layout::layout_for_type_is_valid::<T>();
        Layout { size: core::mem::size_of::<T>(), align: core::mem::align_of::<T>() }
    }
}

/// The number of bytes that must follow a block of `size` bytes so that the
/// next block starts `align`-aligned.
pub open spec fn spec_padding(size: int, align: int) -> int
    recommends
        align >= 1,
{
    (align - size % align) % align
}

/// Number of padding bytes needed after a region of `size` bytes so that the
/// following byte is aligned to `align`.
pub fn align_offset(size: usize, align: usize) -> (r: usize)
    requires
        align >= 1,
    ensures
        r == spec_padding(size as int, align as int),
        r < align,
        (size + r) % (align as int) == 0,
{
    let rem = size % align;
    let r = if rem == 0 {
        0
    } else {
        align - rem
    };
    proof {
        let s = size as int;
        let a = align as int;
        let m = s % a;
        vstd::arithmetic::div_mod::lemma_mod_bound(s, a);
        vstd::arithmetic::div_mod::lemma_fundamental_div_mod(s, a);
        vstd::arithmetic::div_mod::lemma_mod_multiples_basic(s / a, a);
        assert(s - m == (s / a) * a);
        if m == 0 {
            vstd::arithmetic::div_mod::lemma_mod_self_0(a);
            assert((s + r) % a == 0);
        } else {
            vstd::arithmetic::div_mod::lemma_small_mod((a - m) as nat, a as nat);
            vstd::arithmetic::div_mod::lemma_mod_add_multiples_vanish(s - m, a);
            assert(s + r == a + (s - m));
            assert((s + r) % a == 0);
        }
    }
    r
}

/// Number of padding bytes needed after `layout` so that the following byte
/// is aligned to `align`.
pub fn padding_needed_for(layout: &Layout, align: usize) -> (r: usize)
    requires
        align >= 1,
    ensures
        r == spec_padding(layout.size as int, align as int),
        r < align,
        (layout.size + r) % (align as int) == 0,
{
    align_offset(layout.size, align)
}

/// The first `align`-aligned address at or after `x`.
pub open spec fn spec_align_up(x: int, align: int) -> int
    recommends
        align >= 1,
{
    x + spec_padding(x, align)
}

/// A power of two is positive.
pub proof fn lemma_pow2_pos(a: int)
    requires
        vstd::arithmetic::power2::is_pow2(a),
    ensures
        a >= 1,
{
    reveal(vstd::arithmetic::power2::is_pow2);
}

/// The size of one array element of layout `l`, padding included.
pub open spec fn spec_padded_size(l: Layout) -> int {
    l.size + spec_padding(l.size as int, l.align as int)
}

/// Whether an array of `n` elements of layout `l` has a representable,
/// well-formed layout.
pub open spec fn spec_repeat_ok(l: Layout, n: int) -> bool {
    &&& spec_padded_size(l) <= usize::MAX
    &&& spec_padded_size(l) * n <= usize::MAX
    &&& vstd::layout::valid_layout((spec_padded_size(l) * n) as usize, l.align)
}

/// Layout of `n` adjacent copies of `layout`, each padded to its alignment,
/// together with the distance between the starts of two adjacent copies.
/// Returns `None` when the total size is not representable.
pub fn layout_repeat(layout: &Layout, n: usize) -> (r: Option<(Layout, usize)>)
    requires
        layout.align >= 1,
    ensures
        r is Some <==> spec_repeat_ok(*layout, n as int),
        match r {
            Some((l, padded)) => {
                &&& padded == spec_padded_size(*layout)
                &&& l.size == spec_padded_size(*layout) * n
                &&& l.align == layout.align
                &&& l.wf()
            },
            None => true,
        },
{
    let padding = padding_needed_for(layout, layout.align);
    let padded_size = match layout.size.checked_add(padding) {
        Some(p) => p,
        None => {
            return None;
        },
    };
    let alloc_size = match padded_size.checked_mul(n) {
        Some(s) => s,
        None => {
            return None;
        },
    };
    if is_power_of_two(layout.align) && alloc_size <= isize_max_for_align(layout.align) {
        Some((Layout { size: alloc_size, align: layout.align }, padded_size))
    } else {
        None
    }
}

/// Layout of an array of `n` elements of type `T`.
/// Returns `None` when the total size is not representable.
pub fn layout_array<T>(n: usize) -> (r: Option<Layout>)
    ensures
        r is Some <==> spec_repeat_ok(Layout::spec_new::<T>(), n as int),
        match r {
            Some(l) => {
                &&& l.size == vstd::layout::size_of::<T>() * n
                &&& l.align as nat == vstd::layout::align_of::<T>()
                &&& l.wf()
            },
            None => true,
        },
{
    let elem = Layout::new::<T>();
    proof {
        vstd::arithmetic::div_mod::lemma_mod_self_0(elem.align as int);
    }
    match layout_repeat(&elem, n) {
        Some((l, _)) => Some(l),
        None => None,
    }
}

/// Largest size that a block of alignment `align` may have.
fn isize_max_for_align(align: usize) -> (r: usize)
    requires
        align >= 1,
    ensures
        r == isize::MAX as int - (isize::MAX as int % align as int),
{
    let m = (isize::MAX as usize) % align;
    proof {
        vstd::arithmetic::div_mod::lemma_mod_decreases(isize::MAX as nat, align as nat);
    }
    (isize::MAX as usize) - m
}

/// Whether `n` is a power of two.
fn is_power_of_two(n: usize) -> (r: bool)
    ensures
        r <==> vstd::arithmetic::power2::is_pow2(n as int),
{
    proof {
        reveal(vstd::arithmetic::power2::is_pow2);
    }
    let mut k = n;
    loop
        invariant
            vstd::arithmetic::power2::is_pow2(n as int) <==> vstd::arithmetic::power2::is_pow2(
                k as int,
            ),
        decreases k,
    {
        proof {
            reveal(vstd::arithmetic::power2::is_pow2);
        }
        if k == 0 {
            return false;
        }
        if k == 1 {
            return true;
        }
        if k % 2 != 0 {
            return false;
        }
        k = k / 2;
    }
}

} // verus!
