//! Little-endian numbers and alignment padding.

use vstd::prelude::*;

verus! {

/// The `width` little-endian bytes of a number.
pub open spec fn le(n: nat, width: nat) -> Seq<u8>
    decreases width,
{
    if width == 0 {
        Seq::empty()
    } else {
        seq![(n % 256) as u8] + le(n / 256, (width - 1) as nat)
    }
}

/// The number little-endian bytes stand for.
pub open spec fn le_value(bytes: Seq<u8>) -> nat
    decreases bytes.len(),
{
    if bytes.len() == 0 {
        0
    } else {
        bytes[0] as nat + 256 * le_value(bytes.drop_first())
    }
}

/// How many numbers `width` bytes can hold.
pub open spec fn capacity(width: nat) -> nat
    decreases width,
{
    if width == 0 {
        1
    } else {
        256 * capacity((width - 1) as nat)
    }
}

/// The two's complement of a signed number, in a range of `values` numbers.
pub open spec fn unsigned(n: int, values: int) -> nat {
    if n < 0 {
        (n + values) as nat
    } else {
        n as nat
    }
}

/// The signed number a two's complement stands for.
pub open spec fn signed(n: nat, values: int) -> int {
    if n >= values / 2 {
        n - values
    } else {
        n as int
    }
}

/// `n` nul bytes.
pub open spec fn zeros(n: nat) -> Seq<u8> {
    Seq::new(n, |i: int| 0u8)
}

/// Bytes missing from `at` to the next multiple of `align`.
#[verifier::opaque]
pub open spec fn padding(at: nat, align: nat) -> nat {
    if at % align == 0 {
        0
    } else {
        (align - at % align) as nat
    }
}

/// The capacities of the widths in use.
pub proof fn lemma_capacities()
    ensures
        capacity(1) == 0x100,
        capacity(2) == 0x10000,
        capacity(4) == 0x1_0000_0000,
        capacity(8) == 0x1_0000_0000_0000_0000,
{
    reveal_with_fuel(capacity, 9);
}

/// A number has `width` bytes.
pub proof fn lemma_le_len(n: nat, width: nat)
    ensures
        le(n, width).len() == width,
    decreases width,
{
    if width > 0 {
        lemma_le_len(n / 256, (width - 1) as nat);
    }
}

/// Reading back the bytes of a number that fits gives the number.
pub proof fn lemma_le_round_trip(n: nat, width: nat)
    requires
        n < capacity(width),
    ensures
        le_value(le(n, width)) == n,
        le(n, width).len() == width,
    decreases width,
{
    lemma_le_len(n, width);
    if width > 0 {
        lemma_le_round_trip(n / 256, (width - 1) as nat);
        assert(le(n, width).drop_first() =~= le(n / 256, (width - 1) as nat));
    }
}

/// Bytes hold a number below their capacity, and are its bytes.
pub proof fn lemma_le_value(bytes: Seq<u8>)
    ensures
        le_value(bytes) < capacity(bytes.len()),
        le(le_value(bytes), bytes.len()) == bytes,
    decreases bytes.len(),
{
    if bytes.len() > 0 {
        let rest = bytes.drop_first();
        lemma_le_value(rest);
        let n = le_value(bytes);
        assert(n % 256 == bytes[0] as nat);
        assert(n / 256 == le_value(rest));
        assert(seq![bytes[0]] + rest =~= bytes);
    } else {
        assert(le(le_value(bytes), bytes.len()) =~= bytes);
    }
}

/// Append the little-endian bytes of a number.
pub fn push_le(out: &mut Vec<u8>, n: u64, width: usize)
    ensures
        final(out)@ == old(out)@ + le(n as nat, width as nat),
{
    let mut rest: u64 = n;
    let mut i: usize = 0;
    proof {
        assert(out@ + le(n as nat, width as nat) =~= old(out)@ + le(n as nat, width as nat));
    }
    while i < width
        invariant
            i <= width,
            out@ + le(rest as nat, (width - i) as nat) == old(out)@ + le(n as nat, width as nat),
        decreases width - i,
    {
        let ghost before = out@;
        out.push((rest % 256) as u8);
        proof {
            assert(out@ + le((rest / 256) as nat, (width - i - 1) as nat) =~= before + le(
                rest as nat,
                (width - i) as nat,
            ));
        }
        rest = rest / 256;
        i = i + 1;
    }
    proof {
        assert(out@ + le(rest as nat, 0) =~= out@);
    }
}

/// Overwrite four bytes with the little-endian bytes of a number.
pub fn patch_le4(out: &mut Vec<u8>, at: usize, n: u32)
    requires
        at + 4 <= old(out)@.len(),
    ensures
        final(out)@ == old(out)@.take(at as int) + le(n as nat, 4) + old(out)@.skip(at + 4),
{
    let ghost before = out@;
    let len = out.len();
    assert(at + 4 <= len);
    out[at] = (n % 256) as u8;
    out[at + 1] = ((n / 256) % 256) as u8;
    out[at + 2] = ((n / 65536) % 256) as u8;
    out[at + 3] = (n / 16777216) as u8;
    proof {
        reveal_with_fuel(le, 5);
        let k = n as nat;
        assert(k / 256 / 256 == k / 65536);
        assert(k / 256 / 256 / 256 == k / 16777216);
        assert(k / 16777216 < 256);
        assert(le(k, 4) =~= seq![
            (k % 256) as u8,
            ((k / 256) % 256) as u8,
            ((k / 65536) % 256) as u8,
            (k / 16777216) as u8,
        ]);
        assert(out@ =~= before.take(at as int) + le(n as nat, 4) + before.skip(at + 4));
    }
}

/// The number little-endian bytes stand for.
pub fn read_le(bytes: &[u8]) -> (r: u64)
    requires
        bytes@.len() <= 8,
    ensures
        r == le_value(bytes@),
{
    let mut i: usize = bytes.len();
    let mut n: u64 = 0;
    proof {
        lemma_capacities();
        assert(bytes@.skip(i as int) =~= Seq::empty());
    }
    while i > 0
        invariant
            i <= bytes@.len() <= 8,
            n == le_value(bytes@.skip(i as int)),
        decreases i,
    {
        i = i - 1;
        proof {
            let rest = bytes@.skip(i as int);
            assert(rest.drop_first() =~= bytes@.skip(i + 1));
            lemma_le_value(rest);
            assert(rest.len() <= 8);
            lemma_capacity_monotonic(rest.len(), 8);
            lemma_capacities();
        }
        n = bytes[i] as u64 + 256 * n;
    }
    proof {
        assert(bytes@.skip(0) =~= bytes@);
    }
    n
}

/// More bytes hold more numbers.
pub proof fn lemma_capacity_monotonic(a: nat, b: nat)
    requires
        a <= b,
    ensures
        capacity(a) <= capacity(b),
    decreases b,
{
    if a < b {
        lemma_capacity_monotonic(a, (b - 1) as nat);
    }
}

/// Grow `out` with nul bytes until its length is a multiple of `align`.
pub fn pad(out: &mut Vec<u8>, align: usize)
    requires
        align > 0,
    ensures
        final(out)@ == old(out)@ + zeros(padding(old(out)@.len(), align as nat)),
        final(out)@.len() % align as nat == 0,
{
    proof {
        reveal(padding);
    }
    let over = out.len() % align;
    let missing: usize = if over == 0 {
        0
    } else {
        align - over
    };
    let mut i: usize = 0;
    proof {
        assert(out@ =~= old(out)@ + zeros(0));
    }
    while i < missing
        invariant
            i <= missing,
            out@ == old(out)@ + zeros(i as nat),
        decreases missing - i,
    {
        out.push(0);
        i = i + 1;
        proof {
            assert(out@ =~= old(out)@ + zeros(i as nat));
        }
    }
    proof {
        lemma_padding(old(out)@.len(), align as nat);
    }
}

/// Padding ends on a multiple of the alignment and is shorter than it.
pub proof fn lemma_padding(at: nat, align: nat)
    requires
        align > 0,
    ensures
        (at + padding(at, align)) % align == 0,
        padding(at, align) < align,
{
    reveal(padding);
    let over = at % align;
    if over != 0 {
        assert((at + (align - over)) % align as int == 0) by (nonlinear_arith)
            requires
                align > 0,
                over == at % align,
        {
            assert(at == align * (at / align) + over);
            assert(at + (align - over) == align * (at / align + 1));
            vstd::arithmetic::div_mod::lemma_mod_multiples_basic((at / align + 1) as int, align as int);
        }
    }
}

/// `n` rounded up to a multiple of `align`.
pub fn align_up(n: usize, align: usize) -> (r: usize)
    requires
        align > 0,
        n + padding(n as nat, align as nat) <= usize::MAX,
    ensures
        r == n + padding(n as nat, align as nat),
        r % align == 0,
{
    proof {
        reveal(padding);
        lemma_padding(n as nat, align as nat);
    }
    let over = n % align;
    if over == 0 {
        n
    } else {
        n + (align - over)
    }
}

} // verus!
