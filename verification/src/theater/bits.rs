//! Bounded MSB-first bit views over byte slices, without expanded bit strings.
use vstd::arithmetic::power2::*;
use vstd::prelude::*;
use crate::text::chars_of;

verus! {

/// Bit `i` of `data`, most significant bit of each byte first; zero outside the data.
pub open spec fn bit_of(data: Seq<u8>, i: int) -> nat {
    if 0 <= i < data.len() * 8 {
        ((data[i / 8] >> ((7 - i % 8) as u8)) & 1u8) as nat
    } else {
        0
    }
}

/// The `width` bits starting at `offset`, read MSB first; bits past the end read as zero.
pub open spec fn bits_value(data: Seq<u8>, offset: int, width: nat) -> nat
    decreases width,
{
    if width == 0 {
        0
    } else {
        bits_value(data, offset, (width - 1) as nat) * 2 + bit_of(data, offset + width - 1)
    }
}

/// Number of addressable bits: eight per byte, saturated at `usize::MAX`.
pub open spec fn bit_len(data: Seq<u8>) -> nat {
    if data.len() * 8 <= usize::MAX {
        data.len() * 8
    } else {
        usize::MAX as nat
    }
}

/// A checked read: `width` is at most 64 and the whole window lies inside the data.
pub open spec fn read_spec(data: Seq<u8>, offset: int, width: nat) -> Option<u64> {
    if width <= 64 && 0 <= offset && offset + width <= bit_len(data) {
        Some(bits_value(data, offset, width) as u64)
    } else {
        None
    }
}

/// The bits at `offset` are exactly the `width`-bit value `pattern`.
pub open spec fn matches_spec(data: Seq<u8>, offset: int, pattern: u64, width: nat) -> bool {
    read_spec(data, offset, width) == Some(pattern)
}

/// A text made only of `0` and `1` characters.
pub open spec fn binary_text(t: Seq<char>) -> bool {
    forall|i: int| 0 <= i < t.len() ==> t[i] == '0' || t[i] == '1'
}

/// The bit a pattern character stands for.
pub open spec fn char_bit(c: char) -> nat {
    if c == '1' {
        1
    } else {
        0
    }
}

/// The bits at `offset` spell the pattern: an empty pattern always does; another one
/// lies wholly inside the data and agrees with it bit by bit.
pub open spec fn spells(data: Seq<u8>, offset: int, pattern: Seq<char>) -> bool {
    pattern.len() == 0 || (0 <= offset && offset + pattern.len() <= bit_len(data) && forall|k: int|
        0 <= k < pattern.len() ==> bit_of(data, offset + k) == char_bit(#[trigger] pattern[k]))
}

/// The 64-bit window starting at `offset`, zero-filled past the end of the data.
pub open spec fn window_spec(data: Seq<u8>, offset: int) -> u64 {
    bits_value(data, offset, 64) as u64
}

pub proof fn lemma_bit_of_le_1(data: Seq<u8>, i: int)
    ensures
        bit_of(data, i) <= 1,
{
    if 0 <= i < data.len() * 8 {
        let x = data[i / 8];
        let s = (7 - i % 8) as u8;
        assert((x >> s) & 1u8 <= 1u8) by (bit_vector);
    }
}

pub proof fn lemma_bits_bound(data: Seq<u8>, offset: int, width: nat)
    ensures
        bits_value(data, offset, width) < pow2(width),
    decreases width,
{
    if width > 0 {
        lemma_bits_bound(data, offset, (width - 1) as nat);
        lemma_bit_of_le_1(data, offset + width - 1);
        lemma_pow2_unfold(width);
    } else {
        lemma2_to64();
    }
}

/// Splitting a window into a leading `a`-bit part and a trailing `b`-bit part.
pub proof fn lemma_bits_split(data: Seq<u8>, offset: int, a: nat, b: nat)
    ensures
        bits_value(data, offset, a + b) == bits_value(data, offset, a) * pow2(b) + bits_value(
            data,
            offset + a,
            b,
        ),
    decreases b,
{
    if b == 0 {
        lemma2_to64();
        assert(bits_value(data, offset, a) * pow2(0) == bits_value(data, offset, a)) by {
            assert(pow2(0) == 1);
        }
    } else {
        lemma_bits_split(data, offset, a, (b - 1) as nat);
        lemma_pow2_unfold(b);
        let x = bits_value(data, offset, a);
        let y = bits_value(data, offset + a, (b - 1) as nat);
        let p = pow2((b - 1) as nat);
        assert(bits_value(data, offset, a + b) == (x * p + y) * 2 + bit_of(
            data,
            offset + a + b - 1,
        ));
        assert((x * p + y) * 2 == x * (2 * p) + y * 2) by (nonlinear_arith);
    }
}

/// Bytes of a window that lies inside the data equal the zero-filled window.
pub proof fn lemma_window_in_range(data: Seq<u8>, offset: int)
    requires
        0 <= offset,
        offset + 64 <= bit_len(data),
    ensures
        read_spec(data, offset, 64) == Some(window_spec(data, offset)),
{
}

/// Advancing a window by one bit shifts out its top bit and appends the next one.
pub proof fn lemma_window_step(data: Seq<u8>, offset: int)
    ensures
        window_spec(data, offset + 1) as nat == (window_spec(data, offset) as nat % pow2(63)) * 2
            + bit_of(data, offset + 64),
{
    lemma_bits_split(data, offset, 1, 63);
    lemma_bits_split(data, offset + 1, 63, 1);
    lemma_bits_bound(data, offset + 1, 63);
    lemma_bits_bound(data, offset, 64);
    lemma_bits_bound(data, offset + 1, 64);
    lemma2_to64();
    lemma2_to64_rest();
    lemma_bit_of_le_1(data, offset);
    let hi = bits_value(data, offset, 1);
    let lo = bits_value(data, offset + 1, 63);
    assert(bits_value(data, offset, 1) == bit_of(data, offset)) by {
        assert(bits_value(data, offset, 0) == 0);
    }
    assert(bits_value(data, offset + 1 + 63, 1) == bit_of(data, offset + 64)) by {
        assert(bits_value(data, offset + 64, 0) == 0);
    }
    assert((hi * pow2(63) + lo) % pow2(63) == lo) by {
        vstd::arithmetic::div_mod::lemma_mod_multiples_vanish(hi as int, lo as int, pow2(63) as int);
        vstd::arithmetic::div_mod::lemma_small_mod(lo, pow2(63));
    }
}

/// The top `width` bits of the window at `offset` are the read of `width` bits there,
/// whenever that read lies inside the data.
pub proof fn lemma_window_top_bits(data: Seq<u8>, offset: int, width: nat)
    requires
        1 <= width <= 64,
        0 <= offset,
        offset + width <= bit_len(data),
    ensures
        read_spec(data, offset, width) == Some(window_spec(data, offset) >> ((64 - width) as u64)),
{
    let k = (64 - width) as nat;
    assert(width + k == 64);
    lemma_bits_split(data, offset, width, k);
    lemma_bits_bound(data, offset + width, k);
    lemma_bits_bound(data, offset, 64);
    lemma_bits_bound(data, offset, width);
    lemma2_to64();
    lemma2_to64_rest();
    let w = window_spec(data, offset);
    assert(w as nat == bits_value(data, offset, 64));
    vstd::bits::lemma_u64_shr_is_div(w, k as u64);
    lemma_pow2_pos(k);
    vstd::arithmetic::div_mod::lemma_fundamental_div_mod_converse(
        w as int,
        pow2(k) as int,
        bits_value(data, offset, width) as int,
        bits_value(data, offset + width, k) as int,
    );
    if width < 64 {
        lemma_pow2_strictly_increases(width, 64);
    }
}

/// A borrowed byte buffer addressed bit by bit.
#[derive(Clone, Copy)]
pub struct Bits<'a>(pub &'a [u8]);

impl<'a> View for Bits<'a> {
    type V = Seq<u8>;

    open spec fn view(&self) -> Seq<u8> {
        self.0@
    }
}

impl<'a> Bits<'a> {
    /// Number of bits, saturated at `usize::MAX`.
    pub fn len(self) -> (n: usize)
        ensures
            n == bit_len(self@),
    {
        let n = self.0.len();
        if n <= usize::MAX / 8 {
            n * 8
        } else {
            usize::MAX
        }
    }

    /// Bit `position` as 0 or 1, or zero outside the data.
    pub fn bit(self, position: usize) -> (b: u64)
        ensures
            b as nat == bit_of(self@, position as int),
            b <= 1,
    {
        proof {
            lemma_bit_of_le_1(self@, position as int);
        }
        let byte = position / 8;
        if byte >= self.0.len() {
            return 0;
        }
        let x = self.0[byte];
        let s = (7 - position % 8) as u8;
        let b = (x >> s) & 1u8;
        b as u64
    }

    /// Reads `width <= 64` bits at `offset`, or `None` when the window leaves the data.
    pub fn read(self, offset: usize, width: usize) -> (r: Option<u64>)
        ensures
            r == read_spec(self@, offset as int, width as nat),
    {
        if width > 64 {
            return None;
        }
        let end = match offset.checked_add(width) {
            Some(end) => end,
            None => return None,
        };
        if end > self.len() {
            return None;
        }
        let mut value: u64 = 0;
        let mut i: usize = 0;
        proof {
            lemma2_to64();
            lemma2_to64_rest();
        }
        while i < width
            invariant
                i <= width <= 64,
                end == offset + width,
                value as nat == bits_value(self@, offset as int, i as nat),
                pow2(63) == 0x8000_0000_0000_0000,
            decreases width - i,
        {
            proof {
                lemma_bits_bound(self@, offset as int, i as nat);
                if i < 63 {
                    lemma_pow2_strictly_increases(i as nat, 63);
                }
            }
            let b = self.bit(offset + i);
            value = value * 2 + b;
            i += 1;
        }
        Some(value)
    }

    /// Whether the `width` bits at `offset` are exactly `pattern`.
    pub fn matches(self, offset: usize, pattern: u64, width: usize) -> (r: bool)
        ensures
            r == matches_spec(self@, offset as int, pattern, width as nat),
    {
        match self.read(offset, width) {
            Some(v) => v == pattern,
            None => false,
        }
    }

    /// Whether the bits at `offset` spell `pattern`, a text of `0` and `1` characters
    /// read most significant bit first; an empty pattern matches at every offset.
    pub fn is(self, offset: usize, pattern: &str) -> (r: bool)
        requires
            binary_text(pattern@),
        ensures
            r == spells(self@, offset as int, pattern@),
    {
        let p = chars_of(pattern);
        let n = p.len();
        if n == 0 {
            return true;
        }
        let len = self.len();
        if n > len || offset > len - n {
            return false;
        }
        let mut i: usize = 0;
        while i < n
            invariant
                i <= n,
                n == p@.len(),
                p@ == pattern@,
                offset + n <= bit_len(self@),
                forall|k: int| 0 <= k < i ==> bit_of(self@, offset + k) == char_bit(#[trigger] p@[k]),
            decreases n - i,
        {
            let want: u64 = if p[i] == '1' {
                1
            } else {
                0
            };
            if self.bit(offset + i) != want {
                return false;
            }
            i += 1;
        }
        true
    }

    /// The zero-filled 64-bit window at `offset`.
    pub fn window(self, offset: usize) -> (w: u64)
        requires
            self@.len() * 8 + 64 <= usize::MAX,
            offset <= self@.len() * 8,
        ensures
            w == window_spec(self@, offset as int),
    {
        let mut value: u64 = 0;
        let mut i: usize = 0;
        proof {
            lemma2_to64();
            lemma2_to64_rest();
        }
        while i < 64
            invariant
                i <= 64,
                self@.len() * 8 + 64 <= usize::MAX,
                offset <= self@.len() * 8,
                value as nat == bits_value(self@, offset as int, i as nat),
                pow2(63) == 0x8000_0000_0000_0000,
            decreases 64 - i,
        {
            proof {
                lemma_bits_bound(self@, offset as int, i as nat);
                if i < 63 {
                    lemma_pow2_strictly_increases(i as nat, 63);
                }
            }
            let b = self.bit(offset + i);
            value = value * 2 + b;
            i += 1;
        }
        value
    }

    /// Rolling windows at every bit offset, starting at zero.
    pub fn windows(self) -> (w: Windows<'a>)
        requires
            self@.len() * 8 + 64 <= usize::MAX,
        ensures
            w.wf(),
            w.bits@ == self@,
            w.offset == 0,
    {
        let value = self.window(0);
        Windows { bits: self, offset: 0, value }
    }

    /// Every rolling window in order of offset: one `(offset, window)` pair for each
    /// bit offset, produced by walking [`Windows`] until it stops.
    pub fn all_windows(self) -> (r: Vec<(usize, u64)>)
        requires
            self@.len() * 8 + 64 <= usize::MAX,
        ensures
            r@.len() == bit_len(self@),
            forall|k: int| 0 <= k < r@.len() ==> #[trigger] r@[k] == (k as usize, window_spec(self@, k)),
    {
        let mut it = self.windows();
        let mut out: Vec<(usize, u64)> = Vec::new();
        loop
            invariant
                it.wf(),
                it.bits@ == self@,
                out@.len() == it.offset,
                forall|k: int| 0 <= k < out@.len() ==> #[trigger] out@[k] == (k as usize, window_spec(self@, k)),
            ensures
                out@.len() == bit_len(self@),
                forall|k: int| 0 <= k < out@.len() ==> #[trigger] out@[k] == (k as usize, window_spec(self@, k)),
            decreases bit_len(self@) - it.offset,
        {
            match it.next() {
                Some(pair) => {
                    out.push(pair);
                },
                None => {
                    break;
                },
            }
        }
        out
    }
}

/// Value of a text pattern of ASCII `0`/`1` digits, most significant first.
pub open spec fn pattern_value(digits: Seq<u8>) -> nat
    decreases digits.len(),
{
    if digits.len() == 0 {
        0
    } else {
        pattern_value(digits.drop_last()) * 2 + (if digits.last() == 0x31u8 { 1nat } else { 0nat })
    }
}

/// Numeric value of a pattern of at most 64 `0`/`1` digits.
pub fn pattern_bytes(bytes: &[u8]) -> (v: u64)
    requires
        bytes@.len() <= 64,
        forall|i: int| 0 <= i < bytes@.len() ==> bytes@[i] == 0x30u8 || bytes@[i] == 0x31u8,
    ensures
        v as nat == pattern_value(bytes@),
{
    let mut value: u64 = 0;
    let mut i: usize = 0;
    proof {
        lemma2_to64();
        lemma2_to64_rest();
    }
    while i < bytes.len()
        invariant
            i <= bytes@.len() <= 64,
            forall|k: int| 0 <= k < bytes@.len() ==> bytes@[k] == 0x30u8 || bytes@[k] == 0x31u8,
            value as nat == pattern_value(bytes@.subrange(0, i as int)),
            value < pow2(i as nat),
            pow2(63) == 0x8000_0000_0000_0000,
        decreases bytes@.len() - i,
    {
        proof {
            if i < 63 {
                lemma_pow2_strictly_increases(i as nat, 63);
            }
            lemma_pow2_unfold((i + 1) as nat);
            assert(bytes@.subrange(0, i + 1).drop_last() =~= bytes@.subrange(0, i as int));
        }
        let digit: u64 = if bytes[i] == 0x31u8 { 1 } else { 0 };
        value = value * 2 + digit;
        i += 1;
    }
    proof {
        assert(bytes@.subrange(0, i as int) =~= bytes@);
    }
    value
}

/// Rolling 64-bit windows over a bit buffer; past the end, windows are zero-filled.
pub struct Windows<'a> {
    pub bits: Bits<'a>,
    pub offset: usize,
    pub value: u64,
}

impl<'a> Windows<'a> {
    pub open spec fn wf(&self) -> bool {
        &&& self.bits@.len() * 8 + 64 <= usize::MAX
        &&& self.offset <= bit_len(self.bits@)
        &&& self.value == window_spec(self.bits@, self.offset as int)
    }

    /// The next `(offset, window)` pair, or `None` once every bit offset was produced.
    pub fn next(&mut self) -> (r: Option<(usize, u64)>)
        requires
            old(self).wf(),
        ensures
            final(self).wf(),
            final(self).bits == old(self).bits,
            old(self).offset < bit_len(old(self).bits@) ==> r == Some(
                (old(self).offset, old(self).value),
            ) && final(self).offset == old(self).offset + 1,
            old(self).offset >= bit_len(old(self).bits@) ==> r is None && final(self).offset
                == old(self).offset,
    {
        let len = self.bits.len();
        if self.offset >= len {
            return None;
        }
        let result = (self.offset, self.value);
        let b = self.bits.bit(self.offset + 64);
        proof {
            lemma_window_step(self.bits@, self.offset as int);
            lemma2_to64();
            lemma2_to64_rest();
            lemma_bit_of_le_1(self.bits@, self.offset + 64);
        }
        self.value = (self.value % 0x8000_0000_0000_0000u64) * 2 + b;
        self.offset += 1;
        Some(result)
    }
}

} // verus!
