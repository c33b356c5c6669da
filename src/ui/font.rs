use vstd::prelude::*;

verus! {

/// Bit `k` of `v`.
pub open spec fn bit_of(v: u64, k: int) -> bool {
    (v >> (k as u64)) & 1u64 == 1u64
}

/// `r` holds the bits of `v` in reverse order.
pub open spec fn is_reverse(v: u64, r: u64) -> bool {
    forall|k: int| 0 <= k < 64 ==> #[trigger] bit_of(r, k) == bit_of(v, 63 - k)
}

proof fn lemma_set_bit(r: u64, n: u64, k: u64, b: bool)
    requires
        n < 64,
        k < 64,
    ensures
        ((((r | (if b { 1u64 << n } else { 0u64 })) >> k) & 1u64) == 1u64) == ((((r >> k) & 1u64) == 1u64) || (b && n == k)),
{
    if b {
        assert(((((r | (1u64 << n)) >> k) & 1u64) == 1u64) == ((((r >> k) & 1u64) == 1u64) || n == k)) by (bit_vector)
            requires
                n < 64,
                k < 64,
        ;
    } else {
        assert((r | 0u64) == r) by (bit_vector);
    }
}

proof fn lemma_zero_bits(k: u64)
    requires
        k < 64,
    ensures
        ((0u64 >> k) & 1u64) != 1u64,
{
    assert(((0u64 >> k) & 1u64) != 1u64) by (bit_vector);
}

/// `v` with its 64 bits in reverse order.
pub fn reverse_bits(v: u64) -> (r: u64)
    ensures
        is_reverse(v, r),
{
    let mut r: u64 = 0;
    let mut k: u64 = 0;
    assert forall|j: int| 0 <= j < 64 implies !#[trigger] bit_of(0u64, j) by {
        lemma_zero_bits(j as u64);
    }
    while k < 64
        invariant
            k <= 64,
            forall|j: int| 0 <= j < k ==> #[trigger] bit_of(r, j) == bit_of(v, 63 - j),
            forall|j: int| k <= j < 64 ==> !#[trigger] bit_of(r, j),
        decreases 64 - k,
    {
        let b = (v >> (63 - k)) & 1u64 == 1u64;
        let ghost before = r;
        r = r | (if b { 1u64 << k } else { 0u64 });
        proof {
            assert forall|j: int| 0 <= j < 64 implies #[trigger] bit_of(r, j) == (bit_of(before, j) || (b && j == k)) by {
                lemma_set_bit(before, k, j as u64, b);
            }
        }
        k = k + 1;
    }
    r
}

/// `16` to the power `n`.
pub open spec fn pow16(n: nat) -> nat
    decreases n,
{
    if n == 0 {
        1
    } else {
        16 * pow16((n - 1) as nat)
    }
}

proof fn lemma_pow16_monotonic(a: nat, b: nat)
    requires
        a <= b,
    ensures
        pow16(a) <= pow16(b),
    decreases b - a,
{
    if a < b {
        lemma_pow16_monotonic(a, (b - 1) as nat);
    }
}

/// Value of the ASCII hexadecimal digit `c`, if it is one.
pub open spec fn hex_digit(c: u8) -> Option<nat> {
    if 48 <= c <= 57 {
        Some((c - 48) as nat)
    } else if 97 <= c <= 102 {
        Some((c - 87) as nat)
    } else if 65 <= c <= 70 {
        Some((c - 55) as nat)
    } else {
        None
    }
}

/// Value of the hexadecimal numeral `s`; none if it is empty or holds a
/// byte that is not a hexadecimal digit.
pub open spec fn hex_number(s: Seq<u8>) -> Option<nat>
    decreases s.len(),
{
    if s.len() == 0 {
        None
    } else if s.len() == 1 {
        hex_digit(s[0])
    } else {
        match (hex_number(s.drop_last()), hex_digit(s.last())) {
            (Some(a), Some(d)) => Some(a * 16 + d),
            _ => None,
        }
    }
}

fn hex_digit_exec(c: u8) -> (r: Option<u64>)
    ensures
        match hex_digit(c) {
            Some(d) => r == Some(d as u64),
            None => r is None,
        },
{
    if 48 <= c && c <= 57 {
        Some((c - 48) as u64)
    } else if 97 <= c && c <= 102 {
        Some((c - 87) as u64)
    } else if 65 <= c && c <= 70 {
        Some((c - 55) as u64)
    } else {
        None
    }
}

/// The value of the hexadecimal numeral made of bytes `from..to` of
/// `text`, if it has at most 16 digits.
pub fn parse_hex(text: &[u8], from: usize, to: usize) -> (r: Option<u64>)
    requires
        from <= to <= text@.len(),
    ensures
        to - from <= 16 ==> match hex_number(text@.subrange(from as int, to as int)) {
            Some(v) => r == Some(v as u64),
            None => r is None,
        },
        to - from > 16 ==> r is None,
        to - from <= 16 ==> (hex_number(text@.subrange(from as int, to as int)) matches Some(v) ==> v <= u64::MAX),
{
    if to - from > 16 || to == from {
        return None;
    }
    let mut acc: u64 = 0;
    let mut i: usize = from;
    proof {
        reveal_with_fuel(pow16, 17);
        assert(pow16(16) == 0x1_0000_0000_0000_0000);
    }
    while i < to
        invariant
            from <= i <= to <= text@.len(),
            to - from <= 16,
            to > from,
            i == from ==> acc == 0,
            i > from ==> hex_number(text@.subrange(from as int, i as int)) == Some(acc as nat),
            acc < pow16((i - from) as nat),
            pow16(16) == 0x1_0000_0000_0000_0000,
        decreases to - i,
    {
        let c = text[i];
        let ghost s = text@.subrange(from as int, i as int + 1);
        assert(s.drop_last() =~= text@.subrange(from as int, i as int));
        assert(s.last() == c);
        match hex_digit_exec(c) {
            None => {
                proof {
                    lemma_hex_none_extends(text@, from as int, i as int + 1, to as int);
                }
                return None;
            },
            Some(d) => {
                proof {
                    let p = pow16((i - from) as nat);
                    assert(pow16((i + 1 - from) as nat) == 16 * p);
                    assert(acc * 16 + d < 16 * p) by (nonlinear_arith)
                        requires
                            acc < p,
                            d < 16,
                    ;
                    lemma_pow16_monotonic((i + 1 - from) as nat, 16);
                    if i == from {
                        assert(s.len() == 1);
                    }
                }
                acc = acc * 16 + d;
            },
        }
        i = i + 1;
    }
    Some(acc)
}

/// A numeral that holds a non-digit stays invalid however it goes on.
proof fn lemma_hex_none_extends(text: Seq<u8>, from: int, i: int, to: int)
    requires
        0 <= from < i <= to <= text.len(),
        hex_number(text.subrange(from, i)) is None,
    ensures
        hex_number(text.subrange(from, to)) is None,
    decreases to - i,
{
    if i < to {
        let s = text.subrange(from, i + 1);
        assert(s.drop_last() =~= text.subrange(from, i));
        lemma_hex_none_extends(text, from, i + 1, to);
    }
}

/// The big-endian value of the 8 bytes of `b` from `at`.
pub open spec fn be_u64(b: Seq<u8>, at: int) -> nat {
    (b[at] as nat) * 0x0100_0000_0000_0000 + (b[at + 1] as nat) * 0x0001_0000_0000_0000 + (b[at + 2] as nat)
        * 0x0000_0100_0000_0000 + (b[at + 3] as nat) * 0x0000_0001_0000_0000 + (b[at + 4] as nat) * 0x0000_0000_0100_0000
        + (b[at + 5] as nat) * 0x0000_0000_0001_0000 + (b[at + 6] as nat) * 0x0000_0000_0000_0100 + (b[at + 7] as nat)
}

/// Fills `glyphs` from an Impulse Tracker font (ITF): each 8 bytes are one
/// glyph, top row first, leftmost pixel in the high bit; glyph `i` is stored
/// bit-reversed so that bit `row * 8 + col` is its pixel. Bytes past the last
/// whole glyph, and glyphs past the end of `glyphs`, are ignored.
pub fn glyphs_from_itf(data: &[u8], glyphs: &mut Vec<u64>)
    ensures
        final(glyphs)@.len() == old(glyphs)@.len(),
        forall|i: int|
            0 <= i < old(glyphs)@.len() ==> if i < data@.len() / 8 {
                be_u64(data@, 8 * i) <= u64::MAX && is_reverse(be_u64(data@, 8 * i) as u64, #[trigger] final(glyphs)@[i])
            } else {
                final(glyphs)@[i] == old(glyphs)@[i]
            },
{
    let len = data.len();
    let n = len / 8;
    let mut i: usize = 0;
    while i < n && i < glyphs.len()
        invariant
            len == data@.len(),
            n == data@.len() / 8,
            i <= n,
            glyphs@.len() == old(glyphs)@.len(),
            forall|j: int|
                0 <= j < old(glyphs)@.len() ==> if j < i {
                    be_u64(data@, 8 * j) <= u64::MAX && is_reverse(be_u64(data@, 8 * j) as u64, #[trigger] glyphs@[j])
                } else {
                    glyphs@[j] == old(glyphs)@[j]
                },
        decreases n - i,
    {
        assert(8 * i + 8 <= data@.len()) by (nonlinear_arith)
            requires
                i < n,
                n == data@.len() / 8,
        ;
        let at = 8 * i;
        let v: u64 = (data[at] as u64) * 0x0100_0000_0000_0000 + (data[at + 1] as u64) * 0x0001_0000_0000_0000 + (data[at
            + 2] as u64) * 0x0000_0100_0000_0000 + (data[at + 3] as u64) * 0x0000_0001_0000_0000 + (data[at + 4] as u64)
            * 0x0000_0000_0100_0000 + (data[at + 5] as u64) * 0x0000_0000_0001_0000 + (data[at + 6] as u64)
            * 0x0000_0000_0000_0100 + (data[at + 7] as u64);
        glyphs.set(i, reverse_bits(v));
        i = i + 1;
    }
}

/// What reading a Unifont HEX text up to some point has found.
pub struct HexScan {
    /// The last value given to each glyph slot, if any.
    pub values: Seq<Option<u64>>,
    /// The index of the current line, once its `:` was read and if valid.
    pub index: Option<nat>,
    /// Where the current field starts.
    pub start: nat,
}

/// A field of at most 16 hexadecimal digits.
pub open spec fn hex_field(s: Seq<u8>) -> Option<nat> {
    if s.len() <= 16 {
        hex_number(s)
    } else {
        None
    }
}

/// Reading the first `n` bytes of a HEX text into `slots` glyph slots:
/// lines are `index:data`, both in hexadecimal; a line whose index or data
/// is not a numeral of at most 16 digits, or whose index has no slot, is
/// skipped.
pub open spec fn hex_scan(text: Seq<u8>, n: nat, slots: nat) -> HexScan
    decreases n,
{
    if n == 0 {
        HexScan { values: Seq::new(slots, |i: int| None::<u64>), index: None, start: 0 }
    } else {
        let st = hex_scan(text, (n - 1) as nat, slots);
        let c = text[n - 1];
        let field = text.subrange(st.start as int, n - 1);
        if c == 58 {
            HexScan { index: hex_field(field), start: n, ..st }
        } else if c == 10 {
            let values = match (st.index, hex_field(field)) {
                (Some(ix), Some(v)) => if ix < slots {
                    st.values.update(ix as int, Some(v as u64))
                } else {
                    st.values
                },
                _ => st.values,
            };
            HexScan { values, start: n, ..st }
        } else {
            st
        }
    }
}

/// Fills `glyphs` from the bytes of a Unifont HEX file: for each line
/// `index:data`, the
/// glyph at `index` becomes `data` bit-reversed (so that bit `row * 8 + col`
/// is its pixel); other glyphs keep their value.
pub fn glyphs_from_hex(text: &[u8], glyphs: &mut Vec<u64>)
    ensures
        final(glyphs)@.len() == old(glyphs)@.len(),
        forall|i: int|
            0 <= i < old(glyphs)@.len() ==> match hex_scan(text@, text@.len(), old(glyphs)@.len()).values[i] {
                Some(v) => is_reverse(v, #[trigger] final(glyphs)@[i]),
                None => final(glyphs)@[i] == old(glyphs)@[i],
            },
{
    let n = text.len();
    let slots = glyphs.len();
    let mut i: usize = 0;
    let mut start: usize = 0;
    let mut index: Option<u64> = None;
    while i < n
        invariant
            n == text@.len(),
            i <= n,
            start <= i,
            slots == old(glyphs)@.len(),
            glyphs@.len() == slots,
            hex_scan(text@, i as nat, slots as nat).start == start,
            hex_scan(text@, i as nat, slots as nat).values.len() == slots,
            hex_scan(text@, i as nat, slots as nat).index matches Some(ix) ==> ix <= u64::MAX,
            match hex_scan(text@, i as nat, slots as nat).index {
                Some(ix) => index == Some(ix as u64),
                None => index is None,
            },
            forall|j: int|
                0 <= j < slots ==> match hex_scan(text@, i as nat, slots as nat).values[j] {
                    Some(v) => is_reverse(v, #[trigger] glyphs@[j]),
                    None => glyphs@[j] == old(glyphs)@[j],
                },
        decreases n - i,
    {
        let c = text[i];
        let ghost before = glyphs@;
        if c == 58 {
            index = parse_hex(text, start, i);
            start = i + 1;
        } else if c == 10 {
            let data = parse_hex(text, start, i);
            if let (Some(ix), Some(v)) = (index, data) {
                if ix < slots as u64 {
                    let g = reverse_bits(v);
                    glyphs.set(ix as usize, g);
                    assert forall|j: int| 0 <= j < slots && j != ix implies #[trigger] glyphs@[j] == before[j] by {}
                }
            }
            start = i + 1;
        }
        i = i + 1;
    }
}

} // verus!
