//! Small byte-string helpers shared by the parser and the caches.

use vstd::prelude::*;

verus! {

/// Byte-wise equality of two slices.
pub fn bytes_eq(a: &[u8], b: &[u8]) -> (r: bool)
    ensures
        r == (a@ == b@),
{
    if a.len() != b.len() {
        assert(a@ != b@) by {
            assert(a@.len() != b@.len());
        }
        return false;
    }
    let mut i: usize = 0;
    while i < a.len()
        invariant
            i <= a@.len(),
            a@.len() == b@.len(),
            forall|j: int| 0 <= j < i ==> a@[j] == b@[j],
        decreases a@.len() - i,
    {
        if a[i] != b[i] {
            return false;
        }
        i += 1;
    }
    proof {
        assert(a@ =~= b@);
    }
    true
}

/// Copies a byte slice into a fresh vector with the same contents.
pub fn copy_bytes(s: &[u8]) -> (r: Vec<u8>)
    ensures
        r@ == s@,
{
    let mut copy: Vec<u8> = Vec::new();
    let mut i: usize = 0;
    while i < s.len()
        invariant
            i <= s@.len(),
            copy@ == s@.take(i as int),
        decreases s@.len() - i,
    {
        copy.push(s[i]);
        i += 1;
    }
    proof {
        assert(copy@ =~= s@);
    }
    copy
}

/// Copies `s[from..to]` into a fresh vector.
pub fn copy_range(s: &[u8], from: usize, to: usize) -> (r: Vec<u8>)
    requires
        from <= to <= s@.len(),
    ensures
        r@ == s@.subrange(from as int, to as int),
{
    let mut copy: Vec<u8> = Vec::new();
    let mut i: usize = from;
    while i < to
        invariant
            from <= i <= to <= s@.len(),
            copy@ == s@.subrange(from as int, i as int),
        decreases to - i,
    {
        copy.push(s[i]);
        proof {
            assert(copy@ =~= s@.subrange(from as int, i + 1 as int));
        }
        i += 1;
    }
    copy
}

/// Appends a byte slice onto a vector.
pub fn push_bytes(out: &mut Vec<u8>, s: &[u8])
    ensures
        final(out)@ == old(out)@ + s@,
{
    let mut i: usize = 0;
    while i < s.len()
        invariant
            i <= s@.len(),
            out@ == old(out)@ + s@.take(i as int),
        decreases s@.len() - i,
    {
        out.push(s[i]);
        i += 1;
    }
    proof {
        assert(old(out)@ + s@.take(s@.len() as int) =~= old(out)@ + s@);
    }
}

/// Decimal digits of `v`, most significant first.
pub open spec fn spec_digits(v: nat) -> Seq<u8>
    decreases v,
{
    if v < 10 {
        seq![(v + 48) as u8]
    } else {
        spec_digits(v / 10) + seq![((v % 10) + 48) as u8]
    }
}

/// Decimal rendering of a signed value: a minus sign, then the digits.
pub open spec fn spec_int_bytes(v: int) -> Seq<u8> {
    if v < 0 {
        seq!['-' as u8] + spec_digits((-v) as nat)
    } else {
        spec_digits(v as nat)
    }
}

/// Renders an unsigned value in decimal.
pub fn u64_to_bytes(v: u64) -> (r: Vec<u8>)
    ensures
        r@ == spec_digits(v as nat),
    decreases v,
{
    if v < 10 {
        let mut r: Vec<u8> = Vec::new();
        r.push((v as u8) + 48);
        proof {
            assert(r@ =~= spec_digits(v as nat));
        }
        r
    } else {
        let mut r = u64_to_bytes(v / 10);
        r.push(((v % 10) as u8) + 48);
        proof {
            assert(r@ =~= spec_digits(v as nat));
        }
        r
    }
}

/// Renders an unsigned value in decimal, for values past the u64 range.
pub fn u128_to_bytes(v: u128) -> (r: Vec<u8>)
    ensures
        r@ == spec_digits(v as nat),
    decreases v,
{
    if v < 10 {
        let mut r: Vec<u8> = Vec::new();
        r.push((v as u8) + 48);
        proof {
            assert(r@ =~= spec_digits(v as nat));
        }
        r
    } else {
        let mut r = u128_to_bytes(v / 10);
        r.push(((v % 10) as u8) + 48);
        proof {
            assert(r@ =~= spec_digits(v as nat));
        }
        r
    }
}

/// Renders a signed value in decimal.
pub fn i64_to_bytes(v: i64) -> (r: Vec<u8>)
    ensures
        r@ == spec_int_bytes(v as int),
{
    if v >= 0 {
        u64_to_bytes(v as u64)
    } else {
        let m: u64 = (-(v as i128)) as u64;
        let mut r: Vec<u8> = Vec::new();
        r.push('-' as u8);
        let ds = u64_to_bytes(m);
        push_bytes(&mut r, ds.as_slice());
        proof {
            assert(r@ =~= spec_int_bytes(v as int));
        }
        r
    }
}

/// ASCII lowercase folding, byte by byte.
pub open spec fn spec_lower(s: Seq<u8>) -> Seq<u8> {
    s.map_values(
        |c: u8|
            if ('A' as u8) <= c <= ('Z' as u8) {
                (c + 32) as u8
            } else {
                c
            },
    )
}

/// Folds ASCII uppercase letters to lowercase.
pub fn to_ascii_lower(s: &[u8]) -> (r: Vec<u8>)
    ensures
        r@ == spec_lower(s@),
{
    let mut out: Vec<u8> = Vec::new();
    let mut i: usize = 0;
    while i < s.len()
        invariant
            i <= s@.len(),
            out@ == spec_lower(s@).take(i as int),
        decreases s@.len() - i,
    {
        let c = s[i];
        if c >= 'A' as u8 && c <= 'Z' as u8 {
            out.push(c + 32);
        } else {
            out.push(c);
        }
        proof {
            assert(out@ =~= spec_lower(s@).take(i + 1 as int));
        }
        i += 1;
    }
    proof {
        assert(spec_lower(s@).take(s@.len() as int) =~= spec_lower(s@));
    }
    out
}

/// 256^n.
pub open spec fn pow256(n: nat) -> nat
    decreases n,
{
    if n == 0 {
        1
    } else {
        256 * pow256((n - 1) as nat)
    }
}

/// The `n`-byte little-endian form of `v`.
pub open spec fn le_bytes(v: nat, n: nat) -> Seq<u8>
    decreases n,
{
    if n == 0 {
        Seq::empty()
    } else {
        seq![(v % 256) as u8] + le_bytes(v / 256, (n - 1) as nat)
    }
}

/// The value of `n` little-endian bytes at `pos`.
pub open spec fn le_val(s: Seq<u8>, pos: int, n: nat) -> nat
    decreases n,
{
    if n == 0 {
        0
    } else if !(0 <= pos < s.len()) {
        0
    } else {
        (s[pos] + 256 * le_val(s, pos + 1, (n - 1) as nat)) as nat
    }
}

pub proof fn lemma_le_bytes_len(v: nat, n: nat)
    ensures
        le_bytes(v, n).len() == n,
    decreases n,
{
    if n > 0 {
        lemma_le_bytes_len(v / 256, (n - 1) as nat);
    }
}

/// Reading back `n` little-endian bytes recovers the written value.
pub proof fn lemma_le_roundtrip(s: Seq<u8>, pos: int, v: nat, n: nat)
    requires
        v < pow256(n),
        0 <= pos,
        pos + n <= s.len(),
        s.subrange(pos, pos + n) == le_bytes(v, n),
    ensures
        le_val(s, pos, n) == v,
    decreases n,
{
    if n > 0 {
        vstd::arithmetic::div_mod::lemma_fundamental_div_mod(v as int, 256);
        lemma_le_bytes_len(v, n);
        lemma_le_bytes_len(v / 256, (n - 1) as nat);
        assert(s[pos] == le_bytes(v, n)[0]);
        assert(s.subrange(pos + 1, pos + n) =~= s.subrange(pos, pos + n).subrange(
            1,
            n as int,
        ));
        assert(le_bytes(v, n).subrange(1, n as int) =~= le_bytes(v / 256, (n - 1) as nat));
        assert(v / 256 < pow256((n - 1) as nat)) by {
            assert(v < 256 * pow256((n - 1) as nat));
            vstd::arithmetic::div_mod::lemma_multiply_divide_lt(
                v as int,
                pow256((n - 1) as nat) as int,
                256,
            );
        }
        lemma_le_roundtrip(s, pos + 1, v / 256, (n - 1) as nat);
    }
}

pub proof fn lemma_pow256_8()
    ensures
        pow256(8) == 0x1_0000_0000_0000_0000,
{
    reveal_with_fuel(pow256, 9);
}

/// Appends the `n`-byte little-endian form of `v`.
pub fn push_le(out: &mut Vec<u8>, v: u64, n: u32)
    ensures
        final(out)@ == old(out)@ + le_bytes(v as nat, n as nat),
    decreases n,
{
    if n == 0 {
        proof {
            assert(old(out)@ + le_bytes(v as nat, 0) =~= old(out)@);
        }
    } else {
        out.push((v % 256) as u8);
        push_le(out, v / 256, n - 1);
        proof {
            assert(old(out)@ + le_bytes(v as nat, n as nat) =~= (old(out)@ + seq![(v % 256) as u8])
                + le_bytes((v / 256) as nat, (n - 1) as nat));
        }
    }
}

/// Reads `n` little-endian bytes at `pos`; the value stays below 256^n.
pub fn read_le(s: &[u8], pos: usize, n: u32) -> (r: Option<(u64, usize)>)
    requires
        n <= 8,
    ensures
        match r {
            Some(p) => pos + n <= s@.len() && p.0 == le_val(s@, pos as int, n as nat) && p.1
                == pos + n && p.0 < pow256(n as nat),
            None => pos + n > s@.len(),
        },
    decreases n,
{
    if n == 0 {
        if pos <= s.len() {
            Some((0, pos))
        } else {
            None
        }
    } else {
        if pos >= s.len() {
            return None;
        }
        match read_le(s, pos + 1, n - 1) {
            Some((rest, end)) => {
                proof {
                    assert(pow256(n as nat) == 256 * pow256((n - 1) as nat));
                    assert(256 * rest + 256 <= 256 * pow256((n - 1) as nat)) by (nonlinear_arith)
                        requires
                            rest < pow256((n - 1) as nat),
                    ;
                    lemma_pow256_8();
                    assert(pow256(n as nat) <= pow256(8)) by {
                        lemma_pow256_increases(n as nat, 8);
                    }
                }
                Some(((s[pos] as u64) + 256 * rest, end))
            }
            None => None,
        }
    }
}

pub proof fn lemma_pow256_increases(a: nat, b: nat)
    requires
        a <= b,
    ensures
        pow256(a) <= pow256(b),
    decreases b,
{
    if a < b {
        lemma_pow256_increases(a, (b - 1) as nat);
    }
}

} // verus!
