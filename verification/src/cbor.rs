//! Primitives of the self-describing binary tagged format used by every
//! codec type of the gateway: a small subset of the concise binary object
//! representation, covering unsigned integers, byte strings, text strings,
//! booleans and maps with known keys — plus the little-endian words the
//! candid argument format stores its fixed-width numbers in.
//!
//! Every item has a specification-level encoder and parser, and executable
//! counterparts proved equal to them. The typed codecs are built on top of
//! these in the codec module.

use vstd::prelude::*;

verus! {

/// 256 raised to the power `n`.
pub open spec fn pow256(n: nat) -> int
    decreases n,
{
    if n == 0 {
        1
    } else {
        256 * pow256((n - 1) as nat)
    }
}

/// The `n` big-endian base-256 digits of `v` (most significant first).
pub open spec fn be_bytes(v: int, n: nat) -> Seq<u8>
    decreases n,
{
    if n == 0 {
        Seq::empty()
    } else {
        be_bytes(v / 256, (n - 1) as nat).push((v % 256) as u8)
    }
}

/// The value of a big-endian base-256 digit string.
pub open spec fn from_be(s: Seq<u8>) -> int
    decreases s.len(),
{
    if s.len() == 0 {
        0
    } else {
        from_be(s.drop_last()) * 256 + s.last()
    }
}

pub proof fn lemma_be_bytes_len(v: int, n: nat)
    ensures
        be_bytes(v, n).len() == n,
    decreases n,
{
    if n > 0 {
        lemma_be_bytes_len(v / 256, (n - 1) as nat);
    }
}

pub proof fn lemma_from_be_bound(s: Seq<u8>)
    ensures
        0 <= from_be(s) < pow256(s.len()),
    decreases s.len(),
{
    if s.len() == 0 {
    } else {
        lemma_from_be_bound(s.drop_last());
        assert(from_be(s.drop_last()) * 256 + s.last() < pow256((s.len() - 1) as nat) * 256) by (nonlinear_arith)
            requires
                from_be(s.drop_last()) < pow256((s.len() - 1) as nat),
                s.last() < 256,
        ;
        assert(pow256((s.len() - 1) as nat) * 256 == pow256(s.len()));
        assert(from_be(s.drop_last()) * 256 + s.last() >= 0) by (nonlinear_arith)
            requires
                from_be(s.drop_last()) >= 0,
                s.last() >= 0,
        ;
    }
}

pub proof fn lemma_from_be_be_bytes(v: int, n: nat)
    requires
        0 <= v < pow256(n),
    ensures
        from_be(be_bytes(v, n)) == v,
    decreases n,
{
    if n == 0 {
    } else {
        lemma_be_bytes_len(v / 256, (n - 1) as nat);
        assert(v / 256 < pow256((n - 1) as nat)) by (nonlinear_arith)
            requires
                0 <= v < 256 * pow256((n - 1) as nat),
        ;
        lemma_from_be_be_bytes(v / 256, (n - 1) as nat);
        let s = be_bytes(v, n);
        assert(s.drop_last() =~= be_bytes(v / 256, (n - 1) as nat));
        assert(from_be(s) == (v / 256) * 256 + v % 256);
    }
}

/// Header of one data item: `major` in the top three bits, then the minimal
/// encoding of the unsigned argument `v`.
pub open spec fn enc_head(major: u8, v: u64) -> Seq<u8> {
    if v < 24 {
        seq![(major * 32 + v) as u8]
    } else if v < 0x100 {
        seq![(major * 32 + 24) as u8] + be_bytes(v as int, 1)
    } else if v < 0x10000 {
        seq![(major * 32 + 25) as u8] + be_bytes(v as int, 2)
    } else if v < 0x100000000 {
        seq![(major * 32 + 26) as u8] + be_bytes(v as int, 4)
    } else {
        seq![(major * 32 + 27) as u8] + be_bytes(v as int, 8)
    }
}

/// Parses one header of major type `major` at `pos`; returns the argument
/// value and the position after the header.
pub open spec fn sp_head(s: Seq<u8>, pos: int, major: u8) -> Option<(u64, int)> {
    if !(0 <= pos < s.len()) {
        None
    } else {
        let b = s[pos];
        if b / 32 != major {
            None
        } else {
            let low = b % 32;
            if low < 24 {
                Some((low as u64, pos + 1))
            } else if low == 24 && pos + 2 <= s.len() {
                Some((from_be(s.subrange(pos + 1, pos + 2)) as u64, pos + 2))
            } else if low == 25 && pos + 3 <= s.len() {
                Some((from_be(s.subrange(pos + 1, pos + 3)) as u64, pos + 3))
            } else if low == 26 && pos + 5 <= s.len() {
                Some((from_be(s.subrange(pos + 1, pos + 5)) as u64, pos + 5))
            } else if low == 27 && pos + 9 <= s.len() {
                Some((from_be(s.subrange(pos + 1, pos + 9)) as u64, pos + 9))
            } else {
                None
            }
        }
    }
}

/// An encoded header parses back to the value it encodes.
pub proof fn lemma_head_round_trip(s: Seq<u8>, pos: int, major: u8, v: u64)
    requires
        major <= 7,
        0 <= pos,
        pos + enc_head(major, v).len() <= s.len(),
        s.subrange(pos, pos + enc_head(major, v).len()) == enc_head(major, v),
    ensures
        sp_head(s, pos, major) == Some((v, pos + enc_head(major, v).len())),
{
    let e = enc_head(major, v);
    let sub = s.subrange(pos, pos + e.len());
    if v < 24 {
        assert(s[pos] == sub[0]);
        assert(s[pos] == major * 32 + v);
        assert(s[pos] / 32 == major && s[pos] % 32 == v) by (nonlinear_arith)
            requires
                s[pos] == major * 32 + v,
                major <= 7,
                v < 24,
        ;
    } else {
        let (low, n): (u8, nat) = if v < 0x100 {
            (24u8, 1nat)
        } else if v < 0x10000 {
            (25u8, 2nat)
        } else if v < 0x100000000 {
            (26u8, 4nat)
        } else {
            (27u8, 8nat)
        };
        lemma_be_bytes_len(v as int, n);
        assert(e.len() == 1 + n);
        assert(s[pos] == sub[0]);
        assert(s[pos] == major * 32 + low);
        assert(s[pos] / 32 == major && s[pos] % 32 == low) by (nonlinear_arith)
            requires
                s[pos] == major * 32 + low,
                major <= 7,
                24 <= low <= 27,
        ;
        assert(s.subrange(pos + 1, pos + 1 + n) =~= e.subrange(1, 1 + n as int));
        assert(e.subrange(1, 1 + n as int) =~= be_bytes(v as int, n));
        lemma_pow256_vals();
        if v < 0x100 {
            lemma_from_be_be_bytes(v as int, 1);
        } else if v < 0x10000 {
            lemma_from_be_be_bytes(v as int, 2);
        } else if v < 0x100000000 {
            lemma_from_be_be_bytes(v as int, 4);
        } else {
            lemma_from_be_be_bytes(v as int, 8);
        }
    }
}

/// Accepts the exact bytes of `lit` at `pos`; returns the position after them.
pub open spec fn sp_lit(s: Seq<u8>, pos: int, lit: Seq<u8>) -> Option<int> {
    if 0 <= pos && pos + lit.len() <= s.len() && s.subrange(pos, pos + lit.len()) == lit {
        Some(pos + lit.len())
    } else {
        None
    }
}

/// `n` raw bytes at `pos`.
pub open spec fn sp_raw(s: Seq<u8>, pos: int, n: u64) -> Option<(Seq<u8>, int)> {
    if 0 <= pos && pos + n <= s.len() {
        Some((s.subrange(pos, pos + n), pos + n))
    } else {
        None
    }
}

/// A byte string: its header, then its bytes.
pub open spec fn enc_bstr(b: Seq<u8>) -> Seq<u8> {
    enc_head(2, b.len() as u64) + b
}

pub open spec fn sp_bstr(s: Seq<u8>, pos: int) -> Option<(Seq<u8>, int)> {
    match sp_head(s, pos, 2) {
        None => None,
        Some((n, p)) => sp_raw(s, p, n),
    }
}

/// A text string, treated as raw bytes: its header, then its bytes.
pub open spec fn enc_tstr(b: Seq<u8>) -> Seq<u8> {
    enc_head(3, b.len() as u64) + b
}

pub open spec fn sp_tstr(s: Seq<u8>, pos: int) -> Option<(Seq<u8>, int)> {
    match sp_head(s, pos, 3) {
        None => None,
        Some((n, p)) => sp_raw(s, p, n),
    }
}

/// A boolean simple value.
pub open spec fn enc_bool(b: bool) -> Seq<u8> {
    if b {
        seq![0xf5u8]
    } else {
        seq![0xf4u8]
    }
}

pub open spec fn sp_bool(s: Seq<u8>, pos: int) -> Option<(bool, int)> {
    if 0 <= pos < s.len() {
        if s[pos] == 0xf5 {
            Some((true, pos + 1))
        } else if s[pos] == 0xf4 {
            Some((false, pos + 1))
        } else {
            None
        }
    } else {
        None
    }
}

/// A string whose header argument fits the format's eight-byte limit. Every
/// byte vector satisfies this.
pub open spec fn fits_u64(b: Seq<u8>) -> bool {
    b.len() < 0x10000000000000000
}

/// An encoded byte string parses back to itself.
pub proof fn lemma_bstr_round_trip(s: Seq<u8>, pos: int, b: Seq<u8>)
    requires
        fits_u64(b),
        0 <= pos,
        pos + enc_bstr(b).len() <= s.len(),
        s.subrange(pos, pos + enc_bstr(b).len()) == enc_bstr(b),
    ensures
        sp_bstr(s, pos) == Some((b, pos + enc_bstr(b).len())),
{
    let n = b.len() as u64;
    let h = enc_head(2, n);
    assert(s.subrange(pos, pos + h.len()) =~= enc_bstr(b).subrange(0, h.len() as int));
    assert(enc_bstr(b).subrange(0, h.len() as int) =~= h);
    lemma_head_round_trip(s, pos, 2, n);
    assert(s.subrange(pos + h.len(), pos + h.len() + n) =~= enc_bstr(b).subrange(
        h.len() as int,
        h.len() + n,
    ));
    assert(enc_bstr(b).subrange(h.len() as int, h.len() + n) =~= b);
}

/// An encoded text string parses back to itself.
pub proof fn lemma_tstr_round_trip(s: Seq<u8>, pos: int, b: Seq<u8>)
    requires
        fits_u64(b),
        0 <= pos,
        pos + enc_tstr(b).len() <= s.len(),
        s.subrange(pos, pos + enc_tstr(b).len()) == enc_tstr(b),
    ensures
        sp_tstr(s, pos) == Some((b, pos + enc_tstr(b).len())),
{
    let n = b.len() as u64;
    let h = enc_head(3, n);
    assert(s.subrange(pos, pos + h.len()) =~= enc_tstr(b).subrange(0, h.len() as int));
    assert(enc_tstr(b).subrange(0, h.len() as int) =~= h);
    lemma_head_round_trip(s, pos, 3, n);
    assert(s.subrange(pos + h.len(), pos + h.len() + n) =~= enc_tstr(b).subrange(
        h.len() as int,
        h.len() + n,
    ));
    assert(enc_tstr(b).subrange(h.len() as int, h.len() + n) =~= b);
}

/// A literal placed at `pos` parses past itself.
pub proof fn lemma_lit_round_trip(s: Seq<u8>, pos: int, lit: Seq<u8>)
    requires
        0 <= pos,
        pos + lit.len() <= s.len(),
        s.subrange(pos, pos + lit.len()) == lit,
    ensures
        sp_lit(s, pos, lit) == Some((pos + lit.len())),
{
}

/// An encoded boolean parses back to itself.
pub proof fn lemma_bool_round_trip(s: Seq<u8>, pos: int, b: bool)
    requires
        0 <= pos,
        pos + 1 <= s.len(),
        s.subrange(pos, pos + 1) == enc_bool(b),
    ensures
        sp_bool(s, pos) == Some((b, pos + 1)),
{
    assert(s[pos] == s.subrange(pos, pos + 1)[0]);
}

/// Appends the `n` big-endian base-256 digits of `v`.
pub fn push_be(out: &mut Vec<u8>, v: u64, n: u8)
    requires
        n <= 8,
    ensures
        final(out)@ == old(out)@ + be_bytes(v as int, n as nat),
    decreases n,
{
    if n == 0 {
        proof {
            assert(out@ =~= out@ + be_bytes(v as int, 0));
        }
        return ;
    }
    push_be(out, v / 256, n - 1);
    out.push((v % 256) as u8);
    proof {
        assert(out@ =~= old(out)@ + be_bytes(v as int, n as nat));
    }
}

/// Appends the header of one data item.
pub fn push_head(out: &mut Vec<u8>, major: u8, v: u64)
    requires
        major <= 7,
    ensures
        final(out)@ == old(out)@ + enc_head(major, v),
{
    if v < 24 {
        out.push(major * 32 + (v as u8));
        proof {
            assert(out@ =~= old(out)@ + enc_head(major, v));
        }
    } else if v < 0x100 {
        out.push(major * 32 + 24);
        push_be(out, v, 1);
        proof {
            assert(out@ =~= old(out)@ + enc_head(major, v));
        }
    } else if v < 0x10000 {
        out.push(major * 32 + 25);
        push_be(out, v, 2);
        proof {
            assert(out@ =~= old(out)@ + enc_head(major, v));
        }
    } else if v < 0x100000000 {
        out.push(major * 32 + 26);
        push_be(out, v, 4);
        proof {
            assert(out@ =~= old(out)@ + enc_head(major, v));
        }
    } else {
        out.push(major * 32 + 27);
        push_be(out, v, 8);
        proof {
            assert(out@ =~= old(out)@ + enc_head(major, v));
        }
    }
}

/// Appends the bytes of `src`.
pub fn push_raw(out: &mut Vec<u8>, src: &Vec<u8>)
    ensures
        final(out)@ == old(out)@ + src@,
{
    let mut i: usize = 0;
    while i < src.len()
        invariant
            i <= src@.len(),
            out@ == old(out)@ + src@.subrange(0, i as int),
        decreases src@.len() - i,
    {
        out.push(src[i]);
        i += 1;
        proof {
            assert(out@ =~= old(out)@ + src@.subrange(0, i as int));
        }
    }
    proof {
        assert(out@ =~= old(out)@ + src@);
    }
}

/// Appends a byte string: header, then bytes.
pub fn push_bstr(out: &mut Vec<u8>, b: &Vec<u8>)
    ensures
        final(out)@ == old(out)@ + enc_bstr(b@),
{
    push_head(out, 2, b.len() as u64);
    push_raw(out, b);
    proof {
        assert(out@ =~= old(out)@ + enc_bstr(b@));
    }
}

/// Appends a text string: header, then bytes.
pub fn push_tstr(out: &mut Vec<u8>, b: &Vec<u8>)
    ensures
        final(out)@ == old(out)@ + enc_tstr(b@),
{
    push_head(out, 3, b.len() as u64);
    push_raw(out, b);
    proof {
        assert(out@ =~= old(out)@ + enc_tstr(b@));
    }
}

/// Appends a boolean simple value.
pub fn push_bool(out: &mut Vec<u8>, b: bool)
    ensures
        final(out)@ == old(out)@ + enc_bool(b),
{
    if b {
        out.push(0xf5);
    } else {
        out.push(0xf4);
    }
    proof {
        assert(out@ =~= old(out)@ + enc_bool(b));
    }
}

/// Reads one header of major type `major` at `pos`.
pub fn p_head(data: &Vec<u8>, pos: usize, major: u8) -> (r: Option<(u64, usize)>)
    requires
        major <= 7,
    ensures
        match r {
            Some(t) => sp_head(data@, pos as int, major) == Some((t.0, t.1 as int)) && t.1
                <= data@.len(),
            None => sp_head(data@, pos as int, major) is None,
        },
{
    if pos >= data.len() {
        return None;
    }
    let b = data[pos];
    if b / 32 != major {
        return None;
    }
    let low = b % 32;
    if low < 24 {
        Some((low as u64, pos + 1))
    } else if low == 24 {
        read_be(data, pos + 1, 1)
    } else if low == 25 {
        read_be(data, pos + 1, 2)
    } else if low == 26 {
        read_be(data, pos + 1, 4)
    } else if low == 27 {
        read_be(data, pos + 1, 8)
    } else {
        None
    }
}

/// Reads `n` big-endian bytes at `pos` as an unsigned value.
fn read_be(data: &Vec<u8>, pos: usize, n: u8) -> (r: Option<(u64, usize)>)
    requires
        n <= 8,
        pos >= 1,
    ensures
        match r {
            Some(t) => pos + n <= data@.len() && t.0 == from_be(
                data@.subrange(pos as int, pos + n),
            ) && t.1 == pos + n,
            None => pos + n > data@.len(),
        },
{
    let dlen: usize = data.len();
    if dlen < n as usize || pos > dlen - n as usize {
        return None;
    }
    let mut v: u64 = 0;
    let mut i: usize = 0;
    while i < n as usize
        invariant
            i <= n,
            n <= 8,
            dlen == data@.len(),
            pos + n <= dlen,
            v == from_be(data@.subrange(pos as int, pos + i)),
            v < pow256(i as nat),
        decreases n - i,
    {
        proof {
            let sub = data@.subrange(pos as int, pos + i + 1);
            assert(sub.drop_last() =~= data@.subrange(pos as int, pos + i));
            assert(sub.last() == data@[pos + i]);
            assert(v * 256 + data@[pos + i] < pow256(i as nat) * 256) by (nonlinear_arith)
                requires
                    v < pow256(i as nat),
                    data@[pos + i] < 256,
                    v >= 0,
            ;
            assert(pow256(i as nat) * 256 == pow256((i + 1) as nat));
            assert(pow256((i + 1) as nat) <= pow256(8)) by {
                lemma_pow256_le((i + 1) as nat, 8);
            }
            lemma_pow256_vals();
        }
        v = v * 256 + data[pos + i] as u64;
        i += 1;
    }
    proof {
        assert(data@.subrange(pos as int, pos + i) =~= data@.subrange(pos as int, pos + n));
    }
    Some((v, pos + n as usize))
}

proof fn lemma_pow256_le(a: nat, b: nat)
    requires
        a <= b,
    ensures
        pow256(a) <= pow256(b),
    decreases b,
{
    if a < b {
        lemma_pow256_le(a, (b - 1) as nat);
        lemma_pow256_pos((b - 1) as nat);
        assert(pow256((b - 1) as nat) <= 256 * pow256((b - 1) as nat)) by (nonlinear_arith)
            requires
                pow256((b - 1) as nat) >= 1,
        ;
    }
}

/// The values of `pow256` the format's headers rely on.
pub proof fn lemma_pow256_vals()
    ensures
        pow256(0) == 1,
        pow256(1) == 256,
        pow256(2) == 0x10000,
        pow256(4) == 0x100000000,
        pow256(8) == 0x10000000000000000,
{
    reveal_with_fuel(pow256, 9);
}

proof fn lemma_pow256_pos(n: nat)
    ensures
        pow256(n) >= 1,
    decreases n,
{
    if n > 0 {
        lemma_pow256_pos((n - 1) as nat);
    }
}

/// Accepts the exact bytes of `lit` at `pos`.
pub fn p_lit(data: &Vec<u8>, pos: usize, lit: &Vec<u8>) -> (r: Option<usize>)
    ensures
        match r {
            Some(p) => sp_lit(data@, pos as int, lit@) == Some(p as int) && p <= data@.len(),
            None => sp_lit(data@, pos as int, lit@) is None,
        },
{
    let dlen: usize = data.len();
    let llen: usize = lit.len();
    if pos > dlen || llen > dlen - pos {
        return None;
    }
    let mut i: usize = 0;
    while i < llen
        invariant
            i <= llen,
            llen == lit@.len(),
            dlen == data@.len(),
            pos + llen <= dlen,
            forall|j: int| 0 <= j < i ==> data@[pos + j] == lit@[j],
        decreases llen - i,
    {
        if data[pos + i] != lit[i] {
            proof {
                assert(data@.subrange(pos as int, pos + lit@.len())[i as int] != lit@[i as int]);
            }
            return None;
        }
        i += 1;
    }
    proof {
        assert(data@.subrange(pos as int, pos + lit@.len()) =~= lit@);
    }
    Some(pos + lit.len())
}

/// Reads the `n` raw bytes at `pos`.
pub fn p_raw(data: &Vec<u8>, pos: usize, n: u64) -> (r: Option<(Vec<u8>, usize)>)
    ensures
        match r {
            Some(t) => sp_raw(data@, pos as int, n) == Some((t.0@, t.1 as int)) && t.1
                <= data@.len(),
            None => sp_raw(data@, pos as int, n) is None,
        },
{
    let dlen: usize = data.len();
    if pos > dlen || n > (dlen - pos) as u64 {
        return None;
    }
    let n = n as usize;
    let mut out: Vec<u8> = Vec::new();
    let mut i: usize = 0;
    while i < n
        invariant
            i <= n,
            dlen == data@.len(),
            pos + n <= dlen,
            out@ == data@.subrange(pos as int, pos + i),
        decreases n - i,
    {
        out.push(data[pos + i]);
        i += 1;
        proof {
            assert(out@ =~= data@.subrange(pos as int, pos + i));
        }
    }
    Some((out, pos + n))
}

/// Reads a byte string at `pos`.
pub fn p_bstr(data: &Vec<u8>, pos: usize) -> (r: Option<(Vec<u8>, usize)>)
    ensures
        match r {
            Some(t) => sp_bstr(data@, pos as int) == Some((t.0@, t.1 as int)) && t.1
                <= data@.len(),
            None => sp_bstr(data@, pos as int) is None,
        },
{
    match p_head(data, pos, 2) {
        None => None,
        Some((n, p)) => p_raw(data, p, n),
    }
}

/// Reads a text string at `pos`, as raw bytes.
pub fn p_tstr(data: &Vec<u8>, pos: usize) -> (r: Option<(Vec<u8>, usize)>)
    ensures
        match r {
            Some(t) => sp_tstr(data@, pos as int) == Some((t.0@, t.1 as int)) && t.1
                <= data@.len(),
            None => sp_tstr(data@, pos as int) is None,
        },
{
    match p_head(data, pos, 3) {
        None => None,
        Some((n, p)) => p_raw(data, p, n),
    }
}

/// Reads a boolean simple value at `pos`.
pub fn p_bool(data: &Vec<u8>, pos: usize) -> (r: Option<(bool, usize)>)
    ensures
        match r {
            Some(t) => sp_bool(data@, pos as int) == Some((t.0, t.1 as int)) && t.1
                <= data@.len(),
            None => sp_bool(data@, pos as int) is None,
        },
{
    if pos >= data.len() {
        return None;
    }
    let b = data[pos];
    if b == 0xf5 {
        Some((true, pos + 1))
    } else if b == 0xf4 {
        Some((false, pos + 1))
    } else {
        None
    }
}

/// The `n` little-endian base-256 digits of `v` (least significant first).
pub open spec fn le_bytes(v: int, n: nat) -> Seq<u8>
    decreases n,
{
    if n == 0 {
        Seq::empty()
    } else {
        seq![(v % 256) as u8] + le_bytes(v / 256, (n - 1) as nat)
    }
}

/// The value of a little-endian base-256 digit string.
pub open spec fn from_le(s: Seq<u8>) -> int
    decreases s.len(),
{
    if s.len() == 0 {
        0
    } else {
        s.first() + 256 * from_le(s.drop_first())
    }
}

pub proof fn lemma_le_bytes_len(v: int, n: nat)
    ensures
        le_bytes(v, n).len() == n,
    decreases n,
{
    if n > 0 {
        lemma_le_bytes_len(v / 256, (n - 1) as nat);
    }
}

pub proof fn lemma_from_le_bound(s: Seq<u8>)
    ensures
        0 <= from_le(s) < pow256(s.len()),
    decreases s.len(),
{
    if s.len() > 0 {
        lemma_from_le_bound(s.drop_first());
        assert(256 * from_le(s.drop_first()) < 256 * pow256((s.len() - 1) as nat))
            by (nonlinear_arith)
            requires
                from_le(s.drop_first()) < pow256((s.len() - 1) as nat),
        ;
        assert(256 * from_le(s.drop_first()) >= 0) by (nonlinear_arith)
            requires
                from_le(s.drop_first()) >= 0,
        ;
        assert(256 * pow256((s.len() - 1) as nat) == pow256(s.len()));
        assert(from_le(s) <= 255 + 256 * from_le(s.drop_first()));
    }
}

pub proof fn lemma_from_le_le_bytes(v: int, n: nat)
    requires
        0 <= v < pow256(n),
    ensures
        from_le(le_bytes(v, n)) == v,
    decreases n,
{
    if n > 0 {
        lemma_le_bytes_len(v / 256, (n - 1) as nat);
        assert(v / 256 < pow256((n - 1) as nat)) by (nonlinear_arith)
            requires
                0 <= v < 256 * pow256((n - 1) as nat),
        ;
        lemma_from_le_le_bytes(v / 256, (n - 1) as nat);
        let s = le_bytes(v, n);
        assert(s.first() == (v % 256) as u8);
        assert(s.drop_first() =~= le_bytes(v / 256, (n - 1) as nat));
        assert(from_le(s) == v % 256 + 256 * (v / 256));
    }
}

/// Appends the `n` little-endian base-256 digits of `v`.
pub fn push_le(out: &mut Vec<u8>, v: u64, n: u8)
    requires
        n <= 8,
    ensures
        final(out)@ == old(out)@ + le_bytes(v as int, n as nat),
    decreases n,
{
    if n == 0 {
        proof {
            assert(out@ =~= out@ + le_bytes(v as int, 0));
        }
        return ;
    }
    out.push((v % 256) as u8);
    push_le(out, v / 256, n - 1);
    proof {
        assert(out@ =~= old(out)@ + le_bytes(v as int, n as nat));
    }
}

/// Reads `n` little-endian bytes at `pos` as an unsigned value.
pub fn read_le(data: &Vec<u8>, pos: usize, n: u8) -> (r: Option<(u64, usize)>)
    requires
        n <= 8,
    ensures
        match r {
            Some(t) => pos + n <= data@.len() && t.0 == from_le(
                data@.subrange(pos as int, pos + n),
            ) && t.1 == pos + n,
            None => pos + n > data@.len(),
        },
{
    let dlen: usize = data.len();
    if dlen < n as usize || pos > dlen - n as usize {
        return None;
    }
    let mut v: u64 = 0;
    let mut i: usize = n as usize;
    while i > 0
        invariant
            i <= n,
            n <= 8,
            dlen == data@.len(),
            pos + n <= dlen,
            v == from_le(data@.subrange(pos + i, pos + n as int)),
            v < pow256((n - i) as nat),
        decreases i,
    {
        proof {
            let sub = data@.subrange(pos + i - 1, pos + n as int);
            assert(sub.first() == data@[pos + i - 1]);
            assert(sub.drop_first() =~= data@.subrange(pos + i, pos + n as int));
            assert(v * 256 + data@[pos + i - 1] < pow256((n - i) as nat) * 256)
                by (nonlinear_arith)
                requires
                    v < pow256((n - i) as nat),
                    data@[pos + i - 1] < 256,
                    v >= 0,
            ;
            assert(pow256((n - i) as nat) * 256 == pow256((n - i + 1) as nat));
            assert(pow256((n - i + 1) as nat) <= pow256(8)) by {
                lemma_pow256_le((n - i + 1) as nat, 8);
            }
            lemma_pow256_vals();
        }
        v = v * 256 + data[pos + i - 1] as u64;
        i -= 1;
    }
    proof {
        assert(data@.subrange(pos as int, pos + n as int) =~= data@.subrange(
            pos + i,
            pos + n as int,
        ));
    }
    Some((v, pos + n as usize))
}

} // verus!
