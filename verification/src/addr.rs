//! IPv4 addresses and CIDR blocks as the scanner sees them: a four-octet
//! value, the numeric view of it, and the expansion of a block into its
//! host addresses.

use vstd::prelude::*;
use vstd::arithmetic::power2::{pow2, lemma_pow2_adds, lemma_pow2_strictly_increases, lemma2_to64};
use vstd::arithmetic::div_mod::{lemma_fundamental_div_mod, lemma_multiply_divide_lt};
use vstd::string::StringSliceAdditionalSpecFns;
use crate::codec::is_digit;

verus! {

/// An IPv4 address, most significant octet first.
#[derive(Clone, Copy, PartialEq, Eq, Structural, Debug)]
pub struct Ipv4Address(pub u8, pub u8, pub u8, pub u8);

/// The numeric value of an address: its octets read as one big-endian
/// 32-bit integer.
pub open spec fn spec_addr_u32(a: Ipv4Address) -> int {
    0x1000000 * (a.0 as int) + 0x10000 * (a.1 as int) + 0x100 * (a.2 as int) + (a.3 as int)
}

impl Ipv4Address {
    /// The numeric value of the address.
    pub fn to_u32(&self) -> (r: u32)
        ensures
            r as int == spec_addr_u32(*self),
    {
        (self.0 as u32) * 0x1000000 + (self.1 as u32) * 0x10000 + (self.2 as u32) * 0x100
            + (self.3 as u32)
    }

    /// The address with the given numeric value.
    pub fn from_u32(x: u32) -> (r: Ipv4Address)
        ensures
            spec_addr_u32(r) == x as int,
    {
        let o0 = x / 0x1000000;
        let rem0 = x % 0x1000000;
        let o1 = rem0 / 0x10000;
        let rem1 = rem0 % 0x10000;
        let o2 = rem1 / 0x100;
        let o3 = rem1 % 0x100;
        proof {
            lemma_fundamental_div_mod(x as int, 0x1000000);
            lemma_fundamental_div_mod(rem0 as int, 0x10000);
            lemma_fundamental_div_mod(rem1 as int, 0x100);
        }
        Ipv4Address(o0 as u8, o1 as u8, o2 as u8, o3 as u8)
    }
}

/// How many addresses a block with this prefix length spans.
pub open spec fn block_size(prefix: u8) -> int {
    pow2((32 - prefix) as nat) as int
}

/// The numeric value of the block's network address: `addr` rounded down to
/// a multiple of the block size.
pub open spec fn network_base(addr: Ipv4Address, prefix: u8) -> int {
    spec_addr_u32(addr) - spec_addr_u32(addr) % block_size(prefix)
}

/// How many host addresses the block offers: all but the network and
/// broadcast addresses, except that a two-address block keeps both and a
/// one-address block keeps its one address.
pub open spec fn host_count(prefix: u8) -> int {
    if prefix <= 30 {
        block_size(prefix) - 2
    } else {
        block_size(prefix)
    }
}

/// The numeric value of the block's first host address.
pub open spec fn first_host(addr: Ipv4Address, prefix: u8) -> int {
    if prefix <= 30 {
        network_base(addr, prefix) + 1
    } else {
        network_base(addr, prefix)
    }
}

/// Expands a CIDR block into its host addresses, in increasing order:
/// every address of the block except the network and broadcast addresses
/// (a `/31` block keeps both of its addresses, a `/32` block its one).
/// Host bits set in `addr` are ignored.
pub fn expand_hosts(addr: Ipv4Address, prefix: u8) -> (r: Vec<Ipv4Address>)
    requires
        prefix <= 32,
    ensures
        r@.len() == host_count(prefix),
        forall|i: int|
            0 <= i < r@.len() ==> spec_addr_u32(r@[i]) == first_host(addr, prefix) + i,
{
    let x: u64 = addr.to_u32() as u64;
    let bits: u8 = 32 - prefix;

    let mut size: u64 = 1;
    let mut k: u8 = 0;
    proof {
        lemma2_to64();
    }
    while k < bits
        invariant
            k <= bits <= 32,
            size as int == pow2(k as nat),
        decreases bits - k,
    {
        proof {
            lemma_pow2_strictly_increases(k as nat, 32);
            lemma2_to64();
        }
        size = size * 2;
        k = k + 1;
        proof {
            assert(size as int == pow2(k as nat)) by {
                vstd::arithmetic::power2::lemma_pow2_unfold(k as nat);
            }
        }
    }
    proof {
        if bits < 32 {
            lemma_pow2_strictly_increases(bits as nat, 32);
        }
        lemma2_to64();
        assert(size as int == block_size(prefix));
        assert(size <= 0x1_0000_0000);
    }

    proof {
        vstd::arithmetic::div_mod::lemma_mod_decreases(x as nat, size as nat);
    }
    let base: u64 = x - x % size;
    proof {
        // The base is a multiple of the block size below 2^32, so a whole
        // block fits above it without passing 2^32.
        let s = size as int;
        let p = pow2(prefix as nat) as int;
        let q = x as int / s;
        lemma_fundamental_div_mod(x as int, s);
        lemma_pow2_adds(prefix as nat, (32 - prefix) as nat);
        lemma2_to64();
        assert(s * p == 0x1_0000_0000) by {
            vstd::arithmetic::mul::lemma_mul_is_commutative(s, p);
        }
        lemma_multiply_divide_lt(x as int, s, p);
        assert(base as int == s * q);
        assert(s * q <= s * (p - 1)) by {
            vstd::arithmetic::mul::lemma_mul_inequality(q, p - 1, s);
            vstd::arithmetic::mul::lemma_mul_is_commutative(s, q);
            vstd::arithmetic::mul::lemma_mul_is_commutative(s, p - 1);
        }
        assert(s * (p - 1) == s * p - s) by {
            vstd::arithmetic::mul::lemma_mul_is_distributive_sub(s, p, 1);
        }
        assert(base + size <= 0x1_0000_0000);
    }

    let count: u64 = if prefix <= 30 { size - 2 } else { size };
    let first: u64 = if prefix <= 30 { base + 1 } else { base };

    let mut out: Vec<Ipv4Address> = Vec::new();
    let mut i: u64 = 0;
    while i < count
        invariant
            i <= count,
            first + count <= 0x1_0000_0000,
            out@.len() == i,
            first as int == first_host(addr, prefix),
            count as int == host_count(prefix),
            forall|j: int|
                0 <= j < out@.len() ==> spec_addr_u32(out@[j]) == first_host(addr, prefix) + j,
        decreases count - i,
    {
        out.push(Ipv4Address::from_u32((first + i) as u32));
        i = i + 1;
    }
    out
}

/// Count of leading decimal-digit bytes.
pub open spec fn take_digits(b: Seq<u8>) -> int
    decreases b.len(),
{
    if b.len() == 0 || !is_digit(b[0]) {
        0
    } else {
        1 + take_digits(b.drop_first())
    }
}

/// The number a run of decimal digits spells, most significant first.
pub open spec fn octet_text_val(s: Seq<u8>) -> int
    decreases s.len(),
{
    if s.len() == 0 {
        0
    } else {
        octet_text_val(s.drop_last()) * 10 + (s.last() - 0x30)
    }
}

/// A well-formed octet in dotted-quad text: one to three digits, no
/// leading zero on a multi-digit run, value at most 255.
pub open spec fn valid_octet_text(s: Seq<u8>) -> bool {
    &&& 1 <= s.len() <= 3
    &&& (forall|i: int| 0 <= i < s.len() ==> is_digit(s[i]))
    &&& (s.len() > 1 ==> s[0] != 0x30)
    &&& octet_text_val(s) <= 255
}

/// Indexing past a skip reads the original sequence.
proof fn lemma_skip_index(s: Seq<u8>, a: int, i: int)
    requires
        0 <= a <= s.len(),
        0 <= i < s.len() - a,
    ensures
        s.skip(a)[i] == s[a + i],
{
}

/// The digit run at the head of `b` is as long as its digits reach.
proof fn lemma_take_digits_is(b: Seq<u8>, k: int)
    requires
        0 <= k <= b.len(),
        forall|i: int| 0 <= i < k ==> is_digit(b[i]),
        k < b.len() ==> !is_digit(b[k]),
    ensures
        take_digits(b) == k,
    decreases b.len(),
{
    if b.len() == 0 {
    } else if k == 0 {
    } else {
        assert(is_digit(b[0]));
        assert(forall|i: int| 0 <= i < k - 1 ==> b.drop_first()[i] == b[i + 1]);
        lemma_take_digits_is(b.drop_first(), k - 1);
    }
}

/// Whether the byte at `i` exists and is a decimal digit.
fn digit_at(b: &[u8], i: usize) -> (r: bool)
    ensures
        r == (i < b@.len() && is_digit(b@[i as int])),
{
    i < b.len() && 0x30 <= b[i] && b[i] <= 0x39
}

/// Reads one dotted-quad octet starting at `pos`: the leading digit run,
/// taken only if it is a well-formed octet. Returns its value and the
/// position right after it.
fn parse_octet_at(b: &[u8], pos: usize) -> (r: Option<(u8, usize)>)
    requires
        pos <= b@.len(),
    ensures
        ({
            let rest = b@.skip(pos as int);
            let n = take_digits(rest);
            let tok = rest.take(n);
            &&& 0 <= n <= rest.len()
            &&& (r is Some <==> valid_octet_text(tok))
            &&& (r matches Some(p) ==> p.0 as int == octet_text_val(tok) && p.1 as int == pos + n)
        }),
{
    let ghost rest = b@.skip(pos as int);
    let len = b.len();
    let mut n: usize = 0;
    while digit_at(b, pos + n)
        invariant
            pos + n <= len,
            len == b@.len(),
            forall|j: int| 0 <= j < n ==> is_digit(#[trigger] b@[pos + j]),
        decreases len - pos - n,
    {
        n = n + 1;
    }
    proof {
        assert(forall|j: int| 0 <= j < n ==> rest[j] == b@[pos + j]);
        assert(n < rest.len() ==> !is_digit(rest[n as int]));
        lemma_take_digits_is(rest, n as int);
    }
    let ghost tok = rest.take(n as int);
    proof {
        assert(forall|j: int| 0 <= j < n ==> tok[j] == b@[pos + j]);
    }

    if n == 0 || n > 3 {
        return None;
    }
    let d0 = b[pos];
    if n > 1 && d0 == 0x30 {
        return None;
    }
    let v: u16 = if n == 1 {
        (d0 - 0x30) as u16
    } else if n == 2 {
        (d0 - 0x30) as u16 * 10 + (b[pos + 1] - 0x30) as u16
    } else {
        (d0 - 0x30) as u16 * 100 + (b[pos + 1] - 0x30) as u16 * 10 + (b[pos + 2] - 0x30) as u16
    };
    proof {
        let t1 = seq![b@[pos as int]];
        assert(octet_text_val(Seq::<u8>::empty()) == 0);
        if n == 1 {
            assert(tok =~= t1);
            assert(tok.drop_last() =~= Seq::<u8>::empty());
            assert(octet_text_val(tok) == b@[pos as int] - 0x30);
        } else if n == 2 {
            assert(tok.drop_last() =~= t1);
            assert(t1.drop_last() =~= Seq::<u8>::empty());
            assert(octet_text_val(t1) == b@[pos as int] - 0x30);
            assert(tok.last() == b@[pos + 1]);
            assert(octet_text_val(tok) == (b@[pos as int] - 0x30) * 10 + (b@[pos + 1] - 0x30));
        } else {
            let t2 = seq![b@[pos as int], b@[pos + 1]];
            assert(tok.drop_last() =~= t2);
            assert(t2.drop_last() =~= t1);
            assert(t1.drop_last() =~= Seq::<u8>::empty());
            assert(octet_text_val(t1) == b@[pos as int] - 0x30);
            assert(t2.last() == b@[pos + 1]);
            assert(octet_text_val(t2) == (b@[pos as int] - 0x30) * 10 + (b@[pos + 1] - 0x30));
            assert(tok.last() == b@[pos + 2]);
            assert(octet_text_val(tok) == octet_text_val(t2) * 10 + (b@[pos + 2] - 0x30));
        }
        assert(octet_text_val(tok) == v as int);
        assert(forall|i: int| 0 <= i < tok.len() ==> is_digit(#[trigger] tok[i]));
    }
    if v > 255 {
        return None;
    }
    Some((v as u8, pos + n))
}

/// Deterministic parse of `parts` dot-separated octets filling all of `b`:
/// each part is the digit run at its position, which must be a well-formed
/// octet; every part but the last is followed by a dot; the last ends the
/// input.
pub open spec fn spec_parse_octets(b: Seq<u8>, parts: int) -> Option<Seq<int>>
    decreases parts,
{
    if parts <= 0 {
        None
    } else {
        let n = take_digits(b);
        let tok = b.take(n);
        if !valid_octet_text(tok) {
            None
        } else if parts == 1 {
            if n == b.len() {
                Some(seq![octet_text_val(tok)])
            } else {
                None
            }
        } else if n < b.len() && b[n] == 0x2e {
            match spec_parse_octets(b.skip(n + 1), parts - 1) {
                Some(rest) => Some(seq![octet_text_val(tok)] + rest),
                None => None,
            }
        } else {
            None
        }
    }
}

/// The address a dotted-quad spells, if it is well formed.
pub open spec fn spec_parse_ipv4(b: Seq<u8>) -> Option<Ipv4Address> {
    match spec_parse_octets(b, 4) {
        Some(vals) => Some(
            Ipv4Address(vals[0] as u8, vals[1] as u8, vals[2] as u8, vals[3] as u8),
        ),
        None => None,
    }
}

/// Parses a dotted-quad IPv4 address filling all of `b`.
#[verifier::rlimit(100)]
pub fn parse_ipv4_bytes(b: &[u8]) -> (r: Option<Ipv4Address>)
    ensures
        r == spec_parse_ipv4(b@),
{
    let ghost s0 = b@;
    proof {
        reveal_with_fuel(spec_parse_octets, 5);
        assert(s0.skip(0) =~= s0);
    }
    let (o0, p0) = match parse_octet_at(b, 0) {
        None => {
            return None;
        },
        Some(p) => p,
    };
    if p0 >= b.len() || b[p0] != 0x2e {
        return None;
    }
    let ghost s1 = s0.skip(p0 + 1);
    let (o1, p1) = match parse_octet_at(b, p0 + 1) {
        None => {
            return None;
        },
        Some(p) => p,
    };
    if p1 >= b.len() || b[p1] != 0x2e {
        proof {
            if p1 < s0.len() {
                lemma_skip_index(s0, p0 + 1, p1 - (p0 + 1));
            }
        }
        return None;
    }
    proof {
        lemma_skip_index(s0, p0 + 1, p1 - (p0 + 1));
    }
    let ghost s2 = s0.skip(p1 + 1);
    proof {
        assert(s1.skip((p1 - (p0 + 1)) + 1) =~= s2);
    }
    let (o2, p2) = match parse_octet_at(b, p1 + 1) {
        None => {
            return None;
        },
        Some(p) => p,
    };
    if p2 >= b.len() || b[p2] != 0x2e {
        proof {
            if p2 < s0.len() {
                lemma_skip_index(s0, p1 + 1, p2 - (p1 + 1));
            }
        }
        return None;
    }
    proof {
        lemma_skip_index(s0, p1 + 1, p2 - (p1 + 1));
    }
    let ghost s3 = s0.skip(p2 + 1);
    proof {
        assert(s2.skip((p2 - (p1 + 1)) + 1) =~= s3);
    }
    let (o3, p3) = match parse_octet_at(b, p2 + 1) {
        None => {
            return None;
        },
        Some(p) => p,
    };
    if p3 != b.len() {
        return None;
    }
    let r = Ipv4Address(o0, o1, o2, o3);
    proof {
        let vals = spec_parse_octets(s0, 4);
        assert(vals matches Some(v) && v =~= seq![
            o0 as int,
            o1 as int,
            o2 as int,
            o3 as int,
        ]);
    }
    Some(r)
}

/// The canonical dotted-quad text of an address: each octet's decimal
/// digits, dot-separated.
pub open spec fn spec_dotted_quad(a: Ipv4Address) -> Seq<u8> {
    crate::codec::dec_digits(a.0) + seq![0x2eu8] + crate::codec::dec_digits(a.1) + seq![0x2eu8]
        + crate::codec::dec_digits(a.2) + seq![0x2eu8] + crate::codec::dec_digits(a.3)
}

/// An octet's decimal digits are a well-formed octet text spelling the
/// octet back.
proof fn lemma_dec_digits_valid(o: u8)
    ensures
        valid_octet_text(crate::codec::dec_digits(o)),
        octet_text_val(crate::codec::dec_digits(o)) == o,
{
    let d = crate::codec::dec_digits(o);
    assert(octet_text_val(Seq::<u8>::empty()) == 0);
    if o < 10 {
        assert(d.drop_last() =~= Seq::<u8>::empty());
    } else if o < 100 {
        let t1 = seq![(0x30 + o / 10) as u8];
        assert(d.drop_last() =~= t1);
        assert(t1.drop_last() =~= Seq::<u8>::empty());
        assert(octet_text_val(t1) == o / 10);
        lemma_fundamental_div_mod(o as int, 10);
    } else {
        let t2 = seq![(0x30 + o / 100) as u8, (0x30 + (o / 10) % 10) as u8];
        let t1 = seq![(0x30 + o / 100) as u8];
        assert(d.drop_last() =~= t2);
        assert(t2.drop_last() =~= t1);
        assert(t1.drop_last() =~= Seq::<u8>::empty());
        assert(octet_text_val(t1) == o / 100);
        assert(octet_text_val(t2) == (o / 100) * 10 + (o / 10) % 10);
        lemma_fundamental_div_mod(o as int, 10);
        lemma_fundamental_div_mod(o as int / 10, 10);
        assert((o as int / 10) / 10 == o as int / 100) by {
            vstd::arithmetic::div_mod::lemma_div_denominator(o as int, 10, 10);
        }
        assert(octet_text_val(d) == octet_text_val(t2) * 10 + o % 10);
    }
}

/// A run of digits followed by a non-digit (or by nothing) is exactly the
/// digit run the parser takes.
proof fn lemma_take_digits_run(s: Seq<u8>, t: Seq<u8>)
    requires
        forall|i: int| 0 <= i < s.len() ==> is_digit(s[i]),
        t.len() > 0 ==> !is_digit(t[0]),
    ensures
        take_digits(s + t) == s.len(),
{
    assert(forall|i: int| 0 <= i < s.len() ==> (s + t)[i] == s[i]);
    assert(s.len() < (s + t).len() ==> (s + t)[s.len() as int] == t[0]);
    lemma_take_digits_is(s + t, s.len() as int);
}

/// Parsing the canonical dotted-quad text of any address gives that
/// address back: the rendering is deterministic and reversible.
#[verifier::rlimit(100)]
pub proof fn lemma_parse_dotted_quad(a: Ipv4Address)
    ensures
        spec_parse_ipv4(spec_dotted_quad(a)) == Some(a),
{
    reveal_with_fuel(spec_parse_octets, 5);
    let dot = seq![0x2eu8];
    let d0 = crate::codec::dec_digits(a.0);
    let d1 = crate::codec::dec_digits(a.1);
    let d2 = crate::codec::dec_digits(a.2);
    let d3 = crate::codec::dec_digits(a.3);
    lemma_dec_digits_valid(a.0);
    lemma_dec_digits_valid(a.1);
    lemma_dec_digits_valid(a.2);
    lemma_dec_digits_valid(a.3);

    let b0 = spec_dotted_quad(a);
    let b1 = d1 + dot + d2 + dot + d3;
    let b2 = d2 + dot + d3;
    let b3 = d3;

    assert(b0 =~= d0 + (dot + b1));
    lemma_take_digits_run(d0, dot + b1);
    assert(take_digits(b0) == d0.len());
    assert(b0.take(d0.len() as int) =~= d0);
    assert(b0[d0.len() as int] == 0x2e);
    assert(b0.skip(d0.len() as int + 1) =~= b1);

    assert(b1 =~= d1 + (dot + b2));
    lemma_take_digits_run(d1, dot + b2);
    assert(take_digits(b1) == d1.len());
    assert(b1.take(d1.len() as int) =~= d1);
    assert(b1[d1.len() as int] == 0x2e);
    assert(b1.skip(d1.len() as int + 1) =~= b2);

    assert(b2 =~= d2 + (dot + b3));
    lemma_take_digits_run(d2, dot + b3);
    assert(take_digits(b2) == d2.len());
    assert(b2.take(d2.len() as int) =~= d2);
    assert(b2[d2.len() as int] == 0x2e);
    assert(b2.skip(d2.len() as int + 1) =~= b3);

    assert(b3 =~= d3 + Seq::<u8>::empty());
    lemma_take_digits_run(d3, Seq::<u8>::empty());
    assert(take_digits(b3) == d3.len());
    assert(b3.take(d3.len() as int) =~= d3);

    assert(spec_parse_octets(b3, 1) == Some(seq![a.3 as int]));
    assert(spec_parse_octets(b2, 2) == Some(seq![a.2 as int] + seq![a.3 as int]));
    assert(spec_parse_octets(b1, 3) == Some(seq![a.1 as int] + (seq![a.2 as int] + seq![
        a.3 as int,
    ])));
    assert(spec_parse_octets(b0, 4) matches Some(vals) && vals =~= seq![
        a.0 as int,
        a.1 as int,
        a.2 as int,
        a.3 as int,
    ]);
}

/// Index of the first slash byte, or the length when there is none.
pub open spec fn slash_index(b: Seq<u8>) -> int
    decreases b.len(),
{
    if b.len() == 0 {
        0
    } else if b[0] == 0x2f {
        0
    } else {
        1 + slash_index(b.drop_first())
    }
}

/// The slash index is where the first slash stands.
proof fn lemma_slash_index_is(b: Seq<u8>, k: int)
    requires
        0 <= k <= b.len(),
        forall|i: int| 0 <= i < k ==> b[i] != 0x2f,
        k < b.len() ==> b[k] == 0x2f,
    ensures
        slash_index(b) == k,
    decreases b.len(),
{
    if b.len() == 0 {
    } else if k == 0 {
    } else {
        assert(b[0] != 0x2f);
        assert(forall|i: int| 0 <= i < k - 1 ==> b.drop_first()[i] == b[i + 1]);
        lemma_slash_index_is(b.drop_first(), k - 1);
    }
}

/// Finds the first slash, or the end of the input.
fn find_slash(b: &[u8]) -> (k: usize)
    ensures
        k as int == slash_index(b@),
        k <= b@.len(),
{
    let len = b.len();
    let mut i: usize = 0;
    while i < len
        invariant
            i <= len,
            len == b@.len(),
            forall|j: int| 0 <= j < i ==> b@[j] != 0x2f,
        decreases len - i,
    {
        if b[i] == 0x2f {
            proof {
                lemma_slash_index_is(b@, i as int);
            }
            return i;
        }
        i = i + 1;
    }
    proof {
        lemma_slash_index_is(b@, len as int);
    }
    len
}

/// An ASCII hexadecimal digit, either case.
pub open spec fn is_hex_digit(b: u8) -> bool {
    (0x30 <= b <= 0x39) || (0x41 <= b <= 0x46) || (0x61 <= b <= 0x66)
}

/// Count of leading hexadecimal-digit bytes.
pub open spec fn take_hex(b: Seq<u8>) -> int
    decreases b.len(),
{
    if b.len() == 0 || !is_hex_digit(b[0]) {
        0
    } else {
        1 + take_hex(b.drop_first())
    }
}

/// The hexadecimal run at the head of `b` is as long as its digits reach.
proof fn lemma_take_hex_is(b: Seq<u8>, k: int)
    requires
        0 <= k <= b.len(),
        forall|i: int| 0 <= i < k ==> is_hex_digit(b[i]),
        k < b.len() ==> !is_hex_digit(b[k]),
    ensures
        take_hex(b) == k,
    decreases b.len(),
{
    if b.len() == 0 {
    } else if k == 0 {
    } else {
        assert(is_hex_digit(b[0]));
        assert(forall|i: int| 0 <= i < k - 1 ==> b.drop_first()[i] == b[i + 1]);
        lemma_take_hex_is(b.drop_first(), k - 1);
    }
}

/// Whether a group count finishes an IPv6 text: eight group units in all,
/// or at most seven when a double colon stands for the missing ones. An
/// embedded dotted quad counts as two units.
pub open spec fn v6_group_count_ok(units: int, seen_dc: bool) -> bool {
    if seen_dc {
        units <= 7
    } else {
        units == 8
    }
}

/// Whether `b` continues an IPv6 text, `units` group units already read
/// and a double colon already seen or not. Each step reads a group of one
/// to four hexadecimal digits, then a separating colon, a double colon
/// (once), a trailing dotted quad filling the rest, or the end.
pub open spec fn v6_units(b: Seq<u8>, units: int, seen_dc: bool) -> bool
    decreases b.len(),
{
    let n = take_hex(b);
    if n <= 0 || n > 4 {
        false
    } else if n >= b.len() {
        v6_group_count_ok(units + 1, seen_dc)
    } else if b[n] == 0x3a {
        if n + 1 < b.len() && b[n + 1] == 0x3a {
            if seen_dc {
                false
            } else if n + 2 == b.len() {
                units + 1 <= 7
            } else {
                v6_units(b.skip(n + 2), units + 1, true)
            }
        } else if n + 1 == b.len() {
            false
        } else {
            v6_units(b.skip(n + 1), units + 1, seen_dc)
        }
    } else if b[n] == 0x2e {
        spec_parse_ipv4(b) is Some && v6_group_count_ok(units + 2, seen_dc)
    } else {
        false
    }
}

/// Whether `b` is an IPv6 address literal: eight colon-separated groups of
/// up to four hexadecimal digits, one double colon standing for any
/// missing groups, an embedded dotted quad allowed at the end.
pub open spec fn is_ipv6_literal(b: Seq<u8>) -> bool {
    if b.len() >= 2 && b[0] == 0x3a && b[1] == 0x3a {
        if b.len() == 2 {
            true
        } else {
            v6_units(b.skip(2), 0, true)
        }
    } else {
        v6_units(b, 0, false)
    }
}

/// Whether the byte at `i` exists and is a hexadecimal digit.
fn hex_at(b: &[u8], i: usize) -> (r: bool)
    ensures
        r == (i < b@.len() && is_hex_digit(b@[i as int])),
{
    i < b.len() && (0x30 <= b[i] && b[i] <= 0x39 || 0x41 <= b[i] && b[i] <= 0x46 || 0x61 <= b[i]
        && b[i] <= 0x66)
}

/// Reads the IPv6 text from position `i` on, as `v6_units` describes it.
fn v6_units_from(b: &[u8], i: usize, units: usize, seen_dc: bool) -> (r: bool)
    requires
        i <= b@.len(),
        units <= i,
    ensures
        r == v6_units(b@.skip(i as int), units as int, seen_dc),
    decreases b@.len() - i,
{
    let ghost rest = b@.skip(i as int);
    let len = b.len();
    let mut n: usize = 0;
    while hex_at(b, i + n)
        invariant
            i + n <= len,
            len == b@.len(),
            forall|j: int| 0 <= j < n ==> is_hex_digit(#[trigger] b@[i + j]),
        decreases len - i - n,
    {
        n = n + 1;
    }
    proof {
        assert(forall|j: int| 0 <= j < n ==> rest[j] == b@[i + j]);
        assert(n < rest.len() ==> !is_hex_digit(rest[n as int]));
        lemma_take_hex_is(rest, n as int);
    }
    if n == 0 || n > 4 {
        return false;
    }
    if i + n == len {
        return if seen_dc {
            units + 1 <= 7
        } else {
            units + 1 == 8
        };
    }
    proof {
        lemma_skip_index(b@, i as int, n as int);
    }
    let c = b[i + n];
    if c == 0x3a {
        proof {
            if i + n + 1 < len {
                lemma_skip_index(b@, i as int, n + 1);
            }
        }
        if i + n + 1 < len && b[i + n + 1] == 0x3a {
            if seen_dc {
                return false;
            }
            if i + n + 2 == len {
                return units + 1 <= 7;
            }
            proof {
                assert(rest.skip(n + 2) =~= b@.skip(i + n + 2));
            }
            return v6_units_from(b, i + n + 2, units + 1, true);
        }
        if i + n + 1 == len {
            return false;
        }
        proof {
            assert(rest.skip(n + 1) =~= b@.skip(i + n + 1));
        }
        return v6_units_from(b, i + n + 1, units + 1, seen_dc);
    }
    if c == 0x2e {
        let tail = vstd::slice::slice_subrange(b, i, len);
        proof {
            assert(tail@ =~= rest);
        }
        if parse_ipv4_bytes(tail).is_none() {
            return false;
        }
        return if seen_dc {
            units + 2 <= 7
        } else {
            units + 2 == 8
        };
    }
    false
}

/// Whether `b` is an IPv6 address literal.
fn is_ipv6_text(b: &[u8]) -> (r: bool)
    ensures
        r == is_ipv6_literal(b@),
{
    let len = b.len();
    if len >= 2 && b[0] == 0x3a && b[1] == 0x3a {
        if len == 2 {
            return true;
        }
        return v6_units_from(b, 2, 0, true);
    }
    proof {
        assert(b@.skip(0) =~= b@);
    }
    v6_units_from(b, 0, 0, false)
}

/// Prefix text of a CIDR block: one to three digits. Leading zeros are
/// tolerated here; the bound on the value is judged by the caller.
pub open spec fn valid_prefix_text(s: Seq<u8>) -> bool {
    &&& 1 <= s.len() <= 3
    &&& (forall|i: int| 0 <= i < s.len() ==> is_digit(s[i]))
}

/// The number the prefix text spells, if it is digits at all.
pub open spec fn spec_parse_prefix(b: Seq<u8>) -> Option<int> {
    if valid_prefix_text(b) {
        Some(octet_text_val(b))
    } else {
        None
    }
}

/// Parses the digits of a CIDR prefix length filling all of `b`.
fn parse_prefix(b: &[u8]) -> (r: Option<u16>)
    ensures
        r is Some <==> spec_parse_prefix(b@) is Some,
        r matches Some(p) ==> spec_parse_prefix(b@) == Some(p as int),
{
    let len = b.len();
    if len == 0 || len > 3 {
        return None;
    }
    let mut i: usize = 0;
    while i < len
        invariant
            i <= len,
            len == b@.len(),
            forall|j: int| 0 <= j < i ==> is_digit(#[trigger] b@[j]),
        decreases len - i,
    {
        let c = b[i];
        if c < 0x30 || c > 0x39 {
            return None;
        }
        i = i + 1;
    }
    let v: u16 = if len == 1 {
        (b[0] - 0x30) as u16
    } else if len == 2 {
        (b[0] - 0x30) as u16 * 10 + (b[1] - 0x30) as u16
    } else {
        (b[0] - 0x30) as u16 * 100 + (b[1] - 0x30) as u16 * 10 + (b[2] - 0x30) as u16
    };
    proof {
        let t1 = seq![b@[0]];
        assert(octet_text_val(Seq::<u8>::empty()) == 0);
        if len == 1 {
            assert(b@ =~= t1);
            assert(b@.drop_last() =~= Seq::<u8>::empty());
            assert(octet_text_val(b@) == b@[0] - 0x30);
        } else if len == 2 {
            assert(b@.drop_last() =~= t1);
            assert(t1.drop_last() =~= Seq::<u8>::empty());
            assert(octet_text_val(t1) == b@[0] - 0x30);
            assert(b@.last() == b@[1]);
            assert(octet_text_val(b@) == (b@[0] - 0x30) * 10 + (b@[1] - 0x30));
        } else {
            let t2 = seq![b@[0], b@[1]];
            assert(b@.drop_last() =~= t2);
            assert(t2.drop_last() =~= t1);
            assert(t1.drop_last() =~= Seq::<u8>::empty());
            assert(octet_text_val(t1) == b@[0] - 0x30);
            assert(t2.last() == b@[1]);
            assert(octet_text_val(t2) == (b@[0] - 0x30) * 10 + (b@[1] - 0x30));
            assert(b@.last() == b@[2]);
            assert(octet_text_val(b@) == octet_text_val(t2) * 10 + (b@[2] - 0x30));
        }
        assert(octet_text_val(b@) == v as int);
    }
    Some(v)
}

/// What one scan asks for: a single address, or a CIDR block as its
/// network address and prefix length.
#[derive(Clone, Copy, PartialEq, Eq, Structural, Debug)]
pub enum ScanTarget {
    Single(Ipv4Address),
    Range(Ipv4Address, u8),
}

/// How target text is read. Text without a slash is one address; text with
/// one is a CIDR block, split at its first slash. A well-formed dotted
/// quad with a prefix of at most 32 is accepted. An address part that is
/// an IPv6 literal is rejected as unsupported, with a prefix of at most
/// 128 when a slash follows it; anything else is a parse failure, named
/// for the form being read.
pub open spec fn spec_parse_target(b: Seq<u8>) -> Result<ScanTarget, crate::errors::AppError> {
    let k = slash_index(b);
    if k == b.len() {
        match spec_parse_ipv4(b) {
            Some(a) => Ok(ScanTarget::Single(a)),
            None => if is_ipv6_literal(b) {
                Err(crate::errors::AppError::Ipv6)
            } else {
                Err(crate::errors::AppError::ParseAddress)
            },
        }
    } else {
        let hd = b.take(k);
        let tl = b.skip(k + 1);
        match spec_parse_prefix(tl) {
            Some(p) => if p <= 32 {
                match spec_parse_ipv4(hd) {
                    Some(a) => Ok(ScanTarget::Range(a, p as u8)),
                    None => if is_ipv6_literal(hd) {
                        Err(crate::errors::AppError::Ipv6)
                    } else {
                        Err(crate::errors::AppError::ParseAddressesRange)
                    },
                }
            } else if p <= 128 && is_ipv6_literal(hd) {
                Err(crate::errors::AppError::Ipv6)
            } else {
                Err(crate::errors::AppError::ParseAddressesRange)
            },
            None => Err(crate::errors::AppError::ParseAddressesRange),
        }
    }
}

/// Reads the target text of a scan: one dotted-quad address, or a CIDR
/// block written as address, slash, prefix length.
pub fn parse_target(s: &str) -> (r: Result<ScanTarget, crate::errors::AppError>)
    ensures
        r == spec_parse_target(s.spec_bytes()),
{
    let b = s.as_bytes();
    let k = find_slash(b);
    if k == b.len() {
        match parse_ipv4_bytes(b) {
            Some(a) => Ok(ScanTarget::Single(a)),
            None => if is_ipv6_text(b) {
                Err(crate::errors::AppError::Ipv6)
            } else {
                Err(crate::errors::AppError::ParseAddress)
            },
        }
    } else {
        let hd = vstd::slice::slice_subrange(b, 0, k);
        let tl = vstd::slice::slice_subrange(b, k + 1, b.len());
        proof {
            assert(hd@ =~= b@.take(k as int));
            assert(tl@ =~= b@.skip(k + 1));
        }
        match parse_prefix(tl) {
            None => Err(crate::errors::AppError::ParseAddressesRange),
            Some(p) => if p <= 32 {
                match parse_ipv4_bytes(hd) {
                    Some(a) => Ok(ScanTarget::Range(a, p as u8)),
                    None => if is_ipv6_text(hd) {
                        Err(crate::errors::AppError::Ipv6)
                    } else {
                        Err(crate::errors::AppError::ParseAddressesRange)
                    },
                }
            } else if p <= 128 && is_ipv6_text(hd) {
                Err(crate::errors::AppError::Ipv6)
            } else {
                Err(crate::errors::AppError::ParseAddressesRange)
            },
        }
    }
}

} // verus!
