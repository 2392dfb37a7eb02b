//! MessagePack primitives used by the envelope: what each value is written as, and how it reads back.
use vstd::prelude::*;

verus! {

pub open spec fn pow256(k: nat) -> nat
    decreases k,
{
    if k == 0 {
        1
    } else {
        256 * pow256((k - 1) as nat)
    }
}

/// `n` as `k` big-endian bytes (the low `k` bytes of `n`).
pub open spec fn be(n: nat, k: nat) -> Seq<u8>
    decreases k,
{
    if k == 0 {
        Seq::empty()
    } else {
        be(n / 256, (k - 1) as nat).push((n % 256) as u8)
    }
}

/// The number that big-endian bytes `s` stand for.
pub open spec fn be_value(s: Seq<u8>) -> nat
    decreases s.len(),
{
    if s.len() == 0 {
        0
    } else {
        be_value(s.drop_last()) * 256 + s.last() as nat
    }
}

/// The shortest MessagePack form of an unsigned integer.
pub open spec fn enc_uint(n: nat) -> Seq<u8> {
    if n < 128 {
        seq![n as u8]
    } else if n < 256 {
        seq![0xccu8, n as u8]
    } else if n < 0x10000 {
        seq![0xcdu8] + be(n, 2)
    } else if n < 0x1_0000_0000 {
        seq![0xceu8] + be(n, 4)
    } else {
        seq![0xcfu8] + be(n, 8)
    }
}

/// The shortest MessagePack form of a string with UTF-8 bytes `s`.
pub open spec fn enc_str(s: Seq<u8>) -> Seq<u8> {
    let n = s.len();
    if n < 32 {
        seq![(0xa0 + n) as u8] + s
    } else if n < 256 {
        seq![0xd9u8, n as u8] + s
    } else if n < 0x10000 {
        seq![0xdau8] + be(n, 2) + s
    } else {
        seq![0xdbu8] + be(n, 4) + s
    }
}

pub open spec fn enc_bool(b: bool) -> Seq<u8> {
    if b {
        seq![0xc3u8]
    } else {
        seq![0xc2u8]
    }
}

/// The shortest MessagePack header of an array of `n` items.
pub open spec fn enc_array_header(n: nat) -> Seq<u8> {
    if n < 16 {
        seq![(0x90 + n) as u8]
    } else if n < 0x10000 {
        seq![0xdcu8] + be(n, 2)
    } else {
        seq![0xddu8] + be(n, 4)
    }
}

pub open spec fn enc_byte_items(s: Seq<u8>) -> Seq<u8>
    decreases s.len(),
{
    if s.len() == 0 {
        Seq::empty()
    } else {
        enc_byte_items(s.drop_last()) + enc_uint(s.last() as nat)
    }
}

pub open spec fn enc_u64_items(s: Seq<u64>) -> Seq<u8>
    decreases s.len(),
{
    if s.len() == 0 {
        Seq::empty()
    } else {
        enc_u64_items(s.drop_last()) + enc_uint(s.last() as nat)
    }
}

/// A byte string written as an array of small integers, one per byte.
pub open spec fn enc_byte_array(s: Seq<u8>) -> Seq<u8> {
    enc_array_header(s.len()) + enc_byte_items(s)
}

pub open spec fn enc_u64_array(s: Seq<u64>) -> Seq<u8> {
    enc_array_header(s.len()) + enc_u64_items(s)
}

pub proof fn lemma_pow256()
    ensures
        pow256(0) == 1,
        pow256(1) == 256,
        pow256(2) == 0x10000,
        pow256(4) == 0x1_0000_0000,
        pow256(8) == 0x1_0000_0000_0000_0000,
{
    reveal_with_fuel(pow256, 9);
}

pub proof fn lemma_be(n: nat, k: nat)
    requires
        n < pow256(k),
    ensures
        be(n, k).len() == k,
        be_value(be(n, k)) == n,
    decreases k,
{
    if k > 0 {
        let k1 = (k - 1) as nat;
        assert(n / 256 < pow256(k1)) by (nonlinear_arith)
            requires
                n < 256 * pow256(k1),
        ;
        lemma_be(n / 256, k1);
        let s = be(n, k);
        assert(s.drop_last() == be(n / 256, k1));
        assert(n == (n / 256) * 256 + n % 256) by (nonlinear_arith);
    }
}

fn push_be(out: &mut Vec<u8>, n: u64, k: usize)
    requires
        k <= 8,
        (n as nat) < pow256(k as nat),
    ensures
        final(out)@ == old(out)@ + be(n as nat, k as nat),
    decreases k,
{
    if k > 0 {
        proof {
            let k1 = (k - 1) as nat;
            assert((n as nat) / 256 < pow256(k1)) by (nonlinear_arith)
                requires
                    (n as nat) < 256 * pow256(k1),
            ;
        }
        push_be(out, n / 256, k - 1);
        out.push((n % 256) as u8);
        proof {
            assert(final(out)@ =~= old(out)@ + be(n as nat, k as nat));
        }
    } else {
        proof {
            assert(final(out)@ =~= old(out)@ + be(n as nat, k as nat));
        }
    }
}

pub fn push_uint(out: &mut Vec<u8>, n: u64)
    ensures
        final(out)@ == old(out)@ + enc_uint(n as nat),
{
    proof {
        lemma_pow256();
    }
    if n < 128 {
        out.push(n as u8);
    } else if n < 256 {
        out.push(0xcc);
        out.push(n as u8);
    } else if n < 0x10000 {
        out.push(0xcd);
        push_be(out, n, 2);
    } else if n < 0x1_0000_0000 {
        out.push(0xce);
        push_be(out, n, 4);
    } else {
        out.push(0xcf);
        push_be(out, n, 8);
    }
    proof {
        assert(final(out)@ =~= old(out)@ + enc_uint(n as nat));
    }
}

pub fn push_str(out: &mut Vec<u8>, s: &[u8])
    requires
        s@.len() < 0x1_0000_0000,
    ensures
        final(out)@ == old(out)@ + enc_str(s@),
{
    proof {
        lemma_pow256();
    }
    let n = s.len();
    if n < 32 {
        out.push((0xa0 + n) as u8);
    } else if n < 256 {
        out.push(0xd9);
        out.push(n as u8);
    } else if n < 0x10000 {
        out.push(0xda);
        push_be(out, n as u64, 2);
    } else {
        out.push(0xdb);
        push_be(out, n as u64, 4);
    }
    let ghost mid = out@;
    let mut i: usize = 0;
    while i < n
        invariant
            n == s@.len(),
            i <= n,
            out@ == mid + s@.subrange(0, i as int),
        decreases n - i,
    {
        out.push(s[i]);
        proof {
            assert(s@.subrange(0, i + 1) =~= s@.subrange(0, i as int).push(s@[i as int]));
        }
        i = i + 1;
    }
    proof {
        assert(s@.subrange(0, n as int) =~= s@);
        assert(final(out)@ =~= old(out)@ + enc_str(s@));
    }
}

pub fn push_bool(out: &mut Vec<u8>, b: bool)
    ensures
        final(out)@ == old(out)@ + enc_bool(b),
{
    if b {
        out.push(0xc3);
    } else {
        out.push(0xc2);
    }
    proof {
        assert(final(out)@ =~= old(out)@ + enc_bool(b));
    }
}

pub fn push_array_header(out: &mut Vec<u8>, n: usize)
    requires
        n < 0x1_0000_0000,
    ensures
        final(out)@ == old(out)@ + enc_array_header(n as nat),
{
    proof {
        lemma_pow256();
    }
    if n < 16 {
        out.push((0x90 + n) as u8);
    } else if n < 0x10000 {
        out.push(0xdc);
        push_be(out, n as u64, 2);
    } else {
        out.push(0xdd);
        push_be(out, n as u64, 4);
    }
    proof {
        assert(final(out)@ =~= old(out)@ + enc_array_header(n as nat));
    }
}

pub fn push_byte_array(out: &mut Vec<u8>, s: &[u8])
    requires
        s@.len() < 0x1_0000_0000,
    ensures
        final(out)@ == old(out)@ + enc_byte_array(s@),
{
    push_array_header(out, s.len());
    let ghost mid = out@;
    let mut i: usize = 0;
    while i < s.len()
        invariant
            i <= s@.len(),
            out@ == mid + enc_byte_items(s@.subrange(0, i as int)),
        decreases s@.len() - i,
    {
        push_uint(out, s[i] as u64);
        proof {
            let t = s@.subrange(0, i + 1);
            assert(t.drop_last() =~= s@.subrange(0, i as int));
            assert(out@ =~= mid + enc_byte_items(t));
        }
        i = i + 1;
    }
    proof {
        assert(s@.subrange(0, s@.len() as int) =~= s@);
        assert(final(out)@ =~= old(out)@ + enc_byte_array(s@));
    }
}

pub fn push_u64_array(out: &mut Vec<u8>, s: &[u64])
    requires
        s@.len() < 0x1_0000_0000,
    ensures
        final(out)@ == old(out)@ + enc_u64_array(s@),
{
    push_array_header(out, s.len());
    let ghost mid = out@;
    let mut i: usize = 0;
    while i < s.len()
        invariant
            i <= s@.len(),
            out@ == mid + enc_u64_items(s@.subrange(0, i as int)),
        decreases s@.len() - i,
    {
        push_uint(out, s[i]);
        proof {
            let t = s@.subrange(0, i + 1);
            assert(t.drop_last() =~= s@.subrange(0, i as int));
            assert(out@ =~= mid + enc_u64_items(t));
        }
        i = i + 1;
    }
    proof {
        assert(s@.subrange(0, s@.len() as int) =~= s@);
        assert(final(out)@ =~= old(out)@ + enc_u64_array(s@));
    }
}

pub open spec fn parse_be(b: Seq<u8>, i: int, k: nat) -> Option<(nat, int)> {
    if 0 <= i && i + k <= b.len() {
        Some((be_value(b.subrange(i, i + k)), i + k))
    } else {
        None
    }
}

/// Reads an unsigned integer in any of its MessagePack forms at position `i`.
pub open spec fn parse_uint(b: Seq<u8>, i: int) -> Option<(nat, int)> {
    if 0 <= i < b.len() {
        let m = b[i];
        if m < 0x80 {
            Some((m as nat, i + 1))
        } else if m == 0xcc {
            parse_be(b, i + 1, 1)
        } else if m == 0xcd {
            parse_be(b, i + 1, 2)
        } else if m == 0xce {
            parse_be(b, i + 1, 4)
        } else if m == 0xcf {
            parse_be(b, i + 1, 8)
        } else {
            None
        }
    } else {
        None
    }
}

pub open spec fn parse_str_header(b: Seq<u8>, i: int) -> Option<(nat, int)> {
    if 0 <= i < b.len() {
        let m = b[i];
        if 0xa0 <= m < 0xc0 {
            Some(((m - 0xa0) as nat, i + 1))
        } else if m == 0xd9 {
            parse_be(b, i + 1, 1)
        } else if m == 0xda {
            parse_be(b, i + 1, 2)
        } else if m == 0xdb {
            parse_be(b, i + 1, 4)
        } else {
            None
        }
    } else {
        None
    }
}

/// Reads a string in any of its MessagePack forms at position `i`, giving its bytes.
#[verifier::opaque]
pub open spec fn parse_str(b: Seq<u8>, i: int) -> Option<(Seq<u8>, int)> {
    match parse_str_header(b, i) {
        Some((n, j)) => if j + n <= b.len() {
            Some((b.subrange(j, j + n), j + n))
        } else {
            None
        },
        None => None,
    }
}

#[verifier::opaque]
pub open spec fn parse_bool(b: Seq<u8>, i: int) -> Option<(bool, int)> {
    if 0 <= i < b.len() && b[i] == 0xc3 {
        Some((true, i + 1))
    } else if 0 <= i < b.len() && b[i] == 0xc2 {
        Some((false, i + 1))
    } else {
        None
    }
}

pub open spec fn parse_array_header(b: Seq<u8>, i: int) -> Option<(nat, int)> {
    if 0 <= i < b.len() {
        let m = b[i];
        if 0x90 <= m < 0xa0 {
            Some(((m - 0x90) as nat, i + 1))
        } else if m == 0xdc {
            parse_be(b, i + 1, 2)
        } else if m == 0xdd {
            parse_be(b, i + 1, 4)
        } else {
            None
        }
    } else {
        None
    }
}

/// Reads `n` integers that each fit in a byte.
pub open spec fn parse_byte_items(b: Seq<u8>, i: int, n: nat) -> Option<(Seq<u8>, int)>
    decreases n,
{
    if n == 0 {
        Some((Seq::empty(), i))
    } else {
        match parse_byte_items(b, i, (n - 1) as nat) {
            Some((s, j)) => match parse_uint(b, j) {
                Some((v, k)) => if v < 256 {
                    Some((s.push(v as u8), k))
                } else {
                    None
                },
                None => None,
            },
            None => None,
        }
    }
}

/// Reads `n` integers that each fit in 64 bits.
pub open spec fn parse_u64_items(b: Seq<u8>, i: int, n: nat) -> Option<(Seq<u64>, int)>
    decreases n,
{
    if n == 0 {
        Some((Seq::empty(), i))
    } else {
        match parse_u64_items(b, i, (n - 1) as nat) {
            Some((s, j)) => match parse_uint(b, j) {
                Some((v, k)) => if v < 0x1_0000_0000_0000_0000 {
                    Some((s.push(v as u64), k))
                } else {
                    None
                },
                None => None,
            },
            None => None,
        }
    }
}

#[verifier::opaque]
pub open spec fn parse_byte_array(b: Seq<u8>, i: int) -> Option<(Seq<u8>, int)> {
    match parse_array_header(b, i) {
        Some((n, j)) => parse_byte_items(b, j, n),
        None => None,
    }
}

#[verifier::opaque]
pub open spec fn parse_u64_array(b: Seq<u8>, i: int) -> Option<(Seq<u64>, int)> {
    match parse_array_header(b, i) {
        Some((n, j)) => parse_u64_items(b, j, n),
        None => None,
    }
}

pub open spec fn lift_num(r: Option<(u64, usize)>) -> Option<(nat, int)> {
    match r {
        Some((v, j)) => Some((v as nat, j as int)),
        None => None,
    }
}

pub open spec fn lift_bytes(r: Option<(Vec<u8>, usize)>) -> Option<(Seq<u8>, int)> {
    match r {
        Some((v, j)) => Some((v@, j as int)),
        None => None,
    }
}

pub open spec fn lift_u64s(r: Option<(Vec<u64>, usize)>) -> Option<(Seq<u64>, int)> {
    match r {
        Some((v, j)) => Some((v@, j as int)),
        None => None,
    }
}

pub proof fn lemma_pow256_mono(a: nat, c: nat)
    requires
        a <= c,
    ensures
        pow256(a) <= pow256(c),
        pow256(a) >= 1,
    decreases c,
{
    if c > 0 {
        if a < c {
            lemma_pow256_mono(a, (c - 1) as nat);
        } else {
            lemma_pow256_mono((c - 1) as nat, (c - 1) as nat);
        }
    }
}

fn read_be(b: &[u8], i: usize, k: usize) -> (r: Option<(u64, usize)>)
    requires
        k <= 8,
    ensures
        lift_num(r) == parse_be(b@, i as int, k as nat),
{
    if i > b.len() || k > b.len() - i {
        return None;
    }
    let mut v: u64 = 0;
    let mut t: usize = 0;
    proof {
        assert(b@.subrange(i as int, i as int) =~= Seq::<u8>::empty());
        lemma_pow256_mono(0, 0);
    }
    while t < k
        invariant
            t <= k <= 8,
            i + k <= b.len(),
            v as nat == be_value(b@.subrange(i as int, i + t)),
            (v as nat) < pow256(t as nat),
        decreases k - t,
    {
        let byte = b[i + t];
        proof {
            lemma_pow256_mono((t + 1) as nat, 8);
            lemma_pow256();
            let p = pow256(t as nat);
            assert((v as nat) * 256 + (byte as nat) < p * 256) by (nonlinear_arith)
                requires
                    (v as nat) < p,
                    (byte as nat) < 256,
            ;
            let s = b@.subrange(i as int, i + t + 1);
            assert(s.drop_last() =~= b@.subrange(i as int, i + t));
        }
        v = v * 256 + byte as u64;
        t = t + 1;
    }
    Some((v, i + k))
}

pub fn read_uint(b: &[u8], i: usize) -> (r: Option<(u64, usize)>)
    ensures
        lift_num(r) == parse_uint(b@, i as int),
{
    if i >= b.len() {
        return None;
    }
    let m = b[i];
    if m < 0x80 {
        Some((m as u64, i + 1))
    } else if m == 0xcc {
        read_be(b, i + 1, 1)
    } else if m == 0xcd {
        read_be(b, i + 1, 2)
    } else if m == 0xce {
        read_be(b, i + 1, 4)
    } else if m == 0xcf {
        read_be(b, i + 1, 8)
    } else {
        None
    }
}

pub fn read_str(b: &[u8], i: usize) -> (r: Option<(Vec<u8>, usize)>)
    ensures
        lift_bytes(r) == parse_str(b@, i as int),
{
    reveal(parse_str);
    if i >= b.len() {
        return None;
    }
    let m = b[i];
    let h = if 0xa0 <= m && m < 0xc0 {
        Some(((m - 0xa0) as u64, i + 1))
    } else if m == 0xd9 {
        read_be(b, i + 1, 1)
    } else if m == 0xda {
        read_be(b, i + 1, 2)
    } else if m == 0xdb {
        read_be(b, i + 1, 4)
    } else {
        None
    };
    assert(lift_num(h) == parse_str_header(b@, i as int));
    match h {
        Some((n, j)) => {
            if j > b.len() || n > (b.len() - j) as u64 {
                return None;
            }
            let n = n as usize;
            let mut out: Vec<u8> = Vec::new();
            let mut t: usize = 0;
            while t < n
                invariant
                    j + n <= b.len(),
                    t <= n,
                    out@ == b@.subrange(j as int, j + t),
                decreases n - t,
            {
                out.push(b[j + t]);
                proof {
                    assert(b@.subrange(j as int, j + t + 1) =~= b@.subrange(j as int, j + t).push(
                        b@[j + t],
                    ));
                }
                t = t + 1;
            }
            Some((out, j + n))
        },
        None => None,
    }
}

pub fn read_bool(b: &[u8], i: usize) -> (r: Option<(bool, usize)>)
    ensures
        match r {
            Some((v, j)) => parse_bool(b@, i as int) == Some((v, j as int)),
            None => parse_bool(b@, i as int) is None,
        },
{
    reveal(parse_bool);
    if i < b.len() && b[i] == 0xc3 {
        Some((true, i + 1))
    } else if i < b.len() && b[i] == 0xc2 {
        Some((false, i + 1))
    } else {
        None
    }
}

pub fn read_array_header(b: &[u8], i: usize) -> (r: Option<(u64, usize)>)
    ensures
        lift_num(r) == parse_array_header(b@, i as int),
{
    if i >= b.len() {
        return None;
    }
    let m = b[i];
    if 0x90 <= m && m < 0xa0 {
        Some(((m - 0x90) as u64, i + 1))
    } else if m == 0xdc {
        read_be(b, i + 1, 2)
    } else if m == 0xdd {
        read_be(b, i + 1, 4)
    } else {
        None
    }
}

pub fn read_byte_array(b: &[u8], i: usize) -> (r: Option<(Vec<u8>, usize)>)
    ensures
        lift_bytes(r) == parse_byte_array(b@, i as int),
{
    reveal(parse_byte_array);
    let h = read_array_header(b, i);
    if h.is_none() {
        return None;
    }
    let (n, j) = h.unwrap();
    assert(parse_array_header(b@, i as int) == Some((n as nat, j as int)));
    let mut out: Vec<u8> = Vec::new();
    let mut pos: usize = j;
    let mut t: u64 = 0;
    while t < n
        invariant
            t <= n,
            parse_byte_items(b@, j as int, t as nat) == Some((out@, pos as int)),
            parse_array_header(b@, i as int) == Some((n as nat, j as int)),
        decreases n - t,
    {
        match read_uint(b, pos) {
            Some((v, k)) => {
                if v >= 256 {
                    proof {
                        reveal(parse_byte_array);
                        assert(parse_uint(b@, pos as int) == Some((v as nat, k as int)));
                        assert(parse_byte_items(b@, j as int, (t + 1) as nat) is None);
                        lemma_items_fail_bytes(b@, j as int, (t + 1) as nat, n as nat);
                    }
                    return None;
                }
                out.push(v as u8);
                pos = k;
            },
            None => {
                proof {
                    reveal(parse_byte_array);
                    assert(parse_uint(b@, pos as int) is None);
                    assert(parse_byte_items(b@, j as int, (t + 1) as nat) is None);
                    lemma_items_fail_bytes(b@, j as int, (t + 1) as nat, n as nat);
                }
                return None;
            },
        }
        t = t + 1;
    }
    Some((out, pos))
}

pub fn read_u64_array(b: &[u8], i: usize) -> (r: Option<(Vec<u64>, usize)>)
    ensures
        lift_u64s(r) == parse_u64_array(b@, i as int),
{
    reveal(parse_u64_array);
    let h = read_array_header(b, i);
    if h.is_none() {
        return None;
    }
    let (n, j) = h.unwrap();
    assert(parse_array_header(b@, i as int) == Some((n as nat, j as int)));
    let mut out: Vec<u64> = Vec::new();
    let mut pos: usize = j;
    let mut t: u64 = 0;
    while t < n
        invariant
            t <= n,
            parse_u64_items(b@, j as int, t as nat) == Some((out@, pos as int)),
            parse_array_header(b@, i as int) == Some((n as nat, j as int)),
        decreases n - t,
    {
        match read_uint(b, pos) {
            Some((v, k)) => {
                out.push(v);
                pos = k;
            },
            None => {
                proof {
                    reveal(parse_u64_array);
                    assert(parse_uint(b@, pos as int) is None);
                    assert(parse_u64_items(b@, j as int, (t + 1) as nat) is None);
                    lemma_items_fail_u64(b@, j as int, (t + 1) as nat, n as nat);
                }
                return None;
            },
        }
        t = t + 1;
    }
    Some((out, pos))
}

proof fn lemma_items_fail_bytes(b: Seq<u8>, i: int, t: nat, n: nat)
    requires
        t <= n,
        parse_byte_items(b, i, t) is None,
    ensures
        parse_byte_items(b, i, n) is None,
    decreases n - t,
{
    if t < n {
        lemma_items_fail_bytes(b, i, t + 1, n);
    }
}

proof fn lemma_items_fail_u64(b: Seq<u8>, i: int, t: nat, n: nat)
    requires
        t <= n,
        parse_u64_items(b, i, t) is None,
    ensures
        parse_u64_items(b, i, n) is None,
    decreases n - t,
{
    if t < n {
        lemma_items_fail_u64(b, i, t + 1, n);
    }
}

/// `e` stands in `b` from position `i` on.
pub open spec fn holds_at(b: Seq<u8>, i: int, e: Seq<u8>) -> bool {
    0 <= i && i + e.len() <= b.len() && b.subrange(i, i + e.len()) == e
}

pub proof fn lemma_holds_split(b: Seq<u8>, i: int, x: Seq<u8>, y: Seq<u8>)
    requires
        holds_at(b, i, x + y),
    ensures
        holds_at(b, i, x),
        holds_at(b, i + x.len(), y),
{
    let e = x + y;
    assert(b.subrange(i, i + x.len()) =~= e.subrange(0, x.len() as int));
    assert(e.subrange(0, x.len() as int) =~= x);
    assert(b.subrange(i + x.len(), i + x.len() + y.len()) =~= e.subrange(
        x.len() as int,
        e.len() as int,
    ));
    assert(e.subrange(x.len() as int, e.len() as int) =~= y);
}

proof fn lemma_holds_first(b: Seq<u8>, i: int, e: Seq<u8>)
    requires
        holds_at(b, i, e),
        e.len() > 0,
    ensures
        b[i] == e[0],
{
    assert(b.subrange(i, i + e.len())[0] == b[i]);
}

proof fn lemma_parse_be_enc(b: Seq<u8>, i: int, n: nat, k: nat)
    requires
        n < pow256(k),
        holds_at(b, i, be(n, k)),
    ensures
        parse_be(b, i, k) == Some((n, i + k)),
{
    lemma_be(n, k);
}

pub proof fn lemma_parse_uint_enc(b: Seq<u8>, i: int, n: nat)
    requires
        n < 0x1_0000_0000_0000_0000,
        holds_at(b, i, enc_uint(n)),
    ensures
        parse_uint(b, i) == Some((n, i + enc_uint(n).len())),
{
    lemma_pow256();
    let e = enc_uint(n);
    lemma_holds_first(b, i, e);
    if n < 128 {
    } else if n < 256 {
        lemma_be(n, 1);
        assert(be(n, 1) =~= seq![(n % 256) as u8]);
        assert(e =~= seq![0xccu8] + be(n, 1));
        lemma_holds_split(b, i, seq![0xccu8], be(n, 1));
        lemma_parse_be_enc(b, i + 1, n, 1);
    } else if n < 0x10000 {
        lemma_holds_split(b, i, seq![0xcdu8], be(n, 2));
        lemma_parse_be_enc(b, i + 1, n, 2);
        lemma_be(n, 2);
    } else if n < 0x1_0000_0000 {
        lemma_holds_split(b, i, seq![0xceu8], be(n, 4));
        lemma_parse_be_enc(b, i + 1, n, 4);
        lemma_be(n, 4);
    } else {
        lemma_holds_split(b, i, seq![0xcfu8], be(n, 8));
        lemma_parse_be_enc(b, i + 1, n, 8);
        lemma_be(n, 8);
    }
}

pub proof fn lemma_parse_str_enc(b: Seq<u8>, i: int, s: Seq<u8>)
    requires
        s.len() < 0x1_0000_0000,
        holds_at(b, i, enc_str(s)),
    ensures
        parse_str(b, i) == Some((s, i + enc_str(s).len())),
{
    reveal(parse_str);
    lemma_pow256();
    let n = s.len();
    let e = enc_str(s);
    lemma_holds_first(b, i, e);
    if n < 32 {
        lemma_holds_split(b, i, seq![(0xa0 + n) as u8], s);
        assert(parse_str_header(b, i) == Some((n, i + 1)));
    } else if n < 256 {
        lemma_be(n, 1);
        assert(be(n, 1) =~= seq![(n % 256) as u8]);
        assert(e =~= seq![0xd9u8] + be(n, 1) + s);
        lemma_holds_split(b, i, seq![0xd9u8] + be(n, 1), s);
        lemma_holds_split(b, i, seq![0xd9u8], be(n, 1));
        lemma_parse_be_enc(b, i + 1, n, 1);
    } else if n < 0x10000 {
        lemma_holds_split(b, i, seq![0xdau8] + be(n, 2), s);
        lemma_holds_split(b, i, seq![0xdau8], be(n, 2));
        lemma_parse_be_enc(b, i + 1, n, 2);
        lemma_be(n, 2);
    } else {
        lemma_holds_split(b, i, seq![0xdbu8] + be(n, 4), s);
        lemma_holds_split(b, i, seq![0xdbu8], be(n, 4));
        lemma_parse_be_enc(b, i + 1, n, 4);
        lemma_be(n, 4);
    }
}

pub proof fn lemma_parse_bool_enc(b: Seq<u8>, i: int, v: bool)
    requires
        holds_at(b, i, enc_bool(v)),
    ensures
        parse_bool(b, i) == Some((v, i + 1)),
{
    reveal(parse_bool);
    lemma_holds_first(b, i, enc_bool(v));
}

pub proof fn lemma_parse_array_header_enc(b: Seq<u8>, i: int, n: nat)
    requires
        n < 0x1_0000_0000,
        holds_at(b, i, enc_array_header(n)),
    ensures
        parse_array_header(b, i) == Some((n, i + enc_array_header(n).len())),
{
    lemma_pow256();
    lemma_holds_first(b, i, enc_array_header(n));
    if n < 16 {
    } else if n < 0x10000 {
        lemma_holds_split(b, i, seq![0xdcu8], be(n, 2));
        lemma_parse_be_enc(b, i + 1, n, 2);
        lemma_be(n, 2);
    } else {
        lemma_holds_split(b, i, seq![0xddu8], be(n, 4));
        lemma_parse_be_enc(b, i + 1, n, 4);
        lemma_be(n, 4);
    }
}

pub proof fn lemma_parse_byte_items_enc(b: Seq<u8>, i: int, s: Seq<u8>)
    requires
        holds_at(b, i, enc_byte_items(s)),
    ensures
        parse_byte_items(b, i, s.len()) == Some((s, i + enc_byte_items(s).len())),
    decreases s.len(),
{
    if s.len() > 0 {
        let p = s.drop_last();
        lemma_holds_split(b, i, enc_byte_items(p), enc_uint(s.last() as nat));
        lemma_parse_byte_items_enc(b, i, p);
        lemma_parse_uint_enc(b, i + enc_byte_items(p).len(), s.last() as nat);
        assert(p.push(s.last()) =~= s);
        assert((s.last() as nat) as u8 == s.last());
    }
}

pub proof fn lemma_parse_u64_items_enc(b: Seq<u8>, i: int, s: Seq<u64>)
    requires
        holds_at(b, i, enc_u64_items(s)),
    ensures
        parse_u64_items(b, i, s.len()) == Some((s, i + enc_u64_items(s).len())),
    decreases s.len(),
{
    if s.len() > 0 {
        let p = s.drop_last();
        lemma_holds_split(b, i, enc_u64_items(p), enc_uint(s.last() as nat));
        lemma_parse_u64_items_enc(b, i, p);
        lemma_parse_uint_enc(b, i + enc_u64_items(p).len(), s.last() as nat);
        assert(p.push(s.last()) =~= s);
        assert((s.last() as nat) as u64 == s.last());
    }
}

pub proof fn lemma_parse_byte_array_enc(b: Seq<u8>, i: int, s: Seq<u8>)
    requires
        s.len() < 0x1_0000_0000,
        holds_at(b, i, enc_byte_array(s)),
    ensures
        parse_byte_array(b, i) == Some((s, i + enc_byte_array(s).len())),
{
    reveal(parse_byte_array);
    lemma_holds_split(b, i, enc_array_header(s.len()), enc_byte_items(s));
    lemma_parse_array_header_enc(b, i, s.len());
    lemma_parse_byte_items_enc(b, i + enc_array_header(s.len()).len(), s);
}

pub proof fn lemma_parse_u64_array_enc(b: Seq<u8>, i: int, s: Seq<u64>)
    requires
        s.len() < 0x1_0000_0000,
        holds_at(b, i, enc_u64_array(s)),
    ensures
        parse_u64_array(b, i) == Some((s, i + enc_u64_array(s).len())),
{
    reveal(parse_u64_array);
    lemma_holds_split(b, i, enc_array_header(s.len()), enc_u64_items(s));
    lemma_parse_array_header_enc(b, i, s.len());
    lemma_parse_u64_items_enc(b, i + enc_array_header(s.len()).len(), s);
}

/// `p` is the first `p.len()` bytes of `b`.
pub open spec fn is_prefix(p: Seq<u8>, b: Seq<u8>) -> bool {
    p.len() <= b.len() && p == b.subrange(0, p.len() as int)
}

proof fn lemma_prefix_index(p: Seq<u8>, b: Seq<u8>, k: int)
    requires
        is_prefix(p, b),
        0 <= k < p.len(),
    ensures
        p[k] == b[k],
{
    assert(b.subrange(0, p.len() as int)[k] == b[k]);
}

proof fn lemma_prefix_subrange(p: Seq<u8>, b: Seq<u8>, i: int, j: int)
    requires
        is_prefix(p, b),
        0 <= i <= j <= p.len(),
    ensures
        p.subrange(i, j) == b.subrange(i, j),
{
    assert(p.subrange(i, j) =~= b.subrange(i, j)) by {
        assert forall|k: int| 0 <= k < j - i implies p.subrange(i, j)[k] == b.subrange(i, j)[k] by {
            lemma_prefix_index(p, b, i + k);
        }
    }
}

proof fn lemma_ext_be(p: Seq<u8>, b: Seq<u8>, i: int, k: nat)
    requires
        is_prefix(p, b),
        parse_be(p, i, k) is Some,
    ensures
        parse_be(b, i, k) == parse_be(p, i, k),
{
    lemma_prefix_subrange(p, b, i, i + k);
}

pub proof fn lemma_ext_uint(p: Seq<u8>, b: Seq<u8>, i: int)
    requires
        is_prefix(p, b),
        parse_uint(p, i) is Some,
    ensures
        parse_uint(b, i) == parse_uint(p, i),
{
    lemma_prefix_index(p, b, i);
    let m = p[i];
    if m == 0xcc {
        lemma_ext_be(p, b, i + 1, 1);
    } else if m == 0xcd {
        lemma_ext_be(p, b, i + 1, 2);
    } else if m == 0xce {
        lemma_ext_be(p, b, i + 1, 4);
    } else if m == 0xcf {
        lemma_ext_be(p, b, i + 1, 8);
    }
}

pub proof fn lemma_ext_str(p: Seq<u8>, b: Seq<u8>, i: int)
    requires
        is_prefix(p, b),
        parse_str(p, i) is Some,
    ensures
        parse_str(b, i) == parse_str(p, i),
{
    reveal(parse_str);
    lemma_prefix_index(p, b, i);
    let m = p[i];
    if m == 0xd9 {
        lemma_ext_be(p, b, i + 1, 1);
    } else if m == 0xda {
        lemma_ext_be(p, b, i + 1, 2);
    } else if m == 0xdb {
        lemma_ext_be(p, b, i + 1, 4);
    }
    let (n, j) = parse_str_header(p, i)->0;
    lemma_prefix_subrange(p, b, j, j + n);
}

pub proof fn lemma_ext_bool(p: Seq<u8>, b: Seq<u8>, i: int)
    requires
        is_prefix(p, b),
        parse_bool(p, i) is Some,
    ensures
        parse_bool(b, i) == parse_bool(p, i),
{
    reveal(parse_bool);
    lemma_prefix_index(p, b, i);
}

proof fn lemma_ext_array_header(p: Seq<u8>, b: Seq<u8>, i: int)
    requires
        is_prefix(p, b),
        parse_array_header(p, i) is Some,
    ensures
        parse_array_header(b, i) == parse_array_header(p, i),
{
    lemma_prefix_index(p, b, i);
    let m = p[i];
    if m == 0xdc {
        lemma_ext_be(p, b, i + 1, 2);
    } else if m == 0xdd {
        lemma_ext_be(p, b, i + 1, 4);
    }
}

proof fn lemma_ext_byte_items(p: Seq<u8>, b: Seq<u8>, i: int, n: nat)
    requires
        is_prefix(p, b),
        parse_byte_items(p, i, n) is Some,
    ensures
        parse_byte_items(b, i, n) == parse_byte_items(p, i, n),
    decreases n,
{
    if n > 0 {
        lemma_ext_byte_items(p, b, i, (n - 1) as nat);
        let (s, j) = parse_byte_items(p, i, (n - 1) as nat)->0;
        lemma_ext_uint(p, b, j);
    }
}

proof fn lemma_ext_u64_items(p: Seq<u8>, b: Seq<u8>, i: int, n: nat)
    requires
        is_prefix(p, b),
        parse_u64_items(p, i, n) is Some,
    ensures
        parse_u64_items(b, i, n) == parse_u64_items(p, i, n),
    decreases n,
{
    if n > 0 {
        lemma_ext_u64_items(p, b, i, (n - 1) as nat);
        let (s, j) = parse_u64_items(p, i, (n - 1) as nat)->0;
        lemma_ext_uint(p, b, j);
    }
}

pub proof fn lemma_ext_byte_array(p: Seq<u8>, b: Seq<u8>, i: int)
    requires
        is_prefix(p, b),
        parse_byte_array(p, i) is Some,
    ensures
        parse_byte_array(b, i) == parse_byte_array(p, i),
{
    reveal(parse_byte_array);
    lemma_ext_array_header(p, b, i);
    let (n, j) = parse_array_header(p, i)->0;
    lemma_ext_byte_items(p, b, j, n);
}

pub proof fn lemma_ext_u64_array(p: Seq<u8>, b: Seq<u8>, i: int)
    requires
        is_prefix(p, b),
        parse_u64_array(p, i) is Some,
    ensures
        parse_u64_array(b, i) == parse_u64_array(p, i),
{
    reveal(parse_u64_array);
    lemma_ext_array_header(p, b, i);
    let (n, j) = parse_array_header(p, i)->0;
    lemma_ext_u64_items(p, b, j, n);
}

} // verus!
