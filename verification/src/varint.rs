//! Unsigned variable-length integers: little-endian groups of seven bits, the
//! high bit of each byte set on every byte but the last.
use vstd::prelude::*;

verus! {

/// Why a variable-length integer could not be read.
#[derive(Debug, Clone, Copy, PartialEq, Eq, Structural)]
pub enum VarIntError {
    /// The buffer ends before the last byte of the integer.
    Insufficient,
    /// The integer has more bytes than its type allows, or its value does not fit the type.
    Overflow,
    /// The integer ends with a zero byte that a shorter encoding would not have.
    NotMinimal,
}

/// Most bytes that the encoding of a `u32` takes.
pub const U32_VARINT_MAX_BYTES: usize = 5;

/// Most bytes that the encoding of a `u64` takes.
pub const U64_VARINT_MAX_BYTES: usize = 10;

/// `128` to the power `n`.
pub open spec fn pow128(n: nat) -> nat
    decreases n,
{
    if n == 0 {
        1
    } else {
        128 * pow128((n - 1) as nat)
    }
}

/// Number of leading bytes of `s` whose high bit is set.
pub open spec fn continuation_run(s: Seq<u8>) -> nat
    decreases s.len(),
{
    if s.len() > 0 && s[0] >= 128 {
        1 + continuation_run(s.drop_first())
    } else {
        0
    }
}

/// The number whose base-128 digits, least significant first, are the low
/// seven bits of the bytes of `s`.
pub open spec fn payload_value(s: Seq<u8>) -> nat
    decreases s.len(),
{
    if s.len() == 0 {
        0
    } else {
        (s[0] % 128) as nat + 128 * payload_value(s.drop_first())
    }
}

/// The encoding of `v`: one byte per base-128 digit, least significant first,
/// with the high bit set on all but the last byte.
pub open spec fn spec_encode_varint(v: nat) -> Seq<u8>
    decreases v,
{
    if v < 128 {
        seq![v as u8]
    } else {
        seq![(v % 128 + 128) as u8] + spec_encode_varint(v / 128)
    }
}

/// Reading an integer of at most `max_bytes` bytes and of value at most
/// `max_value` from the front of `s`: the value and the number of bytes read.
pub open spec fn spec_decode_varint(s: Seq<u8>, max_bytes: nat, max_value: nat) -> Result<
    (nat, nat),
    VarIntError,
> {
    let k = continuation_run(s);
    if k < s.len() && k < max_bytes {
        if k > 0 && s[k as int] == 0 {
            Err(VarIntError::NotMinimal)
        } else if payload_value(s.take(k + 1 as int)) <= max_value {
            Ok((payload_value(s.take(k + 1 as int)), k + 1))
        } else {
            Err(VarIntError::Overflow)
        }
    } else if s.len() >= max_bytes {
        Err(VarIntError::Overflow)
    } else {
        Err(VarIntError::Insufficient)
    }
}

/// Reading a `u32`.
pub open spec fn spec_decode_u32(s: Seq<u8>) -> Result<(nat, nat), VarIntError> {
    spec_decode_varint(s, U32_VARINT_MAX_BYTES as nat, u32::MAX as nat)
}

/// Reading a `u64`.
pub open spec fn spec_decode_u64(s: Seq<u8>) -> Result<(nat, nat), VarIntError> {
    spec_decode_varint(s, U64_VARINT_MAX_BYTES as nat, u64::MAX as nat)
}

/// An executable result of reading agrees with the mathematical one.
pub open spec fn decode_agrees(
    res: Result<(u64, usize), VarIntError>,
    spec: Result<(nat, nat), VarIntError>,
) -> bool {
    match res {
        Ok((v, n)) => spec == Ok::<(nat, nat), VarIntError>((v as nat, n as nat)),
        Err(e) => spec == Err::<(nat, nat), VarIntError>(e),
    }
}

proof fn lemma_pow128_mono(a: nat, b: nat)
    requires
        a <= b,
    ensures
        pow128(a) <= pow128(b),
        pow128(a) >= 1,
    decreases b,
{
    if b > 0 && a < b {
        lemma_pow128_mono(a, (b - 1) as nat);
    } else if a > 0 {
        lemma_pow128_mono((a - 1) as nat, (a - 1) as nat);
    }
}

proof fn lemma_pow128_ten()
    ensures
        pow128(5) == 0x8_0000_0000,
        pow128(10) == 0x40_0000_0000_0000_0000,
{
    reveal_with_fuel(pow128, 11);
}

/// A run of set high bits of length `k` that ends at byte `k` or at the end.
proof fn lemma_continuation_run(s: Seq<u8>, k: nat)
    requires
        k <= s.len(),
        forall|j: int| 0 <= j < k ==> s[j] >= 128,
    ensures
        continuation_run(s) >= k,
        k < s.len() && s[k as int] < 128 ==> continuation_run(s) == k,
        k == s.len() ==> continuation_run(s) == k,
    decreases k,
{
    if k > 0 {
        let t = s.drop_first();
        assert forall|j: int| 0 <= j < k - 1 implies t[j] >= 128 by {
            assert(t[j] == s[j + 1]);
        }
        lemma_continuation_run(t, (k - 1) as nat);
    }
}

/// Reading one more byte in front of a suffix.
proof fn lemma_payload_step(s: Seq<u8>, j: int, e: int)
    requires
        0 < j <= e <= s.len(),
    ensures
        payload_value(s.subrange(j - 1, e)) == (s[j - 1] % 128) as nat + 128 * payload_value(
            s.subrange(j, e),
        ),
{
    let a = s.subrange(j - 1, e);
    assert(a.drop_first() =~= s.subrange(j, e));
    assert(a[0] == s[j - 1]);
}

proof fn lemma_div_mod_128(v: nat, a: nat, b: nat)
    requires
        a < 128,
        v == a + 128 * b,
    ensures
        v % 128 == a,
        v / 128 == b,
{
    assert(v % 128 == a && v / 128 == b) by (nonlinear_arith)
        requires
            a < 128,
            v == a + 128 * b,
    ;
}

/// The encoding of `v` has at most `n` bytes when `v < 128^n`.
pub proof fn lemma_encode_len_bound(v: nat, n: nat)
    requires
        n >= 1,
        v < pow128(n),
    ensures
        spec_encode_varint(v).len() <= n,
        spec_encode_varint(v).len() >= 1,
    decreases v,
{
    if v >= 128 {
        reveal_with_fuel(pow128, 2);
        assert(n >= 2);
        let m = (n - 1) as nat;
        lemma_div_mod_128(v, v % 128, v / 128);
        assert(v / 128 < pow128(m)) by (nonlinear_arith)
            requires
                v < 128 * pow128(m),
                v == v % 128 + 128 * (v / 128),
                v % 128 >= 0,
        ;
        lemma_encode_len_bound(v / 128, m);
    }
}

/// Shape of an encoding: every byte but the last has its high bit set, the
/// last does not, the low bits read back as `v`, and the last byte is zero only
/// for a one-byte encoding of zero.
pub proof fn lemma_encode_shape(v: nat)
    ensures
        ({
            let e = spec_encode_varint(v);
            &&& e.len() >= 1
            &&& forall|j: int| 0 <= j < e.len() - 1 ==> e[j] >= 128
            &&& e[e.len() - 1] < 128
            &&& payload_value(e) == v
            &&& (e[e.len() - 1] == 0 <==> v == 0)
        }),
    decreases v,
{
    let e = spec_encode_varint(v);
    if v < 128 {
        assert(e.drop_first() =~= Seq::<u8>::empty());
        assert(payload_value(e.drop_first()) == 0);
        assert(e[0] == v as u8);
        assert(payload_value(e) == (e[0] % 128) as nat);
    } else {
        let r = spec_encode_varint(v / 128);
        lemma_encode_shape(v / 128);
        let b = (v % 128 + 128) as u8;
        assert(e =~= seq![b] + r);
        assert(e.drop_first() =~= r);
        assert forall|j: int| 0 <= j < e.len() - 1 implies e[j] >= 128 by {
            if j > 0 {
                assert(e[j] == r[j - 1]);
            }
        }
        assert(e[e.len() - 1] == r[r.len() - 1]);
        assert(b % 128 == v % 128);
        assert(v == v % 128 + 128 * (v / 128) && v / 128 >= 1) by (nonlinear_arith)
            requires
                v >= 128,
        ;
        assert(payload_value(e) == (e[0] % 128) as nat + 128 * payload_value(r));
    }
}

/// The run of set high bits over an encoding followed by anything stops at
/// the encoding's last byte.
proof fn lemma_encode_run(v: nat, rest: Seq<u8>)
    ensures
        continuation_run(spec_encode_varint(v) + rest) == spec_encode_varint(v).len() - 1,
{
    let e = spec_encode_varint(v);
    lemma_encode_shape(v);
    let s = e + rest;
    let k = (e.len() - 1) as nat;
    assert forall|j: int| 0 <= j < k implies s[j] >= 128 by {
        assert(s[j] == e[j]);
    }
    assert(s[k as int] == e[k as int]);
    lemma_continuation_run(s, k);
}

/// Reading back an encoding: the value is read whole, and no byte that
/// follows the encoding is read.
pub proof fn lemma_decode_encode(v: nat, rest: Seq<u8>, max_bytes: nat, max_value: nat)
    requires
        v <= max_value,
        spec_encode_varint(v).len() <= max_bytes,
    ensures
        spec_decode_varint(spec_encode_varint(v) + rest, max_bytes, max_value) == Ok::<
            (nat, nat),
            VarIntError,
        >((v, spec_encode_varint(v).len())),
{
    let e = spec_encode_varint(v);
    let s = e + rest;
    lemma_encode_shape(v);
    lemma_encode_run(v, rest);
    let k = (e.len() - 1) as nat;
    assert(s.take(k + 1 as int) =~= e);
    assert(s[k as int] == e[k as int]);
    if k > 0 {
        assert(v != 0) by {
            if v == 0 {
                assert(e.len() == 1);
            }
        }
    }
}

proof fn lemma_payload_zero(t: Seq<u8>)
    requires
        payload_value(t) == 0,
    ensures
        forall|j: int| 0 <= j < t.len() ==> t[j] % 128 == 0,
    decreases t.len(),
{
    if t.len() > 0 {
        lemma_payload_zero(t.drop_first());
        assert forall|j: int| 0 <= j < t.len() implies t[j] % 128 == 0 by {
            if j > 0 {
                assert(t[j] == t.drop_first()[j - 1]);
            }
        }
    }
}

/// A well-formed sequence of bytes is the encoding of the value it holds.
proof fn lemma_canonical(t: Seq<u8>)
    requires
        t.len() >= 1,
        forall|j: int| 0 <= j < t.len() - 1 ==> t[j] >= 128,
        t[t.len() - 1] < 128,
        t.len() > 1 ==> t[t.len() - 1] != 0,
    ensures
        spec_encode_varint(payload_value(t)) == t,
    decreases t.len(),
{
    let v = payload_value(t);
    if t.len() == 1 {
        assert(t.drop_first() =~= Seq::<u8>::empty());
        assert(payload_value(t.drop_first()) == 0);
        assert(v == (t[0] % 128) as nat);
        assert(v == t[0] as nat);
        assert(spec_encode_varint(v) =~= t);
    } else {
        let r = t.drop_first();
        assert forall|j: int| 0 <= j < r.len() - 1 implies r[j] >= 128 by {
            assert(r[j] == t[j + 1]);
        }
        assert(r[r.len() - 1] == t[t.len() - 1]);
        lemma_canonical(r);
        let w = payload_value(r);
        if w == 0 {
            lemma_payload_zero(r);
            assert(r[r.len() - 1] % 128 == 0);
        }
        assert(v == (t[0] % 128) as nat + 128 * w);
        lemma_div_mod_128(v, (t[0] % 128) as nat, w);
        assert(v >= 128);
        assert(((v % 128 + 128) as u8) == t[0]);
        assert(spec_encode_varint(v) =~= seq![t[0]] + r);
        assert(t =~= seq![t[0]] + r);
    }
}

/// Whatever reads successfully is the encoding of the value read: encodings
/// are unique.
pub proof fn lemma_encode_decode(s: Seq<u8>, max_bytes: nat, max_value: nat)
    requires
        spec_decode_varint(s, max_bytes, max_value) is Ok,
    ensures
        ({
            let (v, n) = spec_decode_varint(s, max_bytes, max_value)->Ok_0;
            &&& spec_encode_varint(v) == s.take(n as int)
            &&& 1 <= n <= max_bytes
            &&& n <= s.len()
            &&& v <= max_value
        }),
{
    let k = continuation_run(s);
    lemma_run_facts(s);
    let t = s.take(k + 1 as int);
    assert forall|j: int| 0 <= j < t.len() - 1 implies t[j] >= 128 by {
        assert(t[j] == s[j]);
    }
    assert(t[t.len() - 1] == s[k as int]);
    lemma_canonical(t);
}

/// What the run of set high bits says of the bytes it covers and of the
/// byte that ends it.
proof fn lemma_run_facts(s: Seq<u8>)
    ensures
        continuation_run(s) <= s.len(),
        forall|j: int| 0 <= j < continuation_run(s) ==> s[j] >= 128,
        continuation_run(s) < s.len() ==> s[continuation_run(s) as int] < 128,
    decreases s.len(),
{
    if s.len() > 0 && s[0] >= 128 {
        let t = s.drop_first();
        lemma_run_facts(t);
        assert forall|j: int| 0 <= j < continuation_run(s) implies s[j] >= 128 by {
            if j > 0 {
                assert(s[j] == t[j - 1]);
            }
        }
        if continuation_run(s) < s.len() {
            assert(s[continuation_run(s) as int] == t[continuation_run(t) as int]);
        }
    }
}

/// A successful read depends only on the bytes it read: the same bytes
/// followed by anything else read the same way.
pub proof fn lemma_decode_prefix(s: Seq<u8>, rest: Seq<u8>, max_bytes: nat, max_value: nat)
    requires
        spec_decode_varint(s, max_bytes, max_value) is Ok,
    ensures
        ({
            let (v, n) = spec_decode_varint(s, max_bytes, max_value)->Ok_0;
            spec_decode_varint(s.take(n as int) + rest, max_bytes, max_value) == Ok::<
                (nat, nat),
                VarIntError,
            >((v, n))
        }),
{
    let (v, n) = spec_decode_varint(s, max_bytes, max_value)->Ok_0;
    lemma_encode_decode(s, max_bytes, max_value);
    lemma_decode_encode(v, rest, max_bytes, max_value);
}

/// Encodes `v`.
pub fn encode_varint(v: u64) -> (out: Vec<u8>)
    ensures
        out@ == spec_encode_varint(v as nat),
{
    let mut out: Vec<u8> = Vec::new();
    let mut x: u64 = v;
    while x >= 128
        invariant
            out@ + spec_encode_varint(x as nat) == spec_encode_varint(v as nat),
        decreases x,
    {
        let b: u8 = (x % 128 + 128) as u8;
        let ghost old_out = out@;
        assert(spec_encode_varint(x as nat) == seq![b] + spec_encode_varint((x / 128) as nat));
        out.push(b);
        assert(out@ + spec_encode_varint((x / 128) as nat) =~= old_out + (seq![b]
            + spec_encode_varint((x / 128) as nat)));
        x = x / 128;
    }
    let b: u8 = x as u8;
    assert(spec_encode_varint(x as nat) == seq![b]);
    out.push(b);
    out
}

/// Reads an integer of at most `max_bytes` bytes and of value at most
/// `max_value` from the front of `buffer`.
pub fn decode_varint(buffer: &[u8], max_bytes: usize, max_value: u64) -> (res: Result<
    (u64, usize),
    VarIntError,
>)
    requires
        1 <= max_bytes <= U64_VARINT_MAX_BYTES,
    ensures
        decode_agrees(res, spec_decode_varint(buffer@, max_bytes as nat, max_value as nat)),
{
    let ghost s = buffer@;
    let mut k: usize = 0;
    while k < buffer.len() && k < max_bytes && buffer[k] >= 128
        invariant
            k <= buffer.len(),
            k <= max_bytes,
            s == buffer@,
            forall|j: int| 0 <= j < k ==> s[j] >= 128,
        decreases max_bytes - k,
    {
        k = k + 1;
    }
    proof {
        lemma_continuation_run(s, k as nat);
    }
    if k < buffer.len() && k < max_bytes {
        if k > 0 && buffer[k] == 0 {
            return Err(VarIntError::NotMinimal);
        }
        let mut v: u128 = 0;
        let mut j: usize = k + 1;
        proof {
            assert(s.subrange(j as int, (k + 1) as int) =~= Seq::<u8>::empty());
            lemma_pow128_ten();
        }
        while j > 0
            invariant
                j <= k + 1,
                k < buffer.len(),
                k < max_bytes <= 10,
                s == buffer@,
                pow128(10) == 0x40_0000_0000_0000_0000,
                v == payload_value(s.subrange(j as int, (k + 1) as int)),
                v < pow128((k + 1 - j) as nat),
            decreases j,
        {
            proof {
                lemma_payload_step(s, j as int, (k + 1) as int);
                lemma_pow128_mono((k + 2 - j) as nat, 10);
            }
            j = j - 1;
            v = v * 128 + (buffer[j] % 128) as u128;
        }
        assert(s.subrange(0, (k + 1) as int) =~= s.take((k + 1) as int));
        if v <= max_value as u128 {
            Ok((v as u64, k + 1))
        } else {
            Err(VarIntError::Overflow)
        }
    } else if buffer.len() >= max_bytes {
        Err(VarIntError::Overflow)
    } else {
        Err(VarIntError::Insufficient)
    }
}

/// Encodes a `u32`; the encoding takes between one and five bytes.
pub fn u32_to_varint_bytes(v: u32) -> (out: Vec<u8>)
    ensures
        out@ == spec_encode_varint(v as nat),
        1 <= out@.len() <= U32_VARINT_MAX_BYTES,
{
    proof {
        lemma_pow128_ten();
        lemma_encode_len_bound(v as nat, 5);
    }
    encode_varint(v as u64)
}

/// Encodes a `u64`; the encoding takes between one and ten bytes.
pub fn u64_to_varint_bytes(v: u64) -> (out: Vec<u8>)
    ensures
        out@ == spec_encode_varint(v as nat),
        1 <= out@.len() <= U64_VARINT_MAX_BYTES,
{
    proof {
        lemma_pow128_ten();
        lemma_encode_len_bound(v as nat, 10);
    }
    encode_varint(v)
}

/// Reads a `u32` from the front of `buffer`: the value and the number of
/// bytes read.
pub fn u32_from_varint_bytes(buffer: &[u8]) -> (res: Result<(u32, usize), VarIntError>)
    ensures
        match res {
            Ok((v, n)) => spec_decode_u32(buffer@) == Ok::<(nat, nat), VarIntError>(
                (v as nat, n as nat),
            ),
            Err(e) => spec_decode_u32(buffer@) == Err::<(nat, nat), VarIntError>(e),
        },
{
    match decode_varint(buffer, U32_VARINT_MAX_BYTES, u32::MAX as u64) {
        Ok((v, n)) => Ok((v as u32, n)),
        Err(e) => Err(e),
    }
}

/// Reads a `u64` from the front of `buffer`: the value and the number of
/// bytes read.
pub fn u64_from_varint_bytes(buffer: &[u8]) -> (res: Result<(u64, usize), VarIntError>)
    ensures
        decode_agrees(res, spec_decode_u64(buffer@)),
{
    decode_varint(buffer, U64_VARINT_MAX_BYTES, u64::MAX)
}

/// A `u32` written and read back is the same `u32`, and reading stops where
/// the encoding ends, whatever follows it.
pub proof fn lemma_u32_roundtrip(v: u32, rest: Seq<u8>)
    ensures
        spec_decode_u32(spec_encode_varint(v as nat) + rest) == Ok::<(nat, nat), VarIntError>(
            (v as nat, spec_encode_varint(v as nat).len()),
        ),
{
    lemma_pow128_ten();
    lemma_encode_len_bound(v as nat, 5);
    lemma_decode_encode(v as nat, rest, 5, u32::MAX as nat);
}

/// A `u64` written and read back is the same `u64`, and reading stops where
/// the encoding ends, whatever follows it.
pub proof fn lemma_u64_roundtrip(v: u64, rest: Seq<u8>)
    ensures
        spec_decode_u64(spec_encode_varint(v as nat) + rest) == Ok::<(nat, nat), VarIntError>(
            (v as nat, spec_encode_varint(v as nat).len()),
        ),
{
    lemma_pow128_ten();
    lemma_encode_len_bound(v as nat, 10);
    lemma_decode_encode(v as nat, rest, 10, u64::MAX as nat);
}

} // verus!
