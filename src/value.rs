//! Scalar WebAssembly values and the little-endian argument wire format.
use vstd::prelude::*;
use vstd::arithmetic::div_mod::{lemma_div_denominator, lemma_mod_breakdown, lemma_small_mod};

verus! {

/// The type of a WebAssembly function parameter or result.
#[derive(Clone, Copy, Debug, PartialEq, Eq, Structural)]
pub enum ValType {
    I32,
    I64,
    F32,
    F64,
    V128,
    ExternRef,
    FuncRef,
}

/// A scalar WebAssembly value.
///
/// Floating-point values are carried as their IEEE-754 bit patterns, so that a
/// value crosses the runtime bit for bit.
#[derive(Clone, Copy, Debug, PartialEq, Eq, Structural)]
pub enum Value {
    I32(i32),
    I64(i64),
    F32(u32),
    F64(u64),
    V128(u128),
}

/// Number of bytes a parameter of type `t` occupies in an argument buffer;
/// references have no width because they never cross between actors.
pub open spec fn width_of(t: ValType) -> Option<nat> {
    match t {
        ValType::I32 => Some(4),
        ValType::I64 => Some(8),
        ValType::F32 => Some(4),
        ValType::F64 => Some(8),
        ValType::V128 => Some(16),
        ValType::ExternRef => None,
        ValType::FuncRef => None,
    }
}

/// `256` raised to the power `n`.
pub open spec fn pow256(n: nat) -> nat
    decreases n,
{
    if n == 0 {
        1
    } else {
        256 * pow256((n - 1) as nat)
    }
}

/// The unsigned number whose little-endian encoding is `s`.
pub open spec fn le_nat(s: Seq<u8>) -> nat
    decreases s.len(),
{
    if s.len() == 0 {
        0
    } else {
        s[0] as nat + 256 * le_nat(s.drop_first())
    }
}

/// The value of type `t` whose little-endian encoding is `bytes`.
pub open spec fn decode_spec(t: ValType, bytes: Seq<u8>) -> Option<Value> {
    match t {
        ValType::I32 => Some(Value::I32(le_nat(bytes) as i32)),
        ValType::I64 => Some(Value::I64(le_nat(bytes) as i64)),
        ValType::F32 => Some(Value::F32(le_nat(bytes) as u32)),
        ValType::F64 => Some(Value::F64(le_nat(bytes) as u64)),
        ValType::V128 => Some(Value::V128(le_nat(bytes) as u128)),
        ValType::ExternRef => None,
        ValType::FuncRef => None,
    }
}

/// The value of type `t` stored at offset `pos` of `mem`, if it lies wholly
/// inside `mem` and `t` is a scalar type.
pub open spec fn decode_at(t: ValType, mem: Seq<u8>, pos: int) -> Option<Value> {
    match width_of(t) {
        None => None,
        Some(w) => if 0 <= pos && pos + w <= mem.len() {
            decode_spec(t, mem.subrange(pos, pos + w))
        } else {
            None
        },
    }
}

/// The values of types `params`, packed one after the other from offset `pos`
/// of `mem`; `None` if any of them cannot be read.
pub open spec fn unpack(params: Seq<ValType>, mem: Seq<u8>, pos: int) -> Option<Seq<Value>>
    decreases params.len(),
{
    if params.len() == 0 {
        Some(Seq::empty())
    } else {
        match decode_at(params[0], mem, pos) {
            None => None,
            Some(v) => match unpack(params.drop_first(), mem, pos + width_of(params[0])->0) {
                None => None,
                Some(rest) => Some(seq![v] + rest),
            },
        }
    }
}

/// The argument tuple a handler with parameter types `params` receives from
/// `from`: the sender's address, then the remaining parameters read from the
/// argument buffer at `ptr`.
pub open spec fn call_args(from: u32, params: Seq<ValType>, mem: Seq<u8>, ptr: int) -> Option<
    Seq<Value>,
> {
    if params.len() == 0 {
        None
    } else {
        match unpack(params.drop_first(), mem, ptr) {
            None => None,
            Some(rest) => Some(seq![Value::I32(from as i32)] + rest),
        }
    }
}

proof fn lemma_le_nat_bound(s: Seq<u8>)
    ensures
        le_nat(s) < pow256(s.len()),
    decreases s.len(),
{
    if s.len() > 0 {
        let r = s.drop_first();
        lemma_le_nat_bound(r);
        let a = s[0] as nat;
        let b = le_nat(r);
        let p = pow256(r.len());
        assert(a + 256 * b < 256 * p) by (nonlinear_arith)
            requires
                a < 256,
                b < p,
        ;
    }
}

pub(crate) proof fn lemma_pow256_pos(n: nat)
    ensures
        pow256(n) > 0,
    decreases n,
{
    if n > 0 {
        lemma_pow256_pos((n - 1) as nat);
    }
}

proof fn lemma_pow256_mono(a: nat, b: nat)
    requires
        a <= b,
    ensures
        pow256(a) <= pow256(b),
    decreases b,
{
    if a < b {
        lemma_pow256_mono(a, (b - 1) as nat);
    }
}

proof fn lemma_pow256_15()
    ensures
        pow256(15) == 1329227995784915872903807060280344576nat,
{
    assert(pow256(0) == 1nat);
    assert(pow256(1) == 256nat);
    assert(pow256(2) == 65536nat);
    assert(pow256(3) == 16777216nat);
    assert(pow256(4) == 4294967296nat);
    assert(pow256(5) == 1099511627776nat);
    assert(pow256(6) == 281474976710656nat);
    assert(pow256(7) == 72057594037927936nat);
    assert(pow256(8) == 18446744073709551616nat);
    assert(pow256(9) == 4722366482869645213696nat);
    assert(pow256(10) == 1208925819614629174706176nat);
    assert(pow256(11) == 309485009821345068724781056nat);
    assert(pow256(12) == 79228162514264337593543950336nat);
    assert(pow256(13) == 20282409603651670423947251286016nat);
    assert(pow256(14) == 5192296858534827628530496329220096nat);
    assert(pow256(15) == 1329227995784915872903807060280344576nat);
}

/// Byte `i` of the little-endian encoding of `x`.
pub open spec fn le_byte(x: nat, i: nat) -> u8 {
    ((x / pow256(i)) % 256) as u8
}

/// The `n`-byte little-endian encoding of `x`, truncated to `n` bytes.
pub open spec fn le_bytes(x: nat, n: nat) -> Seq<u8> {
    Seq::new(n, |i: int| le_byte(x, i as nat))
}

/// The type of a value.
pub open spec fn type_of(v: Value) -> ValType {
    match v {
        Value::I32(_) => ValType::I32,
        Value::I64(_) => ValType::I64,
        Value::F32(_) => ValType::F32,
        Value::F64(_) => ValType::F64,
        Value::V128(_) => ValType::V128,
    }
}

/// The bits of a value, as an unsigned number.
pub open spec fn bits_of(v: Value) -> nat {
    match v {
        Value::I32(x) => x as u32 as nat,
        Value::I64(x) => x as u64 as nat,
        Value::F32(b) => b as nat,
        Value::F64(b) => b as nat,
        Value::V128(x) => x as nat,
    }
}

/// The bytes a sender writes for `v` into its argument buffer.
pub open spec fn encode_spec(v: Value) -> Seq<u8> {
    le_bytes(bits_of(v), width_of(type_of(v))->0)
}

proof fn lemma_le_nat_of_bytes(x: nat, n: nat)
    ensures
        le_nat(le_bytes(x, n)) == x % pow256(n),
    decreases n,
{
    let s = le_bytes(x, n);
    if n == 0 {
        assert(pow256(0) == 1);
    } else {
        let m = (n - 1) as nat;
        let r = le_bytes(x / 256, m);
        assert forall|i: int| 0 <= i < m implies #[trigger] s.drop_first()[i] == r[i] by {
            lemma_pow256_pos(i as nat);
            lemma_div_denominator(x as int, 256, pow256(i as nat) as int);
            assert(pow256((i + 1) as nat) == 256 * pow256(i as nat));
        }
        assert(s.drop_first() =~= r);
        lemma_le_nat_of_bytes(x / 256, m);
        lemma_pow256_pos(m);
        lemma_mod_breakdown(x as int, 256, pow256(m) as int);
        assert(pow256(0) == 1);
        assert(s[0] as nat == x % 256);
        assert(pow256(n) == 256 * pow256(m));
    }
}

proof fn lemma_pow256_widths()
    ensures
        pow256(4) == 0x1_0000_0000,
        pow256(8) == 0x1_0000_0000_0000_0000,
        pow256(16) == 0x1_0000_0000_0000_0000_0000_0000_0000_0000,
{
    lemma_pow256_15();
    assert(pow256(16) == 256 * pow256(15));
    reveal_with_fuel(pow256, 9);
}

/// Every scalar value survives the wire format: the bytes a sender writes
/// for it have its type's width and decode to the same value, bit for bit.
pub proof fn lemma_round_trip(v: Value)
    ensures
        encode_spec(v).len() == width_of(type_of(v))->0,
        decode_spec(type_of(v), encode_spec(v)) == Some(v),
{
    let w = width_of(type_of(v))->0;
    lemma_le_nat_of_bytes(bits_of(v), w);
    lemma_pow256_widths();
    lemma_small_mod(bits_of(v), pow256(w));
    match v {
        Value::I32(x) => {
            assert((x as u32) as i32 == x) by (bit_vector);
        },
        Value::I64(x) => {
            assert((x as u64) as i64 == x) by (bit_vector);
        },
        _ => {},
    }
}

/// A value a sender writes into its argument buffer for a handler whose only
/// parameter after the sender is of that value's type reaches the handler
/// bit for bit, after the sender's address.
pub proof fn lemma_argument_round_trip(from: u32, v: Value, mem: Seq<u8>, ptr: int)
    requires
        0 <= ptr,
        ptr + encode_spec(v).len() <= mem.len(),
        mem.subrange(ptr, ptr + encode_spec(v).len()) == encode_spec(v),
    ensures
        call_args(from, seq![ValType::I32, type_of(v)], mem, ptr) == Some(
            seq![Value::I32(from as i32), v],
        ),
{
    lemma_round_trip(v);
    let t = type_of(v);
    let w = width_of(t)->0;
    let ps = seq![ValType::I32, t];
    assert(decode_at(t, mem, ptr) == Some(v));
    assert(ps.drop_first() =~= seq![t]);
    assert(seq![t].drop_first() =~= Seq::<ValType>::empty());
    assert(unpack(Seq::<ValType>::empty(), mem, ptr + w) == Some(Seq::<Value>::empty()));
    assert(seq![v] + Seq::<Value>::empty() =~= seq![v]);
    assert(unpack(seq![t], mem, ptr) == Some(seq![v]));
    assert(seq![Value::I32(from as i32)] + seq![v] =~= seq![Value::I32(from as i32), v]);
}

/// Byte width of a parameter of type `t` in an argument buffer.
pub fn byte_width(t: ValType) -> (r: Option<usize>)
    ensures
        r is Some <==> width_of(t) is Some,
        r is Some ==> r->0 as nat == width_of(t)->0,
{
    match t {
        ValType::I32 => Some(4),
        ValType::I64 => Some(8),
        ValType::F32 => Some(4),
        ValType::F64 => Some(8),
        ValType::V128 => Some(16),
        ValType::ExternRef => None,
        ValType::FuncRef => None,
    }
}

/// Reads the `n`-byte little-endian number at offset `start` of `mem`.
pub(crate) fn read_le(mem: &[u8], start: usize, n: usize) -> (r: u128)
    requires
        n <= 16,
        start + n <= mem@.len(),
        start + n <= usize::MAX,
    ensures
        r as nat == le_nat(mem@.subrange(start as int, start + n)),
{
    let mut acc: u128 = 0;
    let mut i: usize = n;
    proof {
        assert(mem@.subrange(start + n, start + n).len() == 0);
    }
    while i > 0
        invariant
            i <= n,
            n <= 16,
            start + n <= mem@.len(),
            start + n <= usize::MAX,
            acc as nat == le_nat(mem@.subrange(start + i, start + n)),
        decreases i,
    {
        i = i - 1;
        proof {
            let s = mem@.subrange(start + i, start + n);
            let r = mem@.subrange(start + i + 1, start + n);
            assert(s.drop_first() =~= r);
            lemma_le_nat_bound(r);
            lemma_pow256_mono(r.len(), 15);
            lemma_pow256_15();
            assert(acc * 256 + 255 <= u128::MAX);
        }
        acc = acc * 256 + mem[start + i] as u128;
    }
    acc
}

/// Decodes the value of type `t` stored little-endian at offset `pos` of
/// `mem`; `None` for reference types and for reads past the end of `mem`.
pub fn decode_le(t: ValType, mem: &[u8], pos: usize) -> (r: Option<Value>)
    ensures
        r == decode_at(t, mem@, pos as int),
{
    let w = match byte_width(t) {
        None => return None,
        Some(w) => w,
    };
    if pos > mem.len() || w > mem.len() - pos {
        return None;
    }
    let n = read_le(mem, pos, w);
    match t {
        ValType::I32 => Some(Value::I32(n as i32)),
        ValType::I64 => Some(Value::I64(n as i64)),
        ValType::F32 => Some(Value::F32(n as u32)),
        ValType::F64 => Some(Value::F64(n as u64)),
        ValType::V128 => Some(Value::V128(n)),
        ValType::ExternRef => None,
        ValType::FuncRef => None,
    }
}

/// Builds the argument tuple for a handler with parameter types `params`,
/// called by `from`: parameter 0 is the sender's address, and every further
/// parameter is read from the sender's memory `mem`, packed from offset `ptr`
/// at its natural width. `None` when the handler takes no parameter, declares
/// a reference parameter, or the buffer runs past the end of `mem`.
pub fn marshal_args(from: u32, params: &Vec<ValType>, mem: &[u8], ptr: u32) -> (r: Option<
    Vec<Value>,
>)
    ensures
        r is Some <==> call_args(from, params@, mem@, ptr as int) is Some,
        r is Some ==> r->0@ == call_args(from, params@, mem@, ptr as int)->0,
{
    if params.len() == 0 {
        return None;
    }
    let mut out: Vec<Value> = Vec::new();
    out.push(Value::I32(from as i32));
    let mut pos: usize = ptr as usize;
    let mut i: usize = 1;
    let len = mem.len();
    let ghost tail = params@.drop_first();
    while i < params.len()
        invariant
            1 <= i <= params@.len(),
            mem@.len() == len,
            tail == params@.drop_first(),
            out@.len() >= 1,
            out@[0] == Value::I32(from as i32),
            unpack(tail, mem@, ptr as int) == match unpack(params@.skip(i as int), mem@, pos as int) {
                None => None,
                Some(rest) => Some(out@.drop_first() + rest),
            },
        decreases params@.len() - i,
    {
        let t = params[i];
        proof {
            let s = params@.skip(i as int);
            assert(s[0] == t);
            assert(s.drop_first() =~= params@.skip(i + 1));
        }
        match decode_le(t, mem, pos) {
            None => {
                return None;
            },
            Some(v) => {
                let w = match byte_width(t) {
                    Some(w) => w,
                    None => {
                        return None;
                    },
                };
                proof {
                    assert(out@.drop_first().push(v) =~= out@.push(v).drop_first());
                    assert forall|rest: Seq<Value>|
                        #![auto]
                        out@.drop_first() + (seq![v] + rest) =~= out@.push(v).drop_first()
                            + rest by {}
                }
                out.push(v);
                pos = pos + w;
            },
        }
        i = i + 1;
    }
    proof {
        assert(params@.skip(i as int).len() == 0);
        assert(out@.drop_first() + Seq::<Value>::empty() =~= out@.drop_first());
        assert(seq![Value::I32(from as i32)] + out@.drop_first() =~= out@);
    }
    Some(out)
}

} // verus!
