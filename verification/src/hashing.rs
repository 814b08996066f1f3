use std::collections::hash_map::DefaultHasher;
use std::hash::Hasher;
use vstd::prelude::*;
use vstd::std_specs::hash::DefaultHasherAdditionalSpecFns;

use crate::symbol_set::SymbolSet;
use crate::value::Value;

verus! {

/// The `width` low bytes of `x`, least significant first when `le` holds,
/// most significant first otherwise.
pub open spec fn int_bytes(x: u64, width: nat, le: bool) -> Seq<u8> {
    let s = Seq::new(width, |k: int| (x >> ((8 * k) as u64)) as u8);
    if le {
        s
    } else {
        s.reverse()
    }
}

/// Number of bytes in a `usize`.
pub open spec fn usize_width() -> nat {
    (usize::BITS / 8) as nat
}

/// The writes that `Hash for str` performs on a hasher: the UTF-8 bytes of
/// the string, then the terminator byte `0xff`.
pub open spec fn str_hash_writes(s: Seq<char>) -> Seq<Seq<u8>> {
    seq![vstd::utf8::encode_utf8(s), seq![0xffu8]]
}

/// The writes of hashing each string of `s` in turn.
pub open spec fn strs_hash_writes(s: Seq<Seq<char>>) -> Seq<Seq<u8>>
    decreases s.len(),
{
    if s.len() == 0 {
        Seq::empty()
    } else {
        strs_hash_writes(s.drop_last()) + str_hash_writes(s.last())
    }
}

/// The writes of hashing an ordered string set: the member count as a
/// `usize` in the platform's byte order, then each member in order.
pub open spec fn set_hash_writes(s: Seq<Seq<char>>, le: bool) -> Seq<Seq<u8>> {
    seq![int_bytes(s.len() as u64, usize_width(), le)] + strs_hash_writes(s)
}

/// The writes of hashing the payload of a value; integers and float bits
/// are written in the platform's byte order (`le` says which).
pub open spec fn value_hash_writes(v: Value, le: bool) -> Seq<Seq<u8>> {
    match v {
        Value::Empty => Seq::empty(),
        Value::Bool(b) => seq![seq![if b { 1u8 } else { 0u8 }]],
        Value::TextBuffer(t) => str_hash_writes(t@),
        Value::Int(i) => seq![int_bytes(i as u32 as u64, 4, le)],
        Value::IntPair(a, b) => seq![
            int_bytes(a as u32 as u64, 4, le),
            int_bytes(b as u32 as u64, 4, le),
        ],
        Value::IntRange(a, b, c) => seq![
            int_bytes(a as u32 as u64, 4, le),
            int_bytes(b as u32 as u64, 4, le),
            int_bytes(c as u32 as u64, 4, le),
        ],
        Value::Float(f) => seq![int_bytes(f as u64, 4, le)],
        Value::FloatPair(a, b) => seq![int_bytes(a as u64, 4, le), int_bytes(b as u64, 4, le)],
        Value::FloatRange(a, b, c) => seq![
            int_bytes(a as u64, 4, le),
            int_bytes(b as u64, 4, le),
            int_bytes(c as u64, 4, le),
        ],
        Value::BinaryVector(bytes) => seq![int_bytes(bytes@.len() as u64, usize_width(), le), bytes@],
        Value::Reference(r) => seq![int_bytes(r, 8, le)],
        Value::Symbol(s) => str_hash_writes(s@),
        Value::Complex(c) => set_hash_writes(c@, le),
    }
}

/// The intern key of a symbol: the default hasher's digest of the symbol's
/// hash writes. It does not depend on the platform.
pub open spec fn spec_symbol_key(s: Seq<char>) -> u64 {
    DefaultHasher::spec_finish(str_hash_writes(s))
}

/// The intern key of a string set under the byte order `le`.
pub open spec fn spec_set_key(s: Seq<Seq<char>>, le: bool) -> u64 {
    DefaultHasher::spec_finish(set_hash_writes(s, le))
}

/// The reference key of a value under the byte order `le`: a reference is
/// its own key, any other value is the digest of its hash writes.
pub open spec fn spec_value_key(v: Value, le: bool) -> u64 {
    match v {
        Value::Reference(r) => r,
        _ => DefaultHasher::spec_finish(value_hash_writes(v, le)),
    }
}

/// True if the platform this runs on stores integers least significant
/// byte first (vstd's `endianness()` is little).
pub open spec fn platform_le() -> bool {
    vstd::endian::endianness() matches vstd::endian::Endian::Little
}

/// Returns the memory representation of `x` in the platform's byte order
/// (`u16::to_ne_bytes`): its little endian bytes on a little endian
/// platform, their reverse on a big endian one.
#[verifier::external_body]
fn native_u16_bytes(x: u16) -> (b: [u8; 2])
    ensures
        b@ == int_bytes(x as u64, 2, platform_le()),
{
    x.to_ne_bytes()
}

/// Returns true if the platform stores integers least significant byte first.
pub(crate) fn native_little_endian() -> (le: bool)
    ensures
        le == platform_le(),
{
    let b = native_u16_bytes(1);
    proof {
        assert((1u64 >> 0u64) as u8 == 1u8) by (bit_vector);
        assert((1u64 >> 8u64) as u8 == 0u8) by (bit_vector);
        let s = Seq::new(2, |k: int| (1u64 >> ((8 * k) as u64)) as u8);
        assert(s[0] == 1u8);
        assert(s[1] == 0u8);
        if !platform_le() {
            assert(b@[0] == s.reverse()[0]);
        }
    }
    b[0] == 1u8
}

/// Returns the `width` low bytes of `x` in the byte order `le`.
pub fn bytes_of(x: u64, width: usize, le: bool) -> (b: Vec<u8>)
    requires
        width <= 8,
    ensures
        b@ == int_bytes(x, width as nat, le),
{
    let ghost s = Seq::new(width as nat, |k: int| (x >> ((8 * k) as u64)) as u8);
    let mut out: Vec<u8> = Vec::new();
    let mut k: usize = 0;
    while k < width
        invariant
            k <= width <= 8,
            s == Seq::new(width as nat, |j: int| (x >> ((8 * j) as u64)) as u8),
            out@ == (if le {
                s.take(k as int)
            } else {
                s.reverse().take(k as int)
            }),
        decreases width - k,
    {
        let pos: usize = if le {
            k
        } else {
            width - 1 - k
        };
        let shift: u64 = 8 * (pos as u64);
        out.push((x >> shift) as u8);
        proof {
            if le {
                assert(s.take(k + 1) =~= s.take(k as int).push(s[k as int]));
            } else {
                assert(s.reverse().take(k + 1) =~= s.reverse().take(k as int).push(
                    s.reverse()[k as int],
                ));
            }
        }
        k = k + 1;
    }
    proof {
        if le {
            assert(s.take(width as int) =~= s);
        } else {
            assert(s.reverse().take(width as int) =~= s.reverse());
        }
    }
    out
}

/// Feeds a string to a hasher as `Hash for str` does.
fn write_str(state: &mut DefaultHasher, s: &str)
    ensures
        final(state)@ == old(state)@ + str_hash_writes(s@),
{
    state.write(s.as_bytes());
    let terminator: [u8; 1] = [0xffu8];
    assert(terminator@ =~= seq![0xffu8]);
    state.write(terminator.as_slice());
    assert(final(state)@ =~= old(state)@ + str_hash_writes(s@));
}

/// Writes the `width` low bytes of `x` in the byte order `le`.
fn write_int(state: &mut DefaultHasher, x: u64, width: usize, le: bool)
    requires
        width <= 8,
    ensures
        final(state)@ == old(state)@.push(int_bytes(x, width as nat, le)),
{
    let b = bytes_of(x, width, le);
    state.write(b.as_slice());
}

/// Returns the intern key of a symbol.
pub fn symbol_key(s: &str) -> (key: u64)
    ensures
        key == spec_symbol_key(s@),
{
    let mut state = DefaultHasher::new();
    write_str(&mut state, s);
    assert(state@ =~= str_hash_writes(s@));
    state.finish()
}

/// Feeds an ordered string set to a hasher as `Hash for BTreeSet<String>`
/// does.
fn write_set(state: &mut DefaultHasher, set: &SymbolSet, le: bool)
    ensures
        final(state)@ == old(state)@ + set_hash_writes(set@, le),
{
    let n = set.len();
    write_int(state, n as u64, (usize::BITS / 8) as usize, le);
    let ghost start = old(state)@.push(int_bytes(n as u64, usize_width(), le));
    let mut i: usize = 0;
    while i < n
        invariant
            n == set@.len(),
            i <= n,
            state@ == start + strs_hash_writes(set@.take(i as int)),
        decreases n - i,
    {
        let s = set.get(i);
        write_str(state, s.as_str());
        proof {
            assert(set@.take(i + 1).drop_last() =~= set@.take(i as int));
            assert(state@ =~= start + strs_hash_writes(set@.take(i + 1)));
        }
        i = i + 1;
    }
    assert(set@.take(n as int) =~= set@);
    assert(state@ =~= old(state)@ + set_hash_writes(set@, le));
}

/// Returns the intern key of an ordered string set under the byte order `le`.
pub fn set_key(set: &SymbolSet, le: bool) -> (key: u64)
    ensures
        key == spec_set_key(set@, le),
{
    let mut state = DefaultHasher::new();
    write_set(&mut state, set, le);
    assert(state@ =~= set_hash_writes(set@, le));
    state.finish()
}

/// Returns the reference key of a value under the byte order `le`.
pub fn value_key(v: &Value, le: bool) -> (key: u64)
    ensures
        key == spec_value_key(*v, le),
{
    if let Value::Reference(r) = v {
        return *r;
    }
    let mut state = DefaultHasher::new();
    match v {
        Value::Empty => {},
        Value::Bool(b) => {
            let byte: [u8; 1] = [if *b {
                1u8
            } else {
                0u8
            }];
            assert(byte@ =~= seq![if *b { 1u8 } else { 0u8 }]);
            state.write(byte.as_slice());
            assert(state@ =~= value_hash_writes(*v, le));
        },
        Value::TextBuffer(t) => {
            write_str(&mut state, t.as_str());
            assert(state@ =~= value_hash_writes(*v, le));
        },
        Value::Int(i) => {
            write_int(&mut state, (#[verifier::truncate] (*i as u32)) as u64, 4, le);
            assert(state@ =~= value_hash_writes(*v, le));
        },
        Value::IntPair(a, b) => {
            write_int(&mut state, (#[verifier::truncate] (*a as u32)) as u64, 4, le);
            write_int(&mut state, (#[verifier::truncate] (*b as u32)) as u64, 4, le);
            assert(state@ =~= value_hash_writes(*v, le));
        },
        Value::IntRange(a, b, c) => {
            write_int(&mut state, (#[verifier::truncate] (*a as u32)) as u64, 4, le);
            write_int(&mut state, (#[verifier::truncate] (*b as u32)) as u64, 4, le);
            write_int(&mut state, (#[verifier::truncate] (*c as u32)) as u64, 4, le);
            assert(state@ =~= value_hash_writes(*v, le));
        },
        Value::Float(f) => {
            write_int(&mut state, *f as u64, 4, le);
            assert(state@ =~= value_hash_writes(*v, le));
        },
        Value::FloatPair(a, b) => {
            write_int(&mut state, *a as u64, 4, le);
            write_int(&mut state, *b as u64, 4, le);
            assert(state@ =~= value_hash_writes(*v, le));
        },
        Value::FloatRange(a, b, c) => {
            write_int(&mut state, *a as u64, 4, le);
            write_int(&mut state, *b as u64, 4, le);
            write_int(&mut state, *c as u64, 4, le);
            assert(state@ =~= value_hash_writes(*v, le));
        },
        Value::BinaryVector(bytes) => {
            write_int(&mut state, bytes.len() as u64, (usize::BITS / 8) as usize, le);
            state.write(bytes.as_slice());
            assert(state@ =~= value_hash_writes(*v, le));
        },
        Value::Reference(_) => {},
        Value::Symbol(s) => {
            write_str(&mut state, s.as_str());
            assert(state@ =~= value_hash_writes(*v, le));
        },
        Value::Complex(c) => {
            write_set(&mut state, c, le);
            assert(state@ =~= value_hash_writes(*v, le));
        },
    }
    assert(state@ =~= value_hash_writes(*v, le));
    state.finish()
}

} // verus!
