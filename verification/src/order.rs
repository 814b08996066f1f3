use vstd::prelude::*;
use vstd::utf8::encode_utf8;

verus! {

/// Byte-wise lexicographic comparison of `a` and `b`, looking from position `i` on.
pub open spec fn bytes_lt_from(a: Seq<u8>, b: Seq<u8>, i: int) -> bool
    decreases a.len() - i,
{
    if i >= a.len() {
        0 <= i < b.len()
    } else if i < 0 || i >= b.len() {
        false
    } else if a[i] != b[i] {
        a[i] < b[i]
    } else {
        bytes_lt_from(a, b, i + 1)
    }
}

/// Byte-wise lexicographic order, the order of `String` keys in a sorted set.
pub open spec fn bytes_lt(a: Seq<u8>, b: Seq<u8>) -> bool {
    bytes_lt_from(a, b, 0)
}

/// Order of strings by their UTF-8 bytes.
pub open spec fn str_lt(a: Seq<char>, b: Seq<char>) -> bool {
    bytes_lt(encode_utf8(a), encode_utf8(b))
}

/// Result of comparing two byte strings.
pub enum Order {
    Less,
    Equal,
    Greater,
}

pub proof fn lemma_bytes_lt_from_irreflexive(a: Seq<u8>, i: int)
    requires
        0 <= i,
    ensures
        !bytes_lt_from(a, a, i),
    decreases a.len() - i,
{
    if i < a.len() {
        lemma_bytes_lt_from_irreflexive(a, i + 1);
    }
}

pub proof fn lemma_bytes_lt_from_asymmetric(a: Seq<u8>, b: Seq<u8>, i: int)
    requires
        0 <= i,
        bytes_lt_from(a, b, i),
    ensures
        !bytes_lt_from(b, a, i),
    decreases a.len() - i,
{
    if i < a.len() && i < b.len() && a[i] == b[i] {
        lemma_bytes_lt_from_asymmetric(a, b, i + 1);
    }
}

pub proof fn lemma_bytes_lt_from_transitive(a: Seq<u8>, b: Seq<u8>, c: Seq<u8>, i: int)
    requires
        0 <= i,
        bytes_lt_from(a, b, i),
        bytes_lt_from(b, c, i),
    ensures
        bytes_lt_from(a, c, i),
    decreases a.len() - i,
{
    if i < a.len() && i < b.len() && i < c.len() && a[i] == b[i] && b[i] == c[i] {
        lemma_bytes_lt_from_transitive(a, b, c, i + 1);
    }
}

/// Two byte strings that agree up to `i` and are not ordered either way from `i` are equal.
pub proof fn lemma_bytes_lt_from_total(a: Seq<u8>, b: Seq<u8>, i: int)
    requires
        0 <= i <= a.len(),
        i <= b.len(),
        a.take(i) == b.take(i),
        !bytes_lt_from(a, b, i),
        !bytes_lt_from(b, a, i),
    ensures
        a == b,
    decreases a.len() - i,
{
    if i < a.len() && i < b.len() {
        assert(a.take(i + 1) =~= a.take(i).push(a[i]));
        assert(b.take(i + 1) =~= b.take(i).push(b[i]));
        lemma_bytes_lt_from_total(a, b, i + 1);
    } else {
        assert(a =~= a.take(i));
        assert(b =~= b.take(i));
    }
}

pub proof fn lemma_str_lt_irreflexive(a: Seq<char>)
    ensures
        !str_lt(a, a),
{
    lemma_bytes_lt_from_irreflexive(encode_utf8(a), 0);
}

pub proof fn lemma_str_lt_asymmetric(a: Seq<char>, b: Seq<char>)
    requires
        str_lt(a, b),
    ensures
        !str_lt(b, a),
{
    lemma_bytes_lt_from_asymmetric(encode_utf8(a), encode_utf8(b), 0);
}

pub proof fn lemma_str_lt_transitive(a: Seq<char>, b: Seq<char>, c: Seq<char>)
    requires
        str_lt(a, b),
        str_lt(b, c),
    ensures
        str_lt(a, c),
{
    lemma_bytes_lt_from_transitive(encode_utf8(a), encode_utf8(b), encode_utf8(c), 0);
}

/// Strings that are not ordered either way are equal.
pub proof fn lemma_str_lt_total(a: Seq<char>, b: Seq<char>)
    requires
        !str_lt(a, b),
        !str_lt(b, a),
    ensures
        a == b,
{
    let ea = encode_utf8(a);
    let eb = encode_utf8(b);
    assert(ea.take(0) =~= eb.take(0));
    lemma_bytes_lt_from_total(ea, eb, 0);
    vstd::utf8::encode_utf8_decode_utf8(a);
    vstd::utf8::encode_utf8_decode_utf8(b);
}

/// Compares two strings by their UTF-8 bytes.
pub fn compare_str(a: &str, b: &str) -> (r: Order)
    ensures
        r is Less <==> str_lt(a@, b@),
        r is Greater <==> str_lt(b@, a@),
        r is Equal <==> a@ == b@,
{
    let x = a.as_bytes();
    let y = b.as_bytes();
    let ghost ex = encode_utf8(a@);
    let ghost ey = encode_utf8(b@);
    let mut i: usize = 0;
    while i < x.len() && i < y.len() && x[i] == y[i]
        invariant
            x@ == ex,
            y@ == ey,
            i <= x@.len(),
            i <= y@.len(),
            x@.take(i as int) == y@.take(i as int),
            bytes_lt(ex, ey) == bytes_lt_from(ex, ey, i as int),
            bytes_lt(ey, ex) == bytes_lt_from(ey, ex, i as int),
        decreases x@.len() - i,
    {
        assert(x@.take(i + 1) =~= x@.take(i as int).push(x@[i as int]));
        assert(y@.take(i + 1) =~= y@.take(i as int).push(y@[i as int]));
        i = i + 1;
    }
    proof {
        if str_lt(a@, b@) {
            lemma_str_lt_asymmetric(a@, b@);
            lemma_str_lt_irreflexive(a@);
        }
        if str_lt(b@, a@) {
            lemma_str_lt_irreflexive(b@);
        }
    }
    if i < x.len() && i < y.len() {
        if x[i] < y[i] {
            Order::Less
        } else {
            Order::Greater
        }
    } else if i < y.len() {
        Order::Less
    } else if i < x.len() {
        Order::Greater
    } else {
        proof {
            lemma_str_lt_total(a@, b@);
        }
        Order::Equal
    }
}

/// Returns true if the two strings are equal.
pub fn same_str(a: &str, b: &str) -> (r: bool)
    ensures
        r == (a@ == b@),
{
    match compare_str(a, b) {
        Order::Equal => true,
        _ => false,
    }
}

} // verus!
