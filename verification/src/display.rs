use vstd::prelude::*;

use crate::codec::{base64_encoded, encode_base64};
use crate::hashing::spec_value_key;
use crate::hashing::platform_le;
use crate::properties::{Property, PropertyModel};
use crate::symbol_set::SymbolSet;
use crate::text::push_char;
use crate::value::{Value, ValueModel};

verus! {

/// What `{:?}` writes for a string: the string quoted, with escapes.
pub uninterp spec fn str_debug(s: Seq<char>) -> Seq<char>;

/// Returns the `Debug` text of a string (`format!("{:?}", s)`): the string
/// quoted, with escapes. It depends on the string alone.
#[verifier::external_body]
fn debug_text(s: &str) -> (r: String)
    ensures
        r@ == str_debug(s@),
{
    format!("{:?}", s)
}

/// The decimal digit `d`, for `d < 10`.
pub open spec fn digit_char(d: int) -> char {
    (48 + d) as char
}

/// The decimal numeral of `n`, without leading zeros.
pub open spec fn nat_text(n: nat) -> Seq<char>
    decreases n,
{
    if n < 10 {
        seq![digit_char(n as int)]
    } else {
        nat_text(n / 10).push(digit_char((n % 10) as int))
    }
}

/// The decimal numeral of `i`, with a leading `-` where it is negative.
pub open spec fn int_text(i: int) -> Seq<char> {
    if i < 0 {
        seq!['-'] + nat_text((-i) as nat)
    } else {
        nat_text(i as nat)
    }
}

/// The members of a string set as `{:?}` writes them: each quoted and
/// escaped, separated by `, `, in braces.
pub open spec fn set_debug(members: Seq<Seq<char>>) -> Seq<char> {
    seq!['{'] + joined_debug(members) + seq!['}']
}

/// The members, each quoted and escaped, separated by `, `.
pub open spec fn joined_debug(members: Seq<Seq<char>>) -> Seq<char>
    decreases members.len(),
{
    if members.len() == 0 {
        Seq::empty()
    } else if members.len() == 1 {
        str_debug(members[0])
    } else {
        joined_debug(members.drop_last()) + seq![',', ' '] + str_debug(members.last())
    }
}

/// True if the value is a float, a float pair or a float range.
pub open spec fn is_float_kind(v: ValueModel) -> bool {
    v is Float || v is FloatPair || v is FloatRange
}

/// The text a value is displayed as (floats aside): `()` for empty, the
/// bool, the text, the integer, `[a, b]` and `[a, b, c]` for pairs and
/// ranges, the length of a binary vector, `ref:` and the reference, the
/// symbol, the members of a complex.
pub open spec fn value_text(v: ValueModel) -> Seq<char> {
    match v {
        ValueModel::Empty => seq!['(', ')'],
        ValueModel::Bool(b) => if b {
            seq!['t', 'r', 'u', 'e']
        } else {
            seq!['f', 'a', 'l', 's', 'e']
        },
        ValueModel::TextBuffer(t) => t,
        ValueModel::Int(i) => int_text(i as int),
        ValueModel::IntPair(a, b) => seq!['['] + int_text(a as int) + seq![',', ' '] + int_text(b as int)
            + seq![']'],
        ValueModel::IntRange(a, b, c) => seq!['['] + int_text(a as int) + seq![',', ' '] + int_text(
            b as int,
        ) + seq![',', ' '] + int_text(c as int) + seq![']'],
        ValueModel::BinaryVector(bytes) => "binary-vector omitted, len: "@ + nat_text(bytes.len()),
        ValueModel::Reference(r) => seq!['r', 'e', 'f', ':'] + nat_text(r as nat),
        ValueModel::Symbol(s) => s,
        ValueModel::Complex(c) => set_debug(c),
        _ => Seq::empty(),
    }
}

/// Appends the decimal numeral of `n` to `s`.
fn push_nat(s: &mut String, n: u64)
    ensures
        final(s)@ == old(s)@ + nat_text(n as nat),
    decreases n,
{
    if n >= 10 {
        push_nat(s, n / 10);
    }
    let d = (n % 10) as u8;
    push_char(s, (48u8 + d) as char);
    proof {
        if n >= 10 {
            assert(nat_text(n as nat) == nat_text((n / 10) as nat).push(digit_char((n % 10) as int)));
        }
    }
}

/// Appends the decimal numeral of `i` to `s`.
fn push_int(s: &mut String, i: i32)
    ensures
        final(s)@ == old(s)@ + int_text(i as int),
{
    if i < 0 {
        push_char(s, '-');
        let magnitude = (-(i as i64)) as u64;
        push_nat(s, magnitude);
    } else {
        push_nat(s, i as u64);
    }
}

/// Appends `text` to `s`.
fn push_str(s: &mut String, text: &str)
    ensures
        final(s)@ == old(s)@ + text@,
{
    s.append(text);
}

/// Appends the members of a complex, as `{:?}` writes a string set.
fn push_set(s: &mut String, c: &SymbolSet)
    ensures
        final(s)@ == old(s)@ + set_debug(c@),
{
    let ghost start = s@;
    push_char(s, '{');
    let n = c.len();
    let mut i: usize = 0;
    while i < n
        invariant
            i <= n,
            n == c@.len(),
            s@ == start + seq!['{'] + joined_debug(c@.take(i as int)),
        decreases n - i,
    {
        proof {
            assert(c@.take(i + 1).drop_last() =~= c@.take(i as int));
            assert(c@.take(i + 1).last() == c@[i as int]);
        }
        if i > 0 {
            push_char(s, ',');
            push_char(s, ' ');
        }
        let text = debug_text(c.get(i).as_str());
        push_str(s, text.as_str());
        proof {
            if i == 0 {
                assert(c@.take(1) =~= seq![c@[0]]);
            }
        }
        i = i + 1;
    }
    push_char(s, '}');
    proof {
        assert(c@.take(n as int) =~= c@);
    }
}

/// Returns the text a value is displayed as (see `value_text`). Floats are
/// displayed outside the library, as the float's decimal text.
pub fn display_value(value: &Value) -> (text: String)
    requires
        !is_float_kind(value@),
    ensures
        text@ == value_text(value@),
{
    let mut s = String::new();
    match value {
        Value::Empty => {
            push_str(&mut s, "()");
            proof {
                reveal_strlit("()");
            }
        },
        Value::Bool(b) => {
            if *b {
                push_str(&mut s, "true");
                proof {
                    reveal_strlit("true");
                }
            } else {
                push_str(&mut s, "false");
                proof {
                    reveal_strlit("false");
                }
            }
        },
        Value::TextBuffer(t) => push_str(&mut s, t.as_str()),
        Value::Int(i) => push_int(&mut s, *i),
        Value::IntPair(a, b) => {
            push_char(&mut s, '[');
            push_int(&mut s, *a);
            push_char(&mut s, ',');
            push_char(&mut s, ' ');
            push_int(&mut s, *b);
            push_char(&mut s, ']');
        },
        Value::IntRange(a, b, c) => {
            push_char(&mut s, '[');
            push_int(&mut s, *a);
            push_char(&mut s, ',');
            push_char(&mut s, ' ');
            push_int(&mut s, *b);
            push_char(&mut s, ',');
            push_char(&mut s, ' ');
            push_int(&mut s, *c);
            push_char(&mut s, ']');
        },
        Value::BinaryVector(bytes) => {
            push_str(&mut s, "binary-vector omitted, len: ");
            push_nat(&mut s, bytes.len() as u64);
        },
        Value::Reference(r) => {
            push_str(&mut s, "ref:");
            proof {
                reveal_strlit("ref:");
            }
            push_nat(&mut s, *r);
        },
        Value::Symbol(sym) => push_str(&mut s, sym.as_str()),
        Value::Complex(c) => push_set(&mut s, c),
        _ => {},
    }
    assert(s@ =~= value_text(value@));
    s
}

/// True if no value of the property is a float kind.
pub open spec fn has_no_float(p: PropertyModel) -> bool {
    match p {
        PropertyModel::Single(v) => !is_float_kind(v),
        PropertyModel::List(l) => forall|i: int| 0 <= i < l.len() ==> !is_float_kind(#[trigger] l[i]),
        _ => true,
    }
}

/// The displayed values of a list, each followed by `, `.
pub open spec fn list_text(l: Seq<ValueModel>) -> Seq<char>
    decreases l.len(),
{
    if l.len() == 0 {
        Seq::empty()
    } else {
        list_text(l.drop_last()) + value_text(l.last()) + seq![',', ' ']
    }
}

/// The text a property is displayed as: its value, its values each
/// followed by `, `, or a note for a read-only map or an empty property.
pub open spec fn property_text(p: PropertyModel) -> Seq<char> {
    match p {
        PropertyModel::Single(v) => value_text(v),
        PropertyModel::List(l) => list_text(l),
        PropertyModel::Properties(_) => "properties - todo display"@,
        PropertyModel::Empty => "empty value"@,
    }
}

/// The `Debug` text of a value (floats aside): its variant's name and its
/// fields in parentheses, strings quoted.
pub open spec fn value_debug(v: ValueModel) -> Seq<char> {
    match v {
        ValueModel::Empty => "Empty"@,
        ValueModel::Bool(b) => "Bool("@ + (if b { "true"@ } else { "false"@ }) + seq![')'],
        ValueModel::TextBuffer(t) => "TextBuffer("@ + str_debug(t) + seq![')'],
        ValueModel::Int(i) => "Int("@ + int_text(i as int) + seq![')'],
        ValueModel::IntPair(a, b) => "IntPair("@ + int_text(a as int) + seq![',', ' '] + int_text(b as int) + seq![')'],
        ValueModel::IntRange(a, b, c) => "IntRange("@ + int_text(a as int) + seq![',', ' '] + int_text(b as int)
            + seq![',', ' '] + int_text(c as int) + seq![')'],
        ValueModel::Reference(r) => "Reference("@ + nat_text(r as nat) + seq![')'],
        ValueModel::Symbol(s) => "Symbol("@ + str_debug(s) + seq![')'],
        _ => Seq::empty(),
    }
}

/// The text a value describes itself with under the reference key `key`:
/// a reference is its `Debug` text alone; a binary vector is its base64
/// encoding, a complex nothing, any other value its `Debug` text; each then
/// followed by `::` and the `Debug` text of its reference.
pub open spec fn value_description(v: ValueModel, key: u64) -> Seq<char> {
    match v {
        ValueModel::Reference(_) => value_debug(v),
        _ => (match v {
            ValueModel::BinaryVector(bytes) => base64_encoded(bytes),
            ValueModel::Complex(_) => Seq::empty(),
            _ => value_debug(v),
        }) + seq![':', ':'] + value_debug(ValueModel::Reference(key)),
    }
}

impl Property {
    /// Returns the text the property is displayed as (see
    /// `property_text`). Floats are displayed outside the library.
    pub fn display(&self) -> (text: String)
        requires
            has_no_float(self@),
        ensures
            text@ == property_text(self@),
    {
        proof {
            crate::properties::lemma_property_view(*self);
        }
        match self {
            Property::Single(v) => display_value(v),
            Property::List(list) => {
                let ghost l = list@.map_values(|x: Value| x@);
                let mut s = String::new();
                let mut i: usize = 0;
                proof {
                    assert(l.take(0) =~= Seq::<ValueModel>::empty());
                    assert(self@ == PropertyModel::List(l));
                    assert(has_no_float(PropertyModel::List(l)));
                    assert forall|k: int| 0 <= k < l.len() implies !is_float_kind(#[trigger] l[k]) by {
                        let p = PropertyModel::List(l);
                        assert(has_no_float(p));
                        assert(p->List_0 == l);
                    }
                }
                while i < list.len()
                    invariant
                        i <= list@.len(),
                        l == list@.map_values(|x: Value| x@),
                        forall|k: int| 0 <= k < l.len() ==> !is_float_kind(#[trigger] l[k]),
                        s@ == list_text(l.take(i as int)),
                    decreases list@.len() - i,
                {
                    proof {
                        assert(l[i as int] == list@[i as int]@);
                        assert(l.take(i + 1).drop_last() =~= l.take(i as int));
                        assert(l.take(i + 1).last() == l[i as int]);
                    }
                    let text = display_value(&list[i]);
                    push_str(&mut s, text.as_str());
                    push_char(&mut s, ',');
                    push_char(&mut s, ' ');
                    i = i + 1;
                }
                proof {
                    assert(l.take(list@.len() as int) =~= l);
                }
                s
            },
            Property::Properties(_) => "properties - todo display".to_string(),
            Property::Empty => "empty value".to_string(),
        }
    }
}

/// Appends the `Debug` text of a value (floats aside).
fn push_debug(s: &mut String, value: &Value)
    requires
        !is_float_kind(value@),
        !(value@ is BinaryVector),
        !(value@ is Complex),
    ensures
        final(s)@ == old(s)@ + value_debug(value@),
{
    let ghost start = s@;
    match value {
        Value::Empty => push_str(s, "Empty"),
        Value::Bool(b) => {
            push_str(s, "Bool(");
            if *b {
                push_str(s, "true");
            } else {
                push_str(s, "false");
            }
            push_char(s, ')');
        },
        Value::TextBuffer(t) => {
            push_str(s, "TextBuffer(");
            let text = debug_text(t.as_str());
            push_str(s, text.as_str());
            push_char(s, ')');
        },
        Value::Int(i) => {
            push_str(s, "Int(");
            push_int(s, *i);
            push_char(s, ')');
        },
        Value::IntPair(a, b) => {
            push_str(s, "IntPair(");
            push_int(s, *a);
            push_char(s, ',');
            push_char(s, ' ');
            push_int(s, *b);
            push_char(s, ')');
        },
        Value::IntRange(a, b, c) => {
            push_str(s, "IntRange(");
            push_int(s, *a);
            push_char(s, ',');
            push_char(s, ' ');
            push_int(s, *b);
            push_char(s, ',');
            push_char(s, ' ');
            push_int(s, *c);
            push_char(s, ')');
        },
        Value::Reference(r) => {
            push_str(s, "Reference(");
            push_nat(s, *r);
            push_char(s, ')');
        },
        Value::Symbol(sym) => {
            push_str(s, "Symbol(");
            let text = debug_text(sym.as_str());
            push_str(s, text.as_str());
            push_char(s, ')');
        },
        _ => {},
    }
    assert(s@ =~= start + value_debug(value@));
}

impl Value {
    /// Returns the text the value describes itself with (see
    /// `value_description`), under its reference key in the platform's
    /// byte order. Floats are described outside the library.
    pub fn display(&self) -> (text: String)
        requires
            !is_float_kind(self@),
        ensures
            text@ == value_description(self@, spec_value_key(*self, platform_le())),
    {
        let mut s = String::new();
        match self {
            Value::Reference(_) => {
                push_debug(&mut s, self);
                return s;
            },
            Value::BinaryVector(bytes) => {
                let encoded = encode_base64(bytes.as_slice());
                push_str(&mut s, encoded.as_str());
            },
            Value::Complex(_) => {},
            _ => push_debug(&mut s, self),
        }
        let ghost prefix = s@;
        push_char(&mut s, ':');
        push_char(&mut s, ':');
        let r = self.to_ref();
        proof {
            assert(r@ is Reference);
        }
        push_debug(&mut s, &r);
        s
    }
}

} // verus!
