use std::marker::PhantomData;
use vstd::prelude::*;

use crate::text::{
    parse_bool, parse_i32, push_char, spec_parse_bool, spec_parse_i32, spec_trim, split_on,
    split_terminator, trim, lemma_split_on_nonempty,
};
use crate::codec::{base64_decoded, decode_base64};
use crate::symbol_set::SymbolSet;
use crate::value::Value;

verus! {


/// The integers among `pieces`: each piece, trimmed, that parses as an
/// `i32`, in order; the others are skipped.
pub open spec fn parsed_ints(pieces: Seq<Seq<char>>) -> Seq<i32>
    decreases pieces.len(),
{
    if pieces.len() == 0 {
        Seq::empty()
    } else {
        let rest = parsed_ints(pieces.drop_last());
        match spec_parse_i32(spec_trim(pieces.last())) {
            Some(v) => rest.push(v),
            None => rest,
        }
    }
}

/// The integers of a comma separated list.
pub open spec fn spec_comma_sep_i32(s: Seq<char>) -> Seq<i32> {
    parsed_ints(split_terminator(s, ','))
}

proof fn lemma_parsed_ints_push(pieces: Seq<Seq<char>>, p: Seq<char>)
    ensures
        parsed_ints(pieces.push(p)) == match spec_parse_i32(spec_trim(p)) {
            Some(v) => parsed_ints(pieces).push(v),
            None => parsed_ints(pieces),
        },
{
    assert(pieces.push(p).drop_last() =~= pieces);
}

proof fn lemma_empty_is_no_integer()
    ensures
        spec_parse_i32(spec_trim(Seq::<char>::empty())) is None,
{
    let e = Seq::<char>::empty();
    assert(crate::text::trim_start(e) == e);
    assert(crate::text::trim_end(e) == e);
}

/// Splits `input` at each comma, trims each piece and keeps the pieces that
/// parse as an `i32`, in order.
pub fn from_comma_sep(input: &str) -> (out: Vec<i32>)
    ensures
        out@ == spec_comma_sep_i32(input@),
{
    let mut out: Vec<i32> = Vec::new();
    let mut piece = String::new();
    let ghost mut done: Seq<Seq<char>> = Seq::empty();
    proof {
        assert(input@.take(0) =~= Seq::<char>::empty());
        assert(split_on(Seq::<char>::empty(), ',') == seq![Seq::<char>::empty()]);
        assert(done.push(piece@) =~= seq![Seq::<char>::empty()]);
    }
    for c in it: input.chars()
        invariant
            it.seq() == input@,
            split_on(input@.take(it.index() as int), ',') == done.push(piece@),
            out@ == parsed_ints(done),
    {
        let ghost prefix = input@.take(it.index() as int);
        proof {
            assert(input@.take(it.index() + 1) =~= prefix.push(c));
            assert(prefix.push(c).drop_last() =~= prefix);
            lemma_split_on_nonempty(prefix, ',');
        }
        if c == ',' {
            let t = trim(piece.as_str());
            match parse_i32(t) {
                Some(v) => out.push(v),
                None => {},
            }
            proof {
                lemma_parsed_ints_push(done, piece@);
                done = done.push(piece@);
            }
            piece = String::new();
            proof {
                assert(done.push(piece@) =~= split_on(prefix, ',').push(Seq::empty()));
            }
        } else {
            push_char(&mut piece, c);
            proof {
                let p = split_on(prefix, ',');
                assert(p.update(p.len() - 1, p.last().push(c)) =~= done.push(piece@));
            }
        }
    }
    proof {
        assert(input@.take(input@.len() as int) =~= input@);
    }
    if !piece.as_str().is_empty() {
        let t = trim(piece.as_str());
        match parse_i32(t) {
            Some(v) => out.push(v),
            None => {},
        }
        proof {
            lemma_parsed_ints_push(done, piece@);
            assert(done.push(piece@).last() == piece@);
        }
    } else {
        proof {
            assert(done.push(piece@).drop_last() =~= done);
        }
    }
    out
}

/// A value container: the attribute type of the values of type `T`.
pub struct ValueContainer<T>(PhantomData<T>);

/// The value that a `bool` attribute takes from its content: the boolean
/// it writes, `false` where it writes none.
pub open spec fn spec_parse_bool_value(content: Seq<char>) -> Value {
    Value::Bool(
        match spec_parse_bool(content) {
            Some(b) => b,
            None => false,
        },
    )
}

/// The value that an `int` attribute takes from its content: the `i32` it
/// writes, `0` where it writes none.
pub open spec fn spec_parse_int_value(content: Seq<char>) -> Value {
    Value::Int(
        match spec_parse_i32(content) {
            Some(i) => i,
            None => 0,
        },
    )
}

impl ValueContainer<bool> {
    /// The attribute type's identifier, `bool`.
    pub fn ident() -> (r: &'static str)
        ensures
            r@ == seq!['b', 'o', 'o', 'l'],
    {
        proof {
            reveal_strlit("bool");
        }
        "bool"
    }

    /// The value of a `bool` attribute with the given content.
    pub fn parse(content: &str) -> (v: Value)
        ensures
            v == spec_parse_bool_value(content@),
    {
        match parse_bool(content) {
            Some(b) => Value::Bool(b),
            None => Value::Bool(false),
        }
    }
}

impl ValueContainer<i32> {
    /// The attribute type's identifier, `int`.
    pub fn ident() -> (r: &'static str)
        ensures
            r@ == seq!['i', 'n', 't'],
    {
        proof {
            reveal_strlit("int");
        }
        "int"
    }

    /// The value of an `int` attribute with the given content.
    pub fn parse(content: &str) -> (v: Value)
        ensures
            v == spec_parse_int_value(content@),
    {
        match parse_i32(content) {
            Some(i) => Value::Int(i),
            None => Value::Int(0),
        }
    }
}

impl ValueContainer<[i32; 2]> {
    /// The attribute type's identifier, `int2`.
    pub fn ident() -> (r: &'static str)
        ensures
            r@ == seq!['i', 'n', 't', '2'],
    {
        proof {
            reveal_strlit("int2");
        }
        "int2"
    }

    /// The value of an `int2` attribute with the given content: the pair of
    /// the first two integers of its comma separated list. The content must
    /// hold at least two.
    pub fn parse(content: &str) -> (v: Value)
        requires
            spec_comma_sep_i32(content@).len() >= 2,
        ensures
            v == Value::IntPair(spec_comma_sep_i32(content@)[0], spec_comma_sep_i32(content@)[1]),
    {
        let ints = from_comma_sep(content);
        Value::IntPair(ints[0], ints[1])
    }
}

impl ValueContainer<[i32; 3]> {
    /// The attribute type's identifier, `int3`.
    pub fn ident() -> (r: &'static str)
        ensures
            r@ == seq!['i', 'n', 't', '3'],
    {
        proof {
            reveal_strlit("int3");
        }
        "int3"
    }

    /// The value of an `int3` attribute with the given content. Only the
    /// first two integers of the comma separated list are taken, and two
    /// never fill a triple, so the value is the default triple of zeros.
    /// The content must hold at least two integers.
    pub fn parse(content: &str) -> (v: Value)
        requires
            spec_comma_sep_i32(content@).len() >= 2,
        ensures
            v == Value::IntRange(0, 0, 0),
    {
        let ints = from_comma_sep(content);
        // The first two integers are taken, and panic where there are fewer;
        // a triple is never matched in two.
        let _first_two = [ints[0], ints[1]];
        Value::IntRange(0, 0, 0)
    }
}

impl ValueContainer<String> {
    /// The attribute type's identifier, `text`.
    pub fn ident() -> (r: &'static str)
        ensures
            r@ == seq!['t', 'e', 'x', 't'],
    {
        proof {
            reveal_strlit("text");
        }
        "text"
    }

    /// The value of a `text` attribute: its content as a text buffer.
    pub fn parse(content: &str) -> (v: Value)
        ensures
            v matches Value::TextBuffer(t) && t@ == content@,
    {
        Value::TextBuffer(content.to_string())
    }
}

impl<'a> ValueContainer<&'a str> {
    /// The attribute type's identifier, `symbol`.
    pub fn ident() -> (r: &'static str)
        ensures
            r@ == seq!['s', 'y', 'm', 'b', 'o', 'l'],
    {
        proof {
            reveal_strlit("symbol");
        }
        "symbol"
    }

    /// The value of a `symbol` attribute: its content as a symbol.
    pub fn parse(content: &str) -> (v: Value)
        ensures
            v matches Value::Symbol(t) && t@ == content@,
    {
        Value::Symbol(content.to_string())
    }
}

/// Returns the binary value of a base64 encoded content: the decoded bytes,
/// or no bytes where the content is not valid base64.
pub fn binary_value(content: &str) -> (v: Value)
    ensures
        v matches Value::BinaryVector(b) && b@ == match base64_decoded(content@) {
            Some(bytes) => bytes,
            None => Seq::empty(),
        },
{
    match decode_base64(content) {
        Ok(bytes) => Value::BinaryVector(bytes),
        Err(_) => Value::BinaryVector(Vec::new()),
    }
}

impl ValueContainer<Vec<u8>> {
    /// The attribute type's identifier, `bin`.
    pub fn ident() -> (r: &'static str)
        ensures
            r@ == seq!['b', 'i', 'n'],
    {
        proof {
            reveal_strlit("bin");
        }
        "bin"
    }

    /// The value of a `bin` attribute: the bytes its content encodes in
    /// base64, none where the content is not valid base64.
    pub fn parse(content: &str) -> (v: Value)
        ensures
            v matches Value::BinaryVector(b) && b@ == match base64_decoded(content@) {
                Some(bytes) => bytes,
                None => Seq::empty(),
            },
    {
        binary_value(content)
    }
}

impl ValueContainer<SymbolSet> {
    /// The attribute type's identifier, `complex`.
    pub fn ident() -> (r: &'static str)
        ensures
            r@ == seq!['c', 'o', 'm', 'p', 'l', 'e', 'x'],
    {
        proof {
            reveal_strlit("complex");
        }
        "complex"
    }

    /// The value of a `complex` attribute. Its content is read as base64,
    /// as a `bin` attribute's is: the value is the decoded bytes, none where
    /// the content is not valid base64.
    pub fn parse(content: &str) -> (v: Value)
        ensures
            v matches Value::BinaryVector(b) && b@ == match base64_decoded(content@) {
                Some(bytes) => bytes,
                None => Seq::empty(),
            },
    {
        binary_value(content)
    }
}

/// An attribute's value, with the next value that an edit has staged.
#[derive(Clone, Debug)]
pub struct Attribute<V> {
    value: V,
    next: Option<V>,
}

} // verus!
