use vstd::prelude::*;
use crate::order::same_str;

verus! {

/// Appends `c` to the end of `s` (`String::push`).
#[verifier::external_body]
pub(crate) fn push_char(s: &mut String, c: char)
    ensures
        final(s)@ == old(s)@.push(c),
{
    s.push(c);
}

/// Unicode's `White_Space` characters, those that `char::is_whitespace`
/// accepts.
pub open spec fn is_white_space(c: char) -> bool {
    let u = c as u32;
    ||| 0x09 <= u <= 0x0d
    ||| u == 0x20
    ||| u == 0x85
    ||| u == 0xa0
    ||| u == 0x1680
    ||| 0x2000 <= u <= 0x200a
    ||| u == 0x2028
    ||| u == 0x2029
    ||| u == 0x202f
    ||| u == 0x205f
    ||| u == 0x3000
}

/// `s` without its leading white space.
pub open spec fn trim_start(s: Seq<char>) -> Seq<char>
    decreases s.len(),
{
    if s.len() > 0 && is_white_space(s[0]) {
        trim_start(s.drop_first())
    } else {
        s
    }
}

/// `s` without its trailing white space.
pub open spec fn trim_end(s: Seq<char>) -> Seq<char>
    decreases s.len(),
{
    if s.len() > 0 && is_white_space(s.last()) {
        trim_end(s.drop_last())
    } else {
        s
    }
}

/// `s` without its leading and trailing white space.
pub open spec fn spec_trim(s: Seq<char>) -> Seq<char> {
    trim_end(trim_start(s))
}

/// Returns `s` without leading and trailing white space (`str::trim`).
#[verifier::external_body]
pub(crate) fn trim(s: &str) -> (r: &str)
    ensures
        r@ == spec_trim(s@),
{
    s.trim()
}

/// `s` without the copies of `c` that lead it.
pub open spec fn strip_start(s: Seq<char>, c: char) -> Seq<char>
    decreases s.len(),
{
    if s.len() > 0 && s[0] == c {
        strip_start(s.drop_first(), c)
    } else {
        s
    }
}

/// `s` without the copies of `c` that end it.
pub open spec fn strip_end(s: Seq<char>, c: char) -> Seq<char>
    decreases s.len(),
{
    if s.len() > 0 && s.last() == c {
        strip_end(s.drop_last(), c)
    } else {
        s
    }
}

/// `s` without the copies of `c` that lead or end it.
pub open spec fn spec_trim_matches(s: Seq<char>, c: char) -> Seq<char> {
    strip_end(strip_start(s, c), c)
}

/// Returns `s` without the copies of `c` that lead or end it
/// (`str::trim_matches` with a `char`).
#[verifier::external_body]
pub(crate) fn trim_matches(s: &str, c: char) -> (r: &str)
    ensures
        r@ == spec_trim_matches(s@, c),
{
    s.trim_matches(c)
}

/// True if `c` is an ASCII decimal digit.
pub open spec fn is_digit(c: char) -> bool {
    '0' <= c <= '9'
}

/// The value of the decimal numeral `s`, most significant digit first.
pub open spec fn decimal_value(s: Seq<char>) -> int
    decreases s.len(),
{
    if s.len() == 0 {
        0
    } else {
        10 * decimal_value(s.drop_last()) + (s.last() as int - '0' as int)
    }
}

/// True if `s` is a non-empty string of decimal digits.
pub open spec fn is_numeral(s: Seq<char>) -> bool {
    s.len() > 0 && forall|i: int| 0 <= i < s.len() ==> is_digit(#[trigger] s[i])
}

/// The integer that `s` writes: an optional `+` or `-` sign and then
/// decimal digits, with no white space.
pub open spec fn decimal_integer(s: Seq<char>) -> Option<int> {
    if s.len() > 0 && s[0] == '-' && is_numeral(s.drop_first()) {
        Some(-decimal_value(s.drop_first()))
    } else if s.len() > 0 && s[0] == '+' && is_numeral(s.drop_first()) {
        Some(decimal_value(s.drop_first()))
    } else if is_numeral(s) {
        Some(decimal_value(s))
    } else {
        None
    }
}

/// What `str::parse::<i32>` gives for `s`: the integer `s` writes, where
/// there is one and it fits in an `i32`.
pub open spec fn spec_parse_i32(s: Seq<char>) -> Option<i32> {
    match decimal_integer(s) {
        Some(v) => if i32::MIN <= v <= i32::MAX {
            Some(v as i32)
        } else {
            None
        },
        None => None,
    }
}

/// Parses `s` as an `i32` (`<i32 as FromStr>::from_str`): an optional sign
/// and decimal digits, within the range of `i32`.
#[verifier::external_body]
pub(crate) fn parse_i32(s: &str) -> (r: Option<i32>)
    ensures
        r == spec_parse_i32(s@),
{
    s.parse::<i32>().ok()
}

/// What `str::parse::<bool>` gives for `s`.
pub open spec fn spec_parse_bool(s: Seq<char>) -> Option<bool> {
    if s == seq!['t', 'r', 'u', 'e'] {
        Some(true)
    } else if s == seq!['f', 'a', 'l', 's', 'e'] {
        Some(false)
    } else {
        None
    }
}

/// Parses `s` as a `bool`, as `<bool as FromStr>::from_str` does: `true`
/// and `false` are accepted, nothing else.
pub(crate) fn parse_bool(s: &str) -> (r: Option<bool>)
    ensures
        r == spec_parse_bool(s@),
{
    proof {
        reveal_strlit("true");
        reveal_strlit("false");
        assert("true"@ =~= seq!['t', 'r', 'u', 'e']);
        assert("false"@ =~= seq!['f', 'a', 'l', 's', 'e']);
    }
    if same_str(s, "true") {
        Some(true)
    } else if same_str(s, "false") {
        Some(false)
    } else {
        None
    }
}

/// The pieces of `s` between the separators `sep`, as `str::split` gives
/// them: one more piece than there are separators.
pub open spec fn split_on(s: Seq<char>, sep: char) -> Seq<Seq<char>>
    decreases s.len(),
{
    if s.len() == 0 {
        seq![Seq::empty()]
    } else {
        let p = split_on(s.drop_last(), sep);
        if s.last() == sep {
            p.push(Seq::empty())
        } else {
            p.update(p.len() - 1, p.last().push(s.last()))
        }
    }
}

/// The pieces of `s` between the separators `sep`, without the last one
/// where it is empty (`str::split_terminator`).
pub open spec fn split_terminator(s: Seq<char>, sep: char) -> Seq<Seq<char>> {
    let p = split_on(s, sep);
    if p.last().len() == 0 {
        p.drop_last()
    } else {
        p
    }
}

pub proof fn lemma_split_on_nonempty(s: Seq<char>, sep: char)
    ensures
        split_on(s, sep).len() > 0,
    decreases s.len(),
{
    if s.len() > 0 {
        lemma_split_on_nonempty(s.drop_last(), sep);
    }
}

} // verus!
