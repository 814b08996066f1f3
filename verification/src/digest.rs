use sha2::Digest;
use vstd::prelude::*;

use crate::text::push_char;

verus! {

/// The SHA-256 digest of `bytes`.
pub uninterp spec fn sha256(bytes: Seq<u8>) -> Seq<u8>;

/// Computes the SHA-256 digest of `bytes` with `sha2::Sha256::digest`.
/// The result is the digest of the bytes and nothing else, and it is 32
/// bytes long (the output size of `Sha256`); its value is not restated here.
#[verifier::external_body]
fn sha256_digest(bytes: &[u8]) -> (d: Vec<u8>)
    ensures
        d@ == sha256(bytes@),
        d@.len() == 32,
{
    sha2::Sha256::digest(bytes).to_vec()
}

/// The lower case hexadecimal digit of `d`, for `d < 16`.
pub open spec fn hex_digit(d: u8) -> char {
    if d < 10 {
        (48 + d) as char
    } else {
        (87 + d) as char
    }
}

/// A byte in lower case hexadecimal without leading zero: one digit below
/// 16, two digits otherwise.
pub open spec fn byte_hex(b: u8) -> Seq<char> {
    if b < 16 {
        seq![hex_digit(b)]
    } else {
        seq![hex_digit(b / 16), hex_digit(b % 16)]
    }
}

/// The bytes of `s` in hexadecimal, one after the other, without separator.
pub open spec fn bytes_hex(s: Seq<u8>) -> Seq<char>
    decreases s.len(),
{
    if s.len() == 0 {
        Seq::empty()
    } else {
        bytes_hex(s.drop_last()) + byte_hex(s.last())
    }
}

/// The prefix of a digest address.
pub open spec fn digest_prefix() -> Seq<char> {
    seq!['s', 'h', 'a', '2', '5', '6', ':']
}

/// The blob address that names a digest: `sha256:` and the digest's bytes
/// in hexadecimal.
pub open spec fn spec_digest_address(digest: Seq<u8>) -> Seq<char> {
    digest_prefix() + bytes_hex(digest)
}

fn hex_char(d: u8) -> (c: char)
    requires
        d < 16,
    ensures
        c == hex_digit(d),
{
    if d < 10 {
        (48u8 + d) as char
    } else {
        (87u8 + d) as char
    }
}

/// Returns the address under which a blob with the given digest is stored:
/// `sha256:` followed by each byte of the digest in lower case hexadecimal,
/// without leading zeros and without separators.
pub fn digest_address(digest: &[u8]) -> (a: String)
    ensures
        a@ == spec_digest_address(digest@),
{
    let mut a = String::new();
    push_char(&mut a, 's');
    push_char(&mut a, 'h');
    push_char(&mut a, 'a');
    push_char(&mut a, '2');
    push_char(&mut a, '5');
    push_char(&mut a, '6');
    push_char(&mut a, ':');
    assert(a@ =~= digest_prefix());
    let mut i: usize = 0;
    while i < digest.len()
        invariant
            i <= digest@.len(),
            a@ == digest_prefix() + bytes_hex(digest@.subrange(0, i as int)),
        decreases digest@.len() - i,
    {
        let b = digest[i];
        proof {
            assert(digest@.subrange(0, i + 1).drop_last() =~= digest@.subrange(0, i as int));
        }
        if b < 16 {
            push_char(&mut a, hex_char(b));
        } else {
            push_char(&mut a, hex_char(b / 16));
            push_char(&mut a, hex_char(b % 16));
        }
        proof {
            assert(a@ =~= digest_prefix() + bytes_hex(digest@.subrange(0, i + 1)));
        }
        i = i + 1;
    }
    assert(digest@.subrange(0, digest@.len() as int) =~= digest@);
    a
}

/// Formats blobs so that each one's address is the SHA-256 digest of its
/// content.
pub struct Sha256Digester();

impl Sha256Digester {
    /// Returns the blobs of `source` (address, content) re-addressed: each
    /// content, unchanged, under the address of its SHA-256 digest, in the
    /// order of `source`.
    pub fn format(&mut self, source: &Vec<(String, Vec<u8>)>) -> (out: Vec<(String, Vec<u8>)>)
        ensures
            out@.len() == source@.len(),
            forall|i: int|
                0 <= i < out@.len() ==> {
                    &&& (#[trigger] out@[i]).0@ == spec_digest_address(sha256(source@[i].1@))
                    &&& out@[i].1@ == source@[i].1@
                },
    {
        let mut out: Vec<(String, Vec<u8>)> = Vec::new();
        let mut i: usize = 0;
        while i < source.len()
            invariant
                i <= source@.len(),
                out@.len() == i,
                forall|j: int|
                    0 <= j < i ==> {
                        &&& (#[trigger] out@[j]).0@ == spec_digest_address(sha256(source@[j].1@))
                        &&& out@[j].1@ == source@[j].1@
                    },
            decreases source@.len() - i,
        {
            let content = &source[i].1;
            let digest = sha256_digest(content.as_slice());
            let address = digest_address(digest.as_slice());
            let copy = content.clone();
            out.push((address, copy));
            i = i + 1;
        }
        out
    }
}

} // verus!
