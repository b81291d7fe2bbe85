//! The identity hasher.
//!
//! A media item's identifier is derived from its (kind, uri, name) triple:
//! the bytes `[kind] || uri || 0x00 || name` are hashed with 32-byte BLAKE2b
//! and the digest is hex-encoded, two lower-case characters per byte, giving
//! a 64-character identifier.  The byte layout is part of the public
//! contract, so that a client can precompute the same identifier; only the
//! digest itself is computed by an outside primitive.

use vstd::prelude::*;
use vstd::string::StringExecFns;
use vstd::string::StringSliceAdditionalSpecFns;

verus! {

/// The lower-case hex character of a value below 16.
pub open spec fn hex_digit(n: u8) -> char {
    if n == 0 {
        '0'
    } else if n == 1 {
        '1'
    } else if n == 2 {
        '2'
    } else if n == 3 {
        '3'
    } else if n == 4 {
        '4'
    } else if n == 5 {
        '5'
    } else if n == 6 {
        '6'
    } else if n == 7 {
        '7'
    } else if n == 8 {
        '8'
    } else if n == 9 {
        '9'
    } else if n == 10 {
        'a'
    } else if n == 11 {
        'b'
    } else if n == 12 {
        'c'
    } else if n == 13 {
        'd'
    } else if n == 14 {
        'e'
    } else {
        'f'
    }
}

/// The two hex characters of one byte, high nibble first.
pub open spec fn hex_pair(b: u8) -> Seq<char> {
    seq![hex_digit(b / 16), hex_digit(b % 16)]
}

/// The hex encoding of a byte sequence, two characters per byte.
pub open spec fn hex_seq(bytes: Seq<u8>) -> Seq<char>
    decreases bytes.len(),
{
    if bytes.len() == 0 {
        Seq::empty()
    } else {
        hex_seq(bytes.drop_last()) + hex_pair(bytes.last())
    }
}

/// The hashed byte layout of a media triple: the kind byte, the raw uri
/// bytes, a single zero separator, then the raw name bytes.
pub open spec fn media_preimage(kind: u8, uri: Seq<u8>, name: Seq<u8>) -> Seq<u8> {
    seq![kind] + uri + seq![0u8] + name
}

/// What the outside digest primitive returns for a byte sequence.
pub uninterp spec fn digest_of(input: Seq<u8>) -> Seq<u8>;

/// The media identifier of a (kind, uri, name) triple, as characters.
pub open spec fn media_id_chars(kind: u8, uri: Seq<u8>, name: Seq<u8>) -> Seq<char> {
    hex_seq(digest_of(media_preimage(kind, uri, name)))
}

/// Relies on casper_types::Digest::hash: the 32-byte BLAKE2b digest of the
/// input, a function of the input bytes alone.
#[verifier::external_body]
fn blake2b_digest(input: &Vec<u8>) -> (r: Vec<u8>)
    ensures
        r@ == digest_of(input@),
        r@.len() == 32,
{
    casper_types::Digest::hash(input.as_slice()).into_vec()
}

/// Hex encoding doubles the length.
pub proof fn lemma_hex_seq_len(bytes: Seq<u8>)
    ensures
        hex_seq(bytes).len() == 2 * bytes.len(),
    decreases bytes.len(),
{
    if bytes.len() > 0 {
        lemma_hex_seq_len(bytes.drop_last());
    }
}

fn hex_digit_str(n: u8) -> (r: &'static str)
    requires
        n < 16,
    ensures
        r@ == seq![hex_digit(n)],
{
    proof {
        reveal_strlit("0");
        reveal_strlit("1");
        reveal_strlit("2");
        reveal_strlit("3");
        reveal_strlit("4");
        reveal_strlit("5");
        reveal_strlit("6");
        reveal_strlit("7");
        reveal_strlit("8");
        reveal_strlit("9");
        reveal_strlit("a");
        reveal_strlit("b");
        reveal_strlit("c");
        reveal_strlit("d");
        reveal_strlit("e");
        reveal_strlit("f");
    }
    let r: &'static str = if n == 0 {
        "0"
    } else if n == 1 {
        "1"
    } else if n == 2 {
        "2"
    } else if n == 3 {
        "3"
    } else if n == 4 {
        "4"
    } else if n == 5 {
        "5"
    } else if n == 6 {
        "6"
    } else if n == 7 {
        "7"
    } else if n == 8 {
        "8"
    } else if n == 9 {
        "9"
    } else if n == 10 {
        "a"
    } else if n == 11 {
        "b"
    } else if n == 12 {
        "c"
    } else if n == 13 {
        "d"
    } else if n == 14 {
        "e"
    } else {
        "f"
    };
    proof {
        assert(r@ =~= seq![hex_digit(n)]);
    }
    r
}

/// The two-character lower-case hex encoding of one byte.
pub fn hex_byte(b: u8) -> (s: String)
    ensures
        s@ == hex_pair(b),
{
    let hi = hex_digit_str(b / 16);
    let lo = hex_digit_str(b % 16);
    let s = String::from_str(hi).concat(lo);
    proof {
        assert(s@ =~= hex_pair(b));
    }
    s
}

fn hex_encode(bytes: &Vec<u8>) -> (s: String)
    ensures
        s@ == hex_seq(bytes@),
{
    let mut out = String::new();
    let n = bytes.len();
    let mut i: usize = 0;
    while i < n
        invariant
            n == bytes@.len(),
            0 <= i <= n,
            out@ == hex_seq(bytes@.take(i as int)),
        decreases n - i,
    {
        let pair = hex_byte(bytes[i]);
        out.append(pair.as_str());
        proof {
            lemma_hex_seq_step(bytes@, i as int);
        }
        i = i + 1;
    }
    proof {
        assert(bytes@.take(n as int) =~= bytes@);
    }
    out
}

proof fn lemma_hex_seq_step(s: Seq<u8>, i: int)
    requires
        0 <= i < s.len(),
    ensures
        hex_seq(s.take(i + 1)) == hex_seq(s.take(i)) + hex_pair(s[i]),
{
    let t = s.take(i + 1);
    assert(t.drop_last() =~= s.take(i));
    assert(t.last() == s[i]);
}

fn push_bytes(dst: &mut Vec<u8>, src: &[u8])
    ensures
        final(dst)@ == old(dst)@ + src@,
{
    let n = src.len();
    let mut i: usize = 0;
    while i < n
        invariant
            n == src@.len(),
            0 <= i <= n,
            dst@ == old(dst)@ + src@.take(i as int),
        decreases n - i,
    {
        let b = *vstd::slice::slice_index_get(src, i);
        dst.push(b);
        proof {
            assert(old(dst)@ + src@.take(i as int + 1) =~= (old(dst)@ + src@.take(
                i as int,
            )).push(src@[i as int]));
        }
        i = i + 1;
    }
    proof {
        assert(old(dst)@ + src@.take(n as int) =~= old(dst)@ + src@);
    }
}

fn media_preimage_bytes(kind: u8, uri: &str, name: &str) -> (r: Vec<u8>)
    ensures
        r@ == media_preimage(kind, uri.spec_bytes(), name.spec_bytes()),
{
    let mut out: Vec<u8> = Vec::new();
    out.push(kind);
    push_bytes(&mut out, uri.as_bytes());
    out.push(0);
    push_bytes(&mut out, name.as_bytes());
    proof {
        assert(out@ =~= media_preimage(kind, uri.spec_bytes(), name.spec_bytes()));
    }
    out
}

/// Derives the content identifier of a media triple: a deterministic
/// function of kind, uri and name alone, 64 lower-case hex characters.
pub fn compute_media_id(kind: u8, uri: &str, name: &str) -> (r: String)
    ensures
        r@ == media_id_chars(kind, uri.spec_bytes(), name.spec_bytes()),
        r@.len() == 64,
{
    let pre = media_preimage_bytes(kind, uri, name);
    let digest = blake2b_digest(&pre);
    let s = hex_encode(&digest);
    proof {
        lemma_hex_seq_len(digest@);
    }
    s
}

} // verus!
