//! Hashes and Base64, from the `sha1`, `xxhash-rust` and `base64` crates.
use vstd::prelude::*;
use base64::Engine;
use sha1::Digest;

verus! {

/// The SHA-1 digest of some bytes.
pub uninterp spec fn sha1_spec(data: Seq<u8>) -> Seq<u8>;

/// `Sha1::digest`: the SHA-1 digest, named by [`sha1_spec`]; it is 20
/// bytes long (the hasher's output size).
#[verifier::external_body]
pub(crate) fn sha1_digest(data: &[u8]) -> (r: Vec<u8>)
    ensures
        r@ == sha1_spec(data@),
        r@.len() == 20,
{
    sha1::Sha1::digest(data).to_vec()
}

/// The 64-bit xxHash of some bytes with a seed.
pub uninterp spec fn xxh64_spec(data: Seq<u8>, seed: u64) -> u64;

/// `xxhash_rust::xxh64::xxh64`: the hash named by [`xxh64_spec`].
#[verifier::external_body]
pub(crate) fn xxh64(data: &[u8], seed: u64) -> (r: u64)
    ensures
        r == xxh64_spec(data@, seed),
{
    xxhash_rust::xxh64::xxh64(data, seed)
}

/// The standard Base64 character of a six-bit value: `A`-`Z`, `a`-`z`,
/// `0`-`9`, `+`, `/`.
pub open spec fn base64_char(v: int) -> char {
    if v < 26 {
        (65 + v) as char
    } else if v < 52 {
        (97 + v - 26) as char
    } else if v < 62 {
        (48 + v - 52) as char
    } else if v == 62 {
        '+'
    } else {
        '/'
    }
}

/// The standard, padded Base64 text of some bytes (RFC 4648): each group
/// of three bytes as four characters of six bits each, a final group of
/// one or two bytes filled out with `=`.
pub open spec fn base64_spec(d: Seq<u8>) -> Seq<char>
    decreases d.len(),
{
    if d.len() == 0 {
        Seq::empty()
    } else if d.len() == 1 {
        seq![base64_char((d[0] as int) / 4), base64_char(((d[0] as int) % 4) * 16), '=', '=']
    } else if d.len() == 2 {
        seq![
            base64_char((d[0] as int) / 4),
            base64_char(((d[0] as int) % 4) * 16 + (d[1] as int) / 16),
            base64_char(((d[1] as int) % 16) * 4),
            '=',
        ]
    } else {
        seq![
            base64_char((d[0] as int) / 4),
            base64_char(((d[0] as int) % 4) * 16 + (d[1] as int) / 16),
            base64_char(((d[1] as int) % 16) * 4 + (d[2] as int) / 64),
            base64_char((d[2] as int) % 64),
        ] + base64_spec(d.skip(3))
    }
}

/// The characters of the standard Base64 alphabet.
pub open spec fn base64_alphabet(c: char) -> bool {
    ('A' <= c && c <= 'Z') || ('a' <= c && c <= 'z') || ('0' <= c && c <= '9') || c == '+' || c
        == '/'
}

/// How many `=` close the Base64 text of `n` bytes.
pub open spec fn base64_padding(n: nat) -> nat {
    if n % 3 == 0 {
        0
    } else {
        (3 - n % 3) as nat
    }
}

/// `STANDARD.encode` (`base64::engine::general_purpose`): the padded
/// standard Base64 text of the bytes, as [`base64_spec`] writes it out.
#[verifier::external_body]
pub(crate) fn base64_standard(data: &[u8]) -> (r: String)
    ensures
        r@ == base64_spec(data@),
{
    base64::engine::general_purpose::STANDARD.encode(data)
}

pub proof fn lemma_base64_char(v: int)
    requires
        0 <= v < 64,
    ensures
        base64_alphabet(base64_char(v)),
{
}

/// The shape of Base64 text: four characters per started group of three
/// bytes, all from the alphabet but for the closing padding, which is `=`.
pub proof fn lemma_base64_shape(d: Seq<u8>)
    ensures
        base64_spec(d).len() == 4 * ((d.len() + 2) / 3),
        forall|i: int|
            0 <= i < base64_spec(d).len() - base64_padding(d.len()) ==> base64_alphabet(
                #[trigger] base64_spec(d)[i],
            ),
        forall|i: int|
            base64_spec(d).len() - base64_padding(d.len()) <= i < base64_spec(d).len()
                ==> #[trigger] base64_spec(d)[i] == '=',
    decreases d.len(),
{
    if d.len() == 1 {
        lemma_base64_char((d[0] as int) / 4);
        lemma_base64_char(((d[0] as int) % 4) * 16);
    } else if d.len() == 2 {
        lemma_base64_char((d[0] as int) / 4);
        lemma_base64_char(((d[0] as int) % 4) * 16 + (d[1] as int) / 16);
        lemma_base64_char(((d[1] as int) % 16) * 4);
    } else if d.len() >= 3 {
        let rest = d.skip(3);
        lemma_base64_shape(rest);
        lemma_base64_char((d[0] as int) / 4);
        lemma_base64_char(((d[0] as int) % 4) * 16 + (d[1] as int) / 16);
        lemma_base64_char(((d[1] as int) % 16) * 4 + (d[2] as int) / 64);
        lemma_base64_char((d[2] as int) % 64);
        let head = seq![
            base64_char((d[0] as int) / 4),
            base64_char(((d[0] as int) % 4) * 16 + (d[1] as int) / 16),
            base64_char(((d[1] as int) % 16) * 4 + (d[2] as int) / 64),
            base64_char((d[2] as int) % 64),
        ];
        let t = base64_spec(d);
        assert(t == head + base64_spec(rest));
        assert(base64_padding(d.len()) == base64_padding(rest.len()));
        assert forall|i: int| 0 <= i < t.len() - base64_padding(d.len()) implies base64_alphabet(#[trigger] t[i]) by {
            if i >= 4 {
                assert(t[i] == base64_spec(rest)[i - 4]);
            }
        }
        assert forall|i: int| t.len() - base64_padding(d.len()) <= i < t.len() implies #[trigger] t[i] == '=' by {
            assert(t[i] == base64_spec(rest)[i - 4]);
        }
    }
}

} // verus!
