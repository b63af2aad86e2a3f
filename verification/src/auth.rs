//! Client authentication by static Bearer tokens.

use vstd::prelude::*;
use sha2::Digest;
use subtle::ConstantTimeEq;
use vstd::utf8::encode_utf8;
use crate::error::AppError;
use crate::text::{str_chars, trim_chars, trimmed, string_from_chars, ascii_lowered, ascii_lowercase_chars, chars_eq, texts};

verus! {

/// Names the SHA-256 digest of a byte sequence.
pub uninterp spec fn sha256(data: Seq<u8>) -> Seq<u8>;

/// `sha2::Sha256::digest`: claimed to return `sha256` of the bytes.
#[verifier::external_body]
fn sha256_digest(data: &[u8]) -> (r: Vec<u8>)
    ensures
        r@ == sha256(data@),
{
    sha2::Sha256::digest(data).to_vec()
}

/// `subtle::ConstantTimeEq::ct_eq` on byte slices, read as a `bool`: the
/// slices are equal (same length and same bytes), compared in time that does
/// not depend on their contents.
#[verifier::external_body]
fn ct_eq(a: &[u8], b: &[u8]) -> (r: bool)
    ensures
        r == (a@ == b@),
{
    bool::from(a.ct_eq(b))
}

/// Whether a candidate is accepted: its SHA-256 digest equals that of one of
/// the tokens (comparing fixed-size digests hides the tokens' lengths).
pub open spec fn token_accepted(tokens: Seq<Seq<char>>, candidate: Seq<char>) -> bool {
    exists|k: int|
        0 <= k < tokens.len() && sha256(encode_utf8(#[trigger] tokens[k])) == sha256(
            encode_utf8(candidate),
        )
}

/// Compares the candidate with every valid token in constant time (no
/// early exit between tokens), through their SHA-256 digests.
pub fn token_valido(tokens: &[String], candidato: &str) -> (r: bool)
    ensures
        r == token_accepted(texts(tokens@), candidato@),
        texts(tokens@).contains(candidato@) ==> r,
{
    let cand = sha256_digest(candidato.as_bytes());
    let mut acc: u8 = 0;
    let mut i: usize = 0;
    while i < tokens.len()
        invariant
            i <= tokens@.len(),
            cand@ == sha256(encode_utf8(candidato@)),
            acc <= 1,
            (acc == 1) == exists|k: int|
                0 <= k < i && sha256(encode_utf8(#[trigger] texts(tokens@)[k])) == sha256(
                    encode_utf8(candidato@),
                ),
        decreases tokens@.len() - i,
    {
        let d = sha256_digest(tokens[i].as_str().as_bytes());
        let eq = ct_eq(d.as_slice(), cand.as_slice());
        assert(texts(tokens@)[i as int] == tokens@[i as int]@);
        let bit: u8 = if eq {
            1
        } else {
            0
        };
        let prev = acc;
        acc = acc | bit;
        assert(acc <= 1 && (acc == 1 <==> (prev == 1 || bit == 1))) by (bit_vector)
            requires
                prev <= 1,
                bit <= 1,
                acc == prev | bit,
        ;
        i = i + 1;
    }
    proof {
        if texts(tokens@).contains(candidato@) {
            let k = choose|k: int| 0 <= k < texts(tokens@).len() && texts(tokens@)[k] == candidato@;
            assert(sha256(encode_utf8(texts(tokens@)[k])) == sha256(encode_utf8(candidato@)));
        }
    }
    acc == 1
}

/// The token of an `Authorization` header: the header split at its first
/// space, a scheme equal to `bearer` up to ASCII case, and the rest trimmed.
pub open spec fn bearer_of(header: Seq<char>) -> Option<Seq<char>> {
    match crate::text::first_occurrence(header, seq![' ']) {
        None => None,
        Some(k) => if ascii_lowered(header.subrange(0, k)) == "bearer"@ {
            Some(trimmed(header.subrange(k + 1, header.len() as int)))
        } else {
            None
        },
    }
}

/// Reads the token of an `Authorization: Bearer <token>` header. The scheme
/// is case-insensitive (RFC 7235); the token is not.
pub fn bearer_token(header: &str) -> (r: Option<String>)
    ensures
        match r {
            Some(t) => bearer_of(header@) == Some(t@),
            None => bearer_of(header@) is None,
        },
{
    let cs = str_chars(header);
    let space = str_chars(" ");
    proof {
        reveal_strlit(" ");
        assert(space@ =~= seq![' ']);
    }
    match crate::text::find_chars(cs.as_slice(), space.as_slice()) {
        None => None,
        Some(k) => {
            proof {
                crate::text::lemma_occurrence_from_pub(cs@, seq![' '], 0);
            }
            let mut scheme: Vec<char> = Vec::new();
            let mut i: usize = 0;
            while i < k
                invariant
                    i <= k < cs@.len(),
                    scheme@ == cs@.subrange(0, i as int),
                decreases k - i,
            {
                scheme.push(cs[i]);
                i = i + 1;
            }
            let low = ascii_lowercase_chars(scheme.as_slice());
            let bearer = str_chars("bearer");
            if chars_eq(low.as_slice(), bearer.as_slice()) {
                let mut rest: Vec<char> = Vec::new();
                let n = cs.len();
                assert(k < n);
                let mut j: usize = k + 1;
                while j < cs.len()
                    invariant
                        k + 1 <= j <= cs@.len(),
                        rest@ == cs@.subrange(k + 1, j as int),
                    decreases cs@.len() - j,
                {
                    rest.push(cs[j]);
                    j = j + 1;
                }
                let t = trim_chars(rest.as_slice());
                Some(string_from_chars(t.as_slice()))
            } else {
                None
            }
        },
    }
}

/// Whether a request is authorized: its `Authorization` header (if any,
/// already read as text) carries a Bearer token that is accepted.
pub open spec fn authorized(tokens: Seq<Seq<char>>, header: Option<Seq<char>>) -> bool {
    match header {
        Some(h) => match bearer_of(h) {
            Some(t) => token_accepted(tokens, t),
            None => false,
        },
        None => false,
    }
}

/// Accepts a request or answers `Unauthorized`.
pub fn check_bearer(tokens: &[String], header: Option<&str>) -> (r: Result<(), AppError>)
    ensures
        r is Ok <==> authorized(texts(tokens@), match header {
            Some(h) => Some(h@),
            None => None,
        }),
        r matches Err(e) ==> e is Unauthorized,
{
    match header {
        Some(h) => match bearer_token(h) {
            Some(t) => if token_valido(tokens, t.as_str()) {
                Ok(())
            } else {
                Err(AppError::Unauthorized)
            },
            None => Err(AppError::Unauthorized),
        },
        None => Err(AppError::Unauthorized),
    }
}


/// A candidate is accepted exactly when it is one of the tokens, on every
/// input where its SHA-256 digest equals that of no other token (the check
/// compares digests, so a collision would also be accepted).
pub proof fn law_token_membership(tokens: Seq<Seq<char>>, candidate: Seq<char>)
    requires
        forall|k: int|
            0 <= k < tokens.len() && #[trigger] sha256(encode_utf8(tokens[k])) == sha256(
                encode_utf8(candidate),
            ) ==> tokens[k] == candidate,
    ensures
        token_accepted(tokens, candidate) <==> tokens.contains(candidate),
{
    if tokens.contains(candidate) {
        let k = choose|k: int| 0 <= k < tokens.len() && tokens[k] == candidate;
        assert(sha256(encode_utf8(tokens[k])) == sha256(encode_utf8(candidate)));
    }
}

} // verus!
