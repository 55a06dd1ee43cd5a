//! Pieces of the upload pipeline that are pure computation: the path
//! ordering that fixes part numbering, the assignment of part numbers, and
//! the content digest a part upload sends alongside its bytes. File
//! discovery and the transfer calls themselves stay outside the library.

use crate::state::{Operation, OperationView, Part, PartView};
use core::cmp::Ordering;
use vstd::prelude::*;
use vstd::string::StringSliceAdditionalSpecFns;
use vstd::string::StrSliceExecFns;

verus! {

/// Strict lexicographic order on byte sequences: the order part paths are
/// compared in, and UTF-8 encodes it so that byte order agrees with
/// code-point order.
pub open spec fn lex_lt(a: Seq<u8>, b: Seq<u8>) -> bool
    decreases a.len(),
{
    if b.len() == 0 {
        false
    } else if a.len() == 0 {
        true
    } else if a[0] != b[0] {
        a[0] < b[0]
    } else {
        lex_lt(a.drop_first(), b.drop_first())
    }
}

/// Two sequences that agree up to `i` and differ at `i` order by that byte.
proof fn lemma_lex_lt_from_diff(a: Seq<u8>, b: Seq<u8>, i: int)
    requires
        0 <= i < a.len(),
        i < b.len(),
        forall|j: int| 0 <= j < i ==> a[j] == b[j],
        a[i] < b[i],
    ensures
        lex_lt(a, b),
    decreases i,
{
    if i > 0 {
        lemma_lex_lt_from_diff(a.drop_first(), b.drop_first(), i - 1);
    }
}

/// A proper prefix orders strictly before the longer sequence.
proof fn lemma_lex_lt_from_prefix(a: Seq<u8>, b: Seq<u8>)
    requires
        a.len() < b.len(),
        forall|j: int| 0 <= j < a.len() ==> a[j] == b[j],
    ensures
        lex_lt(a, b),
    decreases a.len(),
{
    if a.len() > 0 {
        lemma_lex_lt_from_prefix(a.drop_first(), b.drop_first());
    }
}

/// Lexicographic order is asymmetric, hence also irreflexive.
proof fn lemma_lex_lt_asymmetric(a: Seq<u8>, b: Seq<u8>)
    requires
        lex_lt(a, b),
    ensures
        !lex_lt(b, a),
    decreases a.len(),
{
    if a.len() > 0 && b.len() > 0 && a[0] == b[0] {
        lemma_lex_lt_asymmetric(a.drop_first(), b.drop_first());
    }
}

/// Compare two file names as the part assignment orders them: by plain
/// lexicographic comparison of the paths' UTF-8 bytes. Exactly one of the
/// three answers comes back, and `Equal` only for identical strings.
pub fn compare_file_names(a: &str, b: &str) -> (o: Ordering)
    ensures
        o is Less <==> lex_lt(a.spec_bytes(), b.spec_bytes()),
        o is Equal <==> a.spec_bytes() == b.spec_bytes(),
        o is Equal ==> a@ == b@,
        o is Greater <==> lex_lt(b.spec_bytes(), a.spec_bytes()),
{
    proof {
        vstd::utf8::encode_utf8_decode_utf8(a@);
        vstd::utf8::encode_utf8_decode_utf8(b@);
    }
    let av = a.as_bytes_vec();
    let bv = b.as_bytes_vec();
    let mut i: usize = 0;
    while i < av.len() && i < bv.len()
        invariant
            av@ == a.spec_bytes(),
            bv@ == b.spec_bytes(),
            i <= av.len(),
            i <= bv.len(),
            forall|j: int| 0 <= j < i ==> av@[j] == bv@[j],
        decreases av.len() - i,
    {
        if av[i] < bv[i] {
            proof {
                lemma_lex_lt_from_diff(av@, bv@, i as int);
                lemma_lex_lt_asymmetric(av@, bv@);
            }
            return Ordering::Less;
        }
        if av[i] > bv[i] {
            proof {
                lemma_lex_lt_from_diff(bv@, av@, i as int);
                lemma_lex_lt_asymmetric(bv@, av@);
            }
            return Ordering::Greater;
        }
        i = i + 1;
    }
    if av.len() < bv.len() {
        proof {
            lemma_lex_lt_from_prefix(av@, bv@);
            lemma_lex_lt_asymmetric(av@, bv@);
        }
        Ordering::Less
    } else if av.len() > bv.len() {
        proof {
            lemma_lex_lt_from_prefix(bv@, av@);
            lemma_lex_lt_asymmetric(bv@, av@);
        }
        Ordering::Greater
    } else {
        proof {
            assert(av@ =~= bv@);
            if lex_lt(av@, bv@) {
                lemma_lex_lt_asymmetric(av@, bv@);
            }
        }
        Ordering::Equal
    }
}

/// Assign part numbers to the discovered files: the `k`-th path, in the
/// order handed in, becomes part `k + 1`, with no etag yet. The part
/// numbering is fixed here, once, and never changes afterwards.
pub fn configure_parts(paths: Vec<String>) -> (op: Operation)
    requires
        paths@.len() <= i64::MAX,
    ensures
        op@ matches OperationView::ConfiguredParts(parts) && parts.len() == paths@.len()
            && forall|k: int|
            0 <= k < paths@.len() ==> (#[trigger] parts[k]) == (PartView {
                number: (k + 1) as i64,
                path: paths@[k]@,
                etag: Seq::<char>::empty(),
            }),
{
    let mut parts: Vec<Part> = Vec::new();
    let mut i: usize = 0;
    while i < paths.len()
        invariant
            i <= paths.len(),
            paths@.len() <= i64::MAX,
            parts@.len() == i,
            forall|k: int|
                0 <= k < i ==> (#[trigger] parts@[k])@ == (PartView {
                    number: (k + 1) as i64,
                    path: paths@[k]@,
                    etag: Seq::<char>::empty(),
                }),
        decreases paths.len() - i,
    {
        let number: i64 = (i as i64) + 1;
        parts.push(Part::new(number, paths[i].clone()));
        i = i + 1;
    }
    Operation::ConfiguredParts(parts)
}

/// What the md5 crate computes for a byte sequence: a 128-bit digest,
/// a function of the bytes alone.
pub uninterp spec fn md5_of(data: Seq<u8>) -> Seq<u8>;

/// What the base64 crate's standard, padded alphabet encodes a byte
/// sequence to: a function of the bytes alone.
pub uninterp spec fn base64_of(data: Seq<u8>) -> Seq<char>;

/// Relies on md5::compute: the digest of a byte slice is 16 bytes and
/// depends on the input bytes alone.
#[verifier::external_body]
fn md5_digest(data: &Vec<u8>) -> (r: Vec<u8>)
    ensures
        r@ == md5_of(data@),
        r@.len() == 16,
{
    md5::compute(data.as_slice()).0.to_vec()
}

/// Relies on base64::encode: standard alphabet with padding, four output
/// characters for every three input bytes, depending on the input alone.
/// It aborts when the encoded length cannot fit a `usize`, so inputs that
/// long are excluded here.
#[verifier::external_body]
fn base64_encode(data: &Vec<u8>) -> (r: String)
    requires
        4 * ((data@.len() + 2) / 3) <= usize::MAX,
    ensures
        r@ == base64_of(data@),
        r@.len() == 4 * ((data@.len() + 2) / 3),
{
    #[allow(deprecated)]
    base64::encode(data.as_slice())
}

/// The digest sent with one part upload: the part's length in bytes, and
/// the base64 rendering of the md5 digest of its contents.
pub fn digest_bytes(data: &Vec<u8>) -> (r: (u64, String))
    ensures
        r.0 == data@.len(),
        r.1@ == base64_of(md5_of(data@)),
        r.1@.len() == 24,
{
    let digest = md5_digest(data);
    let hash = base64_encode(&digest);
    (data.len() as u64, hash)
}

} // verus!
