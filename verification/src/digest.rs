use vstd::prelude::*;

use sha2::Digest;

use crate::aggregator::Aggregator;
use crate::assembler::assemble;
use crate::assembler::concat_data;
use crate::assembler::sort_by_id;
use crate::assembler::sorted_by_id;
use crate::assembler::lemma_sort_of_sorted;
use crate::chunk::Chunk;
use crate::chunk::ChunkError;

verus! {

/// The 256-bit digest of a byte sequence, as the hash primitive computes it:
/// a function of the input bytes alone.
pub uninterp spec fn sha256_of(data: Seq<u8>) -> Seq<u8>;

/// Relies on sha2's `Sha256` through the `Digest` trait: the digest depends
/// on the input bytes alone and is 32 bytes long.
#[verifier::external_body]
pub(crate) fn sha256(data: &Vec<u8>) -> (r: Vec<u8>)
    ensures
        r@ == sha256_of(data@),
        r@.len() == 32,
{
    sha2::Sha256::digest(data.as_slice()).to_vec()
}

/// One nibble as a lowercase hexadecimal digit.
pub open spec fn hex_digit(n: int) -> u8 {
    if n < 10 {
        (48 + n) as u8
    } else {
        (87 + n) as u8
    }
}

/// A byte sequence as lowercase hexadecimal text, two digits per byte.
pub open spec fn hex_of(data: Seq<u8>) -> Seq<u8>
    decreases data.len(),
{
    if data.len() == 0 {
        Seq::<u8>::empty()
    } else {
        seq![hex_digit((data[0] as int) / 16), hex_digit((data[0] as int) % 16)] + hex_of(
            data.drop_first(),
        )
    }
}

/// Render bytes as lowercase hexadecimal.
pub fn to_hex(data: &Vec<u8>) -> (r: Vec<u8>)
    ensures
        r@ == hex_of(data@),
{
    let mut r: Vec<u8> = Vec::new();
    let n = data.len();
    let mut i: usize = 0;
    proof {
        assert(data@.skip(0) =~= data@);
        assert(Seq::<u8>::empty() + hex_of(data@) =~= hex_of(data@));
    }
    while i < n
        invariant
            n == data@.len(),
            i <= n,
            hex_of(data@) == r@ + hex_of(data@.skip(i as int)),
        decreases n - i,
    {
        let ghost pre = r@;
        let b = data[i];
        let hi = b / 16;
        let lo = b % 16;
        let hd: u8 = if hi < 10 {
            48 + hi
        } else {
            87 + hi
        };
        let ld: u8 = if lo < 10 {
            48 + lo
        } else {
            87 + lo
        };
        r.push(hd);
        r.push(ld);
        proof {
            assert(hd == hex_digit((b as int) / 16));
            assert(ld == hex_digit((b as int) % 16));
            let tail = data@.skip(i as int);
            assert(tail[0] == data@[i as int]);
            assert(tail.drop_first() =~= data@.skip(i + 1));
            assert(hex_of(tail) == seq![
                hex_digit((b as int) / 16),
                hex_digit((b as int) % 16),
            ] + hex_of(data@.skip(i + 1)));
            assert(pre + (seq![hd, ld] + hex_of(data@.skip(i + 1))) =~= r@ + hex_of(
                data@.skip(i + 1),
            ));
        }
        i = i + 1;
    }
    proof {
        assert(data@.skip(n as int) =~= Seq::<u8>::empty());
        assert(r@ + Seq::<u8>::empty() =~= r@);
    }
    r
}

/// An ASCII letter lowered; every other byte unchanged.
pub open spec fn lower_byte(b: u8) -> u8 {
    if 65 <= b <= 90 {
        (b + 32) as u8
    } else {
        b
    }
}

/// Case-insensitive equality of ASCII text, byte for byte.
pub open spec fn ascii_ci_equal(a: Seq<u8>, b: Seq<u8>) -> bool {
    a.len() == b.len() && forall|i: int|
        0 <= i < a.len() ==> lower_byte(#[trigger] a[i]) == lower_byte(#[trigger] b[i])
}

/// Compare a caller-supplied expected digest with a computed one,
/// case-insensitively, as the checksum check does.
pub fn digest_matches(expected: &Vec<u8>, actual: &Vec<u8>) -> (r: bool)
    ensures
        r == ascii_ci_equal(expected@, actual@),
{
    if expected.len() != actual.len() {
        return false;
    }
    let n = expected.len();
    let mut i: usize = 0;
    while i < n
        invariant
            n == expected@.len(),
            n == actual@.len(),
            i <= n,
            forall|j: int|
                0 <= j < i ==> lower_byte(#[trigger] expected@[j]) == lower_byte(
                    #[trigger] actual@[j],
                ),
        decreases n - i,
    {
        let e = expected[i];
        let a = actual[i];
        let el: u8 = if 65 <= e && e <= 90 {
            e + 32
        } else {
            e
        };
        let al: u8 = if 65 <= a && a <= 90 {
            a + 32
        } else {
            a
        };
        if el != al {
            return false;
        }
        i = i + 1;
    }
    true
}

/// The digest of a byte run, rendered as lowercase hexadecimal.
pub fn digest_hex(data: &Vec<u8>) -> (r: Vec<u8>)
    ensures
        r@ == hex_of(sha256_of(data@)),
{
    let d = sha256(data);
    to_hex(&d)
}

/// Round trip: assembling the captured chunks and hashing the result gives
/// the same digest as hashing a reference buffer built by concatenating the
/// same chunks directly in ascending id order.
pub proof fn lemma_round_trip(chunks: Seq<Chunk>, reference: Seq<u8>)
    requires
        sorted_by_id(chunks),
        reference == concat_data(chunks),
    ensures
        sha256_of(concat_data(sort_by_id(chunks))) == sha256_of(reference),
{
    lemma_sort_of_sorted(chunks);
}

/// The terminal outcome of a run, as surfaced to the caller: the assembled
/// bytes, their digest in lowercase hexadecimal, the error log, and — when an
/// expected digest was supplied — whether the checksum matched.
pub struct RunOutcome {
    pub assembled: Vec<u8>,
    pub digest_hex: Vec<u8>,
    pub errors: Vec<ChunkError>,
    pub checksum_matched: Option<bool>,
}

/// Close out a finished run: assemble the captured chunks in ascending id
/// order, hash the result, and compare the digest — case-insensitively —
/// against the expected one if the caller gave one. A mismatch is reported,
/// never used to discard the assembled output.
pub fn finish_run(agg: Aggregator, expected_digest: Option<&Vec<u8>>) -> (r: RunOutcome)
    ensures
        r.assembled@ == concat_data(sort_by_id(agg.chunks@)),
        r.digest_hex@ == hex_of(sha256_of(r.assembled@)),
        r.errors@ == agg.errors@,
        (match expected_digest {
            None => r.checksum_matched is None,
            Some(e) => r.checksum_matched == Some(
                ascii_ci_equal(e@, hex_of(sha256_of(r.assembled@))),
            ),
        }),
{
    let Aggregator { chunks, processed: _, errors, total_bytes: _ } = agg;
    let assembled = assemble(chunks);
    let hex = digest_hex(&assembled);
    let matched: Option<bool> = match expected_digest {
        None => None,
        Some(e) => Some(digest_matches(e, &hex)),
    };
    RunOutcome { assembled, digest_hex: hex, errors, checksum_matched: matched }
}

} // verus!
