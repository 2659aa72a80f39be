//! The commitment scheme: SHA-256 over a player's secret followed by the
//! occupied cells of the board, one byte per cell, in the order supplied.

use vstd::prelude::*;
use vstd::string::*;
use vstd::utf8::{decode_utf8, encode_utf8, encode_utf8_decode_utf8};

verus! {

/// The SHA-256 digest of a byte string, as the `sha2` crate computes it.
pub uninterp spec fn sha256(data: Seq<u8>) -> Seq<u8>;

/// The bytes that are hashed to commit to a board: the UTF-8 encoding of the
/// secret, then the cells as given.
pub open spec fn preimage(random: Seq<char>, positions: Seq<u8>) -> Seq<u8> {
    encode_utf8(random) + positions
}

/// The digest that commits to `positions` under the secret `random`.
pub open spec fn commitment(random: Seq<char>, positions: Seq<u8>) -> Seq<u8> {
    sha256(preimage(random, positions))
}

/// A 32-byte digest that hides a board behind a player's secret.
#[derive(Clone, Copy, Debug)]
pub struct Commitment {
    pub bytes: [u8; 32],
}

impl View for Commitment {
    type V = Seq<u8>;

    open spec fn view(&self) -> Seq<u8> {
        self.bytes@
    }
}

impl PartialEq for Commitment {
    /// Two commitments are equal when their 32 bytes are.
    fn eq(&self, other: &Commitment) -> (same: bool) {
        let mut i: usize = 0;
        while i < 32
            invariant
                i <= 32,
                forall|j: int| 0 <= j < i ==> self.bytes@[j] == other.bytes@[j],
            decreases 32 - i,
        {
            if self.bytes[i] != other.bytes[i] {
                return false;
            }
            i += 1;
        }
        assert(self.bytes@ =~= other.bytes@);
        true
    }
}

impl vstd::std_specs::cmp::PartialEqSpecImpl for Commitment {
    open spec fn obeys_eq_spec() -> bool {
        true
    }

    open spec fn eq_spec(&self, other: &Commitment) -> bool {
        self@ == other@
    }
}

impl Eq for Commitment {

}

/// Calls `sha2::Sha256::digest` (the `Digest` trait's one-shot hash) on
/// `data` and takes the 32 output bytes out of the returned array. The
/// contract names the result; nothing is proved of SHA-256 itself.
#[verifier::external_body]
fn sha256_of(data: &[u8]) -> (digest: [u8; 32])
    ensures
        digest@ == sha256(data@),
{
    <sha2::Sha256 as sha2::Digest>::digest(data).into()
}

/// Builds the bytes that `commit` hashes.
pub fn commitment_preimage(random: &str, positions: &[u8]) -> (bytes: Vec<u8>)
    ensures
        bytes@ == preimage(random@, positions@),
{
    let mut bytes = random.as_bytes_vec();
    bytes.extend_from_slice(positions);
    bytes
}

/// Commits to `positions` under the secret `random`.
pub fn commit(random: &str, positions: &[u8]) -> (c: Commitment)
    ensures
        c@ == commitment(random@, positions@),
{
    let bytes = commitment_preimage(random, positions);
    Commitment { bytes: sha256_of(bytes.as_slice()) }
}

/// Committing again to the same cells, in the same order and under the same
/// secret, gives the same commitment.
pub proof fn lemma_commitment_is_determined(
    first: Commitment,
    second: Commitment,
    random: Seq<char>,
    positions: Seq<u8>,
)
    requires
        first@ == commitment(random, positions),
        second@ == commitment(random, positions),
    ensures
        first == second,
{
    assert(first.bytes =~= second.bytes);
}

/// Under different secrets the same board is hashed from different bytes.
pub proof fn lemma_secrets_change_preimage(
    random: Seq<char>,
    other: Seq<char>,
    positions: Seq<u8>,
)
    requires
        random != other,
    ensures
        preimage(random, positions) != preimage(other, positions),
{
    let a = encode_utf8(random);
    let b = encode_utf8(other);
    if a + positions == b + positions {
        assert((a + positions).len() == a.len() + positions.len());
        assert((b + positions).len() == b.len() + positions.len());
        assert forall|i: int| 0 <= i < a.len() implies a[i] == b[i] by {
            assert((a + positions)[i] == (b + positions)[i]);
        }
        assert(a =~= b);
        encode_utf8_decode_utf8(random);
        encode_utf8_decode_utf8(other);
        assert(decode_utf8(a) == random && decode_utf8(b) == other);
    }
}

/// Under one secret different boards are hashed from different bytes. The
/// order of the cells counts.
pub proof fn lemma_boards_change_preimage(random: Seq<char>, board: Seq<u8>, other: Seq<u8>)
    requires
        board != other,
    ensures
        preimage(random, board) != preimage(random, other),
{
    let r = encode_utf8(random);
    if r + board == r + other {
        assert((r + board).len() == r.len() + board.len());
        assert((r + other).len() == r.len() + other.len());
        assert forall|i: int| 0 <= i < board.len() implies board[i] == other[i] by {
            assert((r + board)[r.len() + i] == (r + other)[r.len() + i]);
        }
        assert(board =~= other);
    }
}

} // verus!
