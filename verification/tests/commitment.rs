use fleetcore::commitment::{commit, commitment_preimage, Commitment};
use sha2::{Digest, Sha256};

const SHA256_ABC: [u8; 32] = [
    0xba, 0x78, 0x16, 0xbf, 0x8f, 0x01, 0xcf, 0xea, 0x41, 0x41, 0x40, 0xde, 0x5d, 0xae, 0x22, 0x23,
    0xb0, 0x03, 0x61, 0xa3, 0x96, 0x17, 0x7a, 0x9c, 0xb4, 0x10, 0xff, 0x61, 0xf2, 0x00, 0x15, 0xad,
];

const SHA256_EMPTY: [u8; 32] = [
    0xe3, 0xb0, 0xc4, 0x42, 0x98, 0xfc, 0x1c, 0x14, 0x9a, 0xfb, 0xf4, 0xc8, 0x99, 0x6f, 0xb9, 0x24,
    0x27, 0xae, 0x41, 0xe4, 0x64, 0x9b, 0x93, 0x4c, 0xa4, 0x95, 0x99, 0x1b, 0x78, 0x52, 0xb8, 0x55,
];

#[test]
fn commit_of_nothing_is_sha256_of_the_empty_string() {
    assert_eq!(commit("", &[]).bytes, SHA256_EMPTY);
}

#[test]
fn commit_hashes_the_secret() {
    assert_eq!(commit("abc", &[]).bytes, SHA256_ABC);
}

#[test]
fn commit_hashes_the_secret_then_the_cells() {
    // 'c' is the byte 99, so the cell 99 after the secret "ab" spells "abc".
    assert_eq!(commit("ab", &[99]).bytes, SHA256_ABC);
    assert_eq!(commit("", &[97, 98, 99]).bytes, SHA256_ABC);
}

#[test]
fn commit_agrees_with_sha2_on_a_fleet() {
    let board: [u8; 18] = [0, 1, 2, 3, 4, 20, 21, 22, 23, 40, 41, 42, 60, 61, 64, 65, 80, 99];
    let mut bytes = b"r_a".to_vec();
    bytes.extend_from_slice(&board);
    let expected: [u8; 32] = Sha256::digest(&bytes).into();
    assert_eq!(commit("r_a", &board).bytes, expected);
}

#[test]
fn commit_is_not_the_identity_on_32_bytes() {
    let cells = [7u8; 32];
    assert_ne!(commit("", &cells).bytes, cells);
}

#[test]
fn preimage_is_secret_then_cells() {
    assert_eq!(commitment_preimage("r_b", &[34, 0, 99]), vec![b'r', b'_', b'b', 34, 0, 99]);
    assert_eq!(commitment_preimage("", &[]), Vec::<u8>::new());
}

#[test]
fn preimage_encodes_the_secret_as_utf8() {
    assert_eq!(commitment_preimage("é", &[1]), vec![0xc3, 0xa9, 1]);
}

#[test]
fn commit_is_deterministic() {
    let board = [5u8, 6, 7];
    assert_eq!(commit("secret", &board), commit("secret", &board));
}

#[test]
fn commit_depends_on_the_secret() {
    let board = [5u8, 6, 7];
    assert_ne!(commit("r_a", &board), commit("r_b", &board));
}

#[test]
fn commit_depends_on_the_order_of_the_cells() {
    assert_ne!(commit("r", &[5, 6, 7]), commit("r", &[7, 6, 5]));
}

#[test]
fn commitments_compare_by_their_bytes() {
    let a = Commitment { bytes: [1; 32] };
    let mut other = [1u8; 32];
    assert!(a == Commitment { bytes: other });
    other[31] = 2;
    assert!(a != Commitment { bytes: other });
    other[31] = 1;
    other[0] = 0;
    assert!(a != Commitment { bytes: other });
}
