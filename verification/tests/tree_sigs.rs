use ark_core::tree::{SignedVtxoTree, VtxoRequest, VtxoTreeSpec};
use ark_core::vtxo::OutPoint;

/// The bytes a tree node's cosigners commit to: funding outpoint, node
/// level, node index, node value, each number as eight little-endian
/// bytes.
fn node_message(utxo: &OutPoint, level: u64, idx: u64, value: u64) -> [u8; 32] {
    let mut buf: Vec<u8> = Vec::new();
    buf.extend_from_slice(&utxo.txid);
    buf.extend_from_slice(&(utxo.vout as u64).to_le_bytes());
    buf.extend_from_slice(&level.to_le_bytes());
    buf.extend_from_slice(&idx.to_le_bytes());
    buf.extend_from_slice(&value.to_le_bytes());
    ark_core::crypto::sha256d(buf.as_slice())
}

#[test]
fn signed_tree_verifies_and_rejects() {
    // two 80_000 sat leaves: two leaf nodes, then the 160_000 sat root
    let utxo = OutPoint { txid: [6; 32], vout: 0 };
    let sk = [0x51u8; 32];
    let pk = ark_core::crypto::derive_xonly_pub(&sk).expect("valid key");
    let nodes = [(0u64, 0u64, 80_000u64), (0, 1, 80_000), (1, 0, 160_000)];
    let mut signatures = Vec::new();
    for (level, idx, value) in nodes.iter() {
        let msg = node_message(&utxo, *level, *idx, *value);
        signatures.push(ark_core::crypto::schnorr_sign(&msg, &sk).expect("valid key"));
    }
    let tree = SignedVtxoTree {
        spec: VtxoTreeSpec {
            vtxos: vec![
                VtxoRequest { pubkey: [1; 32], cosign_pk: [2; 32], amount: 80_000 },
                VtxoRequest { pubkey: [3; 32], cosign_pk: [4; 32], amount: 80_000 },
            ],
            cosign_agg_pk: pk,
            asp_pk: [9; 32],
            expiry_height: 11_144,
            exit_delta: 12,
        },
        utxo,
        cosign_keys: vec![pk, pk, pk],
        signatures,
    };
    assert!(tree.verify_cosign_sigs());

    // one corrupted signature fails the whole tree
    let mut bad = SignedVtxoTree {
        spec: VtxoTreeSpec {
            vtxos: tree.spec.vtxos.clone(),
            cosign_agg_pk: tree.spec.cosign_agg_pk,
            asp_pk: tree.spec.asp_pk,
            expiry_height: tree.spec.expiry_height,
            exit_delta: tree.spec.exit_delta,
        },
        utxo: tree.utxo,
        cosign_keys: tree.cosign_keys.clone(),
        signatures: tree.signatures.clone(),
    };
    bad.signatures[2][0] ^= 1;
    assert!(!bad.verify_cosign_sigs());

    // a missing node signature fails too
    let mut short = bad;
    short.signatures = tree.signatures[..2].to_vec();
    short.cosign_keys = tree.cosign_keys[..2].to_vec();
    assert!(!short.verify_cosign_sigs());
}

#[test]
fn only_verified_trees_are_accepted() {
    let utxo = OutPoint { txid: [6; 32], vout: 0 };
    let sk = [0x51u8; 32];
    let pk = ark_core::crypto::derive_xonly_pub(&sk).expect("valid key");
    let msg = node_message(&utxo, 0, 0, 80_000);
    let sig = ark_core::crypto::schnorr_sign(&msg, &sk).expect("valid key");
    let tree = SignedVtxoTree {
        spec: VtxoTreeSpec {
            vtxos: vec![VtxoRequest { pubkey: [1; 32], cosign_pk: [2; 32], amount: 80_000 }],
            cosign_agg_pk: pk,
            asp_pk: [9; 32],
            expiry_height: 11_144,
            exit_delta: 12,
        },
        utxo,
        cosign_keys: vec![pk],
        signatures: vec![sig],
    };
    let accepted = tree.into_accepted().expect("a verified tree is accepted");
    assert_eq!(accepted.signatures.len(), 1);
    let mut forged = accepted;
    forged.signatures[0][10] ^= 0xff;
    assert!(forged.into_accepted().is_none());
}

#[test]
fn exit_branch_positions_walk_to_the_root() {
    // five leaves: level widths 5, 3, 2, 1
    let branch = ark_core::tree::exit_branch_positions(5, 3);
    assert_eq!(branch, vec![(0, 3), (1, 1), (2, 0), (3, 0)]);
    // one leaf: the branch is the root itself
    assert_eq!(ark_core::tree::exit_branch_positions(1, 0), vec![(0, 0)]);
    // two leaves
    assert_eq!(
        ark_core::tree::exit_branch_positions(2, 1),
        vec![(0, 1), (1, 0)]
    );
}

#[test]
fn signed_tree_yields_exit_branches() {
    let tree = SignedVtxoTree {
        spec: VtxoTreeSpec {
            vtxos: vec![
                VtxoRequest { pubkey: [1; 32], cosign_pk: [2; 32], amount: 80_000 },
                VtxoRequest { pubkey: [3; 32], cosign_pk: [4; 32], amount: 80_000 },
            ],
            cosign_agg_pk: [5; 32],
            asp_pk: [9; 32],
            expiry_height: 11_144,
            exit_delta: 12,
        },
        utxo: OutPoint { txid: [6; 32], vout: 0 },
        cosign_keys: vec![[1; 32], [2; 32], [3; 32]],
        signatures: vec![[1; 64], [2; 64], [3; 64]],
    };
    assert_eq!(tree.exit_branch(1).unwrap(), vec![(0, 1), (1, 0)]);
    assert_eq!(tree.exit_branch(0).unwrap(), vec![(0, 0), (1, 0)]);
    assert!(tree.exit_branch(2).is_none());
}

#[test]
fn forfeits_are_gated_on_a_verified_proposal() {
    // a one-leaf tree with a real cosign signature, and the matching
    // connector output
    let utxo = OutPoint { txid: [6; 32], vout: 0 };
    let sk = [0x51u8; 32];
    let pk = ark_core::crypto::derive_xonly_pub(&sk).expect("valid key");
    let msg = node_message(&utxo, 0, 0, 80_000);
    let sig = ark_core::crypto::schnorr_sign(&msg, &sk).expect("valid key");
    let tree = SignedVtxoTree {
        spec: VtxoTreeSpec {
            vtxos: vec![VtxoRequest { pubkey: [1; 32], cosign_pk: [2; 32], amount: 80_000 }],
            cosign_agg_pk: pk,
            asp_pk: [9; 32],
            expiry_height: 11_144,
            exit_delta: 12,
        },
        utxo,
        cosign_keys: vec![pk],
        signatures: vec![sig],
    };
    let spk = vec![0x51u8, 0x20, 0xab];
    let connector = ark_core::vtxo::TxOut {
        value: 330,
        spk: ark_core::vtxo::Spk::Raw { program: spk.clone() },
    };
    let accepted =
        ark_core::participant::accept_round_proposal(tree, &connector, 1, &spk)
            .expect("a verified proposal is handed back");
    // a wrong connector output is refused
    let wrong = ark_core::vtxo::TxOut {
        value: 999,
        spk: ark_core::vtxo::Spk::Raw { program: spk.clone() },
    };
    assert!(ark_core::participant::accept_round_proposal(accepted, &wrong, 1, &spk).is_none());
}
