use ark_core::flux::VtxosInFlux;
use ark_core::vtxo::{OutPoint, VtxoId};

fn vid(n: u8) -> VtxoId {
    VtxoId { point: OutPoint { txid: [n; 32], vout: n as u32 } }
}

#[test]
fn test_in_flux() {
    let mut flux = VtxosInFlux::new();
    let vtxos: Vec<VtxoId> = (0u8..10).map(vid).collect();

    flux.atomic_check_put(&vec![vtxos[0], vtxos[1]]).unwrap();
    flux.atomic_check_put(&vec![vtxos[2], vtxos[3]]).unwrap();
    assert_eq!(4, flux.len());
    flux.atomic_check_put(&vec![vtxos[0], vtxos[4]]).unwrap_err();
    assert_eq!(4, flux.len());
    flux.release(&vec![vtxos[0]]);
    assert_eq!(3, flux.len());
    flux.atomic_check_put(&vec![vtxos[0], vtxos[4]]).unwrap();
    assert_eq!(5, flux.len());

    flux.atomic_check_put(&vec![vtxos[1], vtxos[5]]).unwrap_err();
    assert_eq!(5, flux.len());
    assert!(!flux.contains(&vtxos[5]));
}

#[test]
fn flux_disjoint_batches_both_enter() {
    let mut flux = VtxosInFlux::new();
    let a = vec![vid(1), vid(2)];
    let b = vec![vid(3), vid(4)];
    flux.atomic_check_put(&a).unwrap();
    flux.atomic_check_put(&b).unwrap();
    for id in a.iter().chain(b.iter()) {
        assert!(flux.contains(id));
    }
    assert_eq!(4, flux.len());
}

#[test]
fn flux_error_restores_prior_state() {
    let mut flux = VtxosInFlux::new();
    flux.atomic_check_put(&vec![vid(1)]).unwrap();
    let dup = flux.atomic_check_put(&vec![vid(2), vid(3), vid(1)]).unwrap_err();
    assert_eq!(dup.point.txid, [1; 32]);
    assert_eq!(1, flux.len());
    assert!(!flux.contains(&vid(2)));
    assert!(!flux.contains(&vid(3)));
}

#[test]
fn flux_duplicate_within_batch_rejected() {
    let mut flux = VtxosInFlux::new();
    let err = flux.atomic_check_put(&vec![vid(7), vid(7)]).unwrap_err();
    assert_eq!(err.point.vout, 7);
    assert_eq!(0, flux.len());
}
