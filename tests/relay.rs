use de_net::confirm::Confirmations;
use de_net::header::{PackageId, Peers};
use de_net::relay::{route, Participants, PeerAddr, PlayersPackage, Route};

fn addr(port: u16) -> PeerAddr {
    PeerAddr { ip: 0xffff_7f00_0001, port }
}

fn joined(ports: &[u16]) -> Participants {
    let mut participants = Participants::new();
    for &port in ports {
        assert!(participants.join(addr(port)));
    }
    participants
}

#[test]
fn non_participant_gets_not_joined() {
    let participants = joined(&[1, 2]);
    let package = PlayersPackage::new(true, addr(9), vec![1, 2, 3]);
    match route(&participants, package) {
        Route::NotJoined { target, reliable } => {
            assert_eq!(target, addr(9));
            assert!(reliable);
        }
        _ => panic!("expected a not-joined notice"),
    }
}

#[test]
fn participant_package_goes_to_the_others() {
    let participants = joined(&[1, 2, 3]);
    let package = PlayersPackage::new(false, addr(2), vec![5, 6]);
    match route(&participants, package) {
        Route::Forward(out) => {
            assert_eq!(out.targets, vec![addr(1), addr(3)]);
            assert_eq!(out.data, vec![5, 6]);
            assert!(!out.reliable);
            assert_eq!(out.peers, Peers::Players);
        }
        _ => panic!("expected a forwarded package"),
    }
}

#[test]
fn lone_participant_package_is_dropped() {
    let participants = joined(&[4]);
    let package = PlayersPackage::new(true, addr(4), vec![1]);
    assert!(matches!(route(&participants, package), Route::Drop));
}

#[test]
fn join_and_leave() {
    let mut participants = joined(&[1, 2]);
    assert!(!participants.join(addr(1)));
    assert!(participants.contains(addr(2)));
    assert!(participants.leave(addr(2)));
    assert!(!participants.leave(addr(2)));
    assert!(!participants.contains(addr(2)));
    assert_eq!(participants.targets(None), vec![addr(1)]);
}

#[test]
fn three_participants_end_to_end() {
    let participants = joined(&[1, 2, 3]);
    let (a, b, c, d) = (addr(1), addr(2), addr(3), addr(4));

    // A sends a reliable package: it goes to B and C only.
    let mut a_confirms = Confirmations::new(100, 5000);
    let package_id = PackageId::zero();
    a_confirms.sent_reliable(package_id, 1000);
    match route(&participants, PlayersPackage::new(true, a, vec![42])) {
        Route::Forward(out) => {
            assert_eq!(out.targets, vec![b, c]);
            assert!(out.reliable);
            assert_eq!(out.peers, Peers::Players);
        }
        _ => panic!("expected a forwarded package"),
    }
    // The package stays pending until it is confirmed.
    let batch = a_confirms.send_confirms(1100, false);
    assert_eq!(batch.resend, vec![package_id]);
    a_confirms.confirmed(package_id);
    let batch = a_confirms.send_confirms(1300, false);
    assert!(batch.resend.is_empty());

    // D has not joined: it gets a single notice and nothing is forwarded.
    match route(&participants, PlayersPackage::new(false, d, vec![1])) {
        Route::NotJoined { target, reliable } => {
            assert_eq!(target, d);
            assert!(!reliable);
        }
        _ => panic!("expected a not-joined notice"),
    }
}
