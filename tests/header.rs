use std::cmp::Ordering;

use de_net::header::{DatagramHeader, HeaderError, PackageId, PackageIdRange, Peers};

#[test]
fn test_write_header() {
    let mut buf = [0u8; 256];

    DatagramHeader::new_package(false, Peers::Server, PackageId::zero()).write(&mut buf);
    assert_eq![&buf[0..4], &[0b0010_0000, 0, 0, 0]];
    assert_eq![&buf[4..], &[0; 252]];
    DatagramHeader::new_package(true, Peers::Server, 256.try_into().unwrap()).write(&mut buf);
    assert_eq![&buf[0..4], &[0b0110_0000, 0, 1, 0]];
    assert_eq![&buf[4..], &[0; 252]];

    DatagramHeader::new_package(true, Peers::Players, 1033.try_into().unwrap()).write(&mut buf);
    assert_eq![&buf[0..4], &[0b0100_0000, 0, 4, 9]];
    assert_eq![&buf[4..], &[0; 252]];
}

#[test]
fn test_read_header() {
    let mut buf = [88u8; 256];

    buf[0..4].copy_from_slice(&[64, 0, 0, 0]);
    assert_eq!(
        DatagramHeader::read(&buf).unwrap(),
        DatagramHeader::new_package(true, Peers::Players, 0.try_into().unwrap())
    );

    buf[0..4].copy_from_slice(&[64, 1, 0, 3]);
    assert_eq!(
        DatagramHeader::read(&buf).unwrap(),
        DatagramHeader::new_package(true, Peers::Players, 65539.try_into().unwrap())
    );

    buf[0..4].copy_from_slice(&[32, 0, 0, 2]);
    assert_eq!(
        DatagramHeader::read(&buf).unwrap(),
        DatagramHeader::new_package(false, Peers::Server, 2.try_into().unwrap())
    );
}

#[test]
fn test_incremented() {
    let id = PackageId::from_bytes(&[0, 1, 0]);
    assert_eq!(id.incremented().to_bytes(), [0, 1, 1]);

    let id: PackageId = 0xffffff.try_into().unwrap();
    assert_eq!(id.incremented(), 0.try_into().unwrap());
}

#[test]
fn test_ordering() {
    assert_eq!(
        PackageId::from_bytes(&[0, 1, 1]).ordering(PackageId::from_bytes(&[0, 1, 2])),
        Ordering::Less
    );
    assert_eq!(
        PackageId::from_bytes(&[0, 1, 1]).ordering(PackageId::from_bytes(&[0, 1, 0])),
        Ordering::Greater
    );
    assert_eq!(
        PackageId::from_bytes(&[0, 1, 1]).ordering(PackageId::from_bytes(&[0, 1, 1])),
        Ordering::Equal
    );

    assert_eq!(
        PackageId::from_bytes(&[0, 1, 2]).ordering(PackageId::from_bytes(&[255, 255, 1])),
        Ordering::Greater
    );
    assert_eq!(
        PackageId::from_bytes(&[255, 255, 1]).ordering(PackageId::from_bytes(&[0, 1, 2])),
        Ordering::Less
    );
}

#[test]
fn test_iter() {
    let mut counter = PackageIdRange::counter();
    assert_eq!(counter.next().unwrap(), PackageId::zero());
    assert_eq!(counter.next().unwrap(), PackageId::zero().incremented());
    assert_eq!(
        counter.next().unwrap(),
        PackageId::zero().incremented().incremented()
    );
    assert_eq!(counter.next().unwrap(), PackageId::from_bytes(&[0, 0, 3]));

    let mut counter = PackageIdRange::range(
        PackageId::from_bytes(&[0, 1, 2]),
        PackageId::from_bytes(&[0, 1, 4]),
    );
    assert_eq!(counter.next().unwrap(), PackageId::from_bytes(&[0, 1, 2]));
    assert_eq!(counter.next().unwrap(), PackageId::from_bytes(&[0, 1, 3]));
    assert!(counter.next().is_none());
}

fn id(v: u32) -> PackageId {
    PackageId::try_from(v).unwrap()
}

#[test]
fn header_round_trip_all_flags() {
    for reliable in [false, true] {
        for peers in [Peers::Server, Peers::Players] {
            for v in [0u32, 1, 255, 256, 65539, 0x123456, 0xffffff] {
                let header = DatagramHeader::new_package(reliable, peers, id(v));
                let mut buf = [7u8; 10];
                header.write(&mut buf);
                assert_eq!(&buf[4..], &[7u8; 6]);
                assert_eq!(DatagramHeader::read(&buf).unwrap(), header);
            }
        }
    }
}

#[test]
fn confirmation_header_round_trip() {
    let mut buf = [9u8; 4];
    DatagramHeader::Confirmation.write(&mut buf);
    assert_eq!(buf, [0b1000_0000, 0, 0, 0]);
    assert_eq!(DatagramHeader::read(&buf).unwrap(), DatagramHeader::Confirmation);
    // The ID bytes of a confirmation are ignored.
    assert_eq!(DatagramHeader::read(&[0x80, 1, 2, 3]).unwrap(), DatagramHeader::Confirmation);
}

#[test]
fn malformed_headers_are_rejected() {
    for mask in [0x81u8, 0x90, 0xa0, 0xc0, 0xe0, 0xff] {
        assert_eq!(DatagramHeader::read(&[mask, 0, 0, 0]), Err(HeaderError::Invalid));
    }
}

#[test]
fn package_header_accessors() {
    let header = DatagramHeader::read(&[0x60, 0x12, 0x34, 0x56]).unwrap();
    match header {
        DatagramHeader::Package(p) => {
            assert!(p.reliable());
            assert_eq!(p.peers(), Peers::Server);
            assert_eq!(p.id(), id(0x123456));
        }
        DatagramHeader::Confirmation => panic!("expected a package header"),
    }
}

#[test]
fn id_bytes_round_trip() {
    assert_eq!(id(0x123456).to_bytes(), [0x12, 0x34, 0x56]);
    assert_eq!(PackageId::from_bytes(&[0x12, 0x34, 0x56]), id(0x123456));
    assert_eq!(PackageId::from_bytes(&[255, 255, 255]), id(0xffffff));
}

#[test]
fn id_try_from_rejects_large_values() {
    assert!(PackageId::try_from(0x1000000).is_err());
    assert!(PackageId::try_from(u32::MAX).is_err());
    assert!(PackageId::try_from(0xffffff).is_ok());
}

#[test]
fn incremented_steps_by_one() {
    assert_eq!(id(41).incremented(), id(42));
    assert_eq!(id(0xfffffe).incremented(), id(0xffffff));
    assert_eq!(id(0xffffff).incremented(), PackageId::zero());
}

#[test]
fn ordering_is_antisymmetric_and_wraps() {
    let pairs = [(0u32, 1u32), (5, 0x7fffff), (5, 0x800005), (0xffffff, 0), (0x10, 0xfffff0)];
    for (a, b) in pairs {
        let ab = id(a).ordering(id(b));
        let ba = id(b).ordering(id(a));
        assert_eq!(ab, ba.reverse());
        assert_eq!(id(a).ordering(id(a)), Ordering::Equal);
    }
    // Less than half the space apart: numeric order.
    assert_eq!(id(5).ordering(id(0x800004)), Ordering::Less);
    // Half the space apart or more: inverted.
    assert_eq!(id(5).ordering(id(0x800005)), Ordering::Greater);
    assert_eq!(id(0xffffff).ordering(id(0)), Ordering::Less);
}

#[test]
fn range_wraps_around_the_largest_id() {
    let mut range = PackageIdRange::range(id(0xfffffe), id(2));
    assert_eq!(range.size_hint(), (4, Some(4)));
    let mut got = Vec::new();
    while let Some(next) = range.next() {
        got.push(next);
    }
    assert_eq!(got, vec![id(0xfffffe), id(0xffffff), id(0), id(1)]);
    assert_eq!(range.size_hint(), (0, Some(0)));
    assert!(range.next().is_none());
}

#[test]
fn empty_range_yields_nothing() {
    let mut range = PackageIdRange::range(id(7), id(7));
    assert_eq!(range.size_hint(), (0, Some(0)));
    assert!(range.next().is_none());
}

#[test]
fn counter_is_unbounded() {
    let mut counter = PackageIdRange::counter();
    assert_eq!(counter.size_hint(), (usize::MAX, None));
    let mut expected = PackageId::zero();
    for _ in 0..1000 {
        assert_eq!(counter.next().unwrap(), expected);
        expected = expected.incremented();
    }
    assert_eq!(expected, id(1000));
}

#[test]
fn peers_names() {
    assert_eq!(Peers::Server.to_string(), "Server");
    assert_eq!(Peers::Players.to_string(), "Players");
}

#[test]
fn header_text() {
    assert_eq!(DatagramHeader::Confirmation.to_string(), "Confirmation");
    assert_eq!(
        DatagramHeader::new_package(true, Peers::Players, id(1033)).to_string(),
        "Package { reliable: true, peers: Players, id: 1033 }"
    );
    assert_eq!(
        DatagramHeader::new_package(false, Peers::Server, PackageId::zero()).to_string(),
        "Package { reliable: false, peers: Server, id: 0 }"
    );
}

#[test]
fn id_text() {
    assert_eq!(PackageId::zero().to_string(), "0");
    assert_eq!(id(9).to_string(), "9");
    assert_eq!(id(10).to_string(), "10");
    assert_eq!(id(0xffffff).to_string(), "16777215");
}
