use de_net::body::{decode_confirmed, encode_confirmed};
use de_net::header::PackageId;

fn id(v: u32) -> PackageId {
    PackageId::try_from(v).unwrap()
}

#[test]
fn confirmed_ids_round_trip() {
    let ids = vec![id(1), id(0x123456), id(0xffffff)];
    let bytes = encode_confirmed(&ids);
    assert_eq!(bytes, vec![0, 0, 1, 0x12, 0x34, 0x56, 255, 255, 255]);
    assert_eq!(decode_confirmed(&bytes), Some(ids));
}

#[test]
fn empty_confirmation_body() {
    assert!(encode_confirmed(&Vec::new()).is_empty());
    assert_eq!(decode_confirmed(&[]), Some(Vec::new()));
}

#[test]
fn truncated_confirmation_body_is_rejected() {
    assert_eq!(decode_confirmed(&[0, 0, 1, 0]), None);
    assert_eq!(decode_confirmed(&[7]), None);
}
