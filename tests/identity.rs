use player_info::{PlayerIdentity, RemovePlayer, WireFormat};
use uuid::Uuid;

#[test]
fn identity_bytes_follow_uuid_order() {
    let u = Uuid::from_u128(0x0011_2233_4455_6677_8899_aabb_ccdd_eeff);
    let player = RemovePlayer { uuid: PlayerIdentity { bytes: *u.as_bytes() } };
    let mut out = Vec::new();
    player.write_into(&mut out);
    assert_eq!(out, u.as_bytes().to_vec());
    let (back, used) = RemovePlayer::read_into(&out, 0, player_info::DecodeLimits::widest()).unwrap();
    assert_eq!(used, 16);
    assert_eq!(Uuid::from_bytes(back.uuid.bytes), u);
}
