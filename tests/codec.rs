use player_info::{
    read_varint, read_varint_signed, write_varint, write_varint_signed, Action, AddPlayer,
    ClientboundPlayerInfoPacket, DecodeError, DecodeLimits, ErrorKind, PlayerIdentity, PlayerProperty,
    RemovePlayer, RichText, UpdateDisplayName, UpdateGameMode, UpdateLatency, WireFormat,
};

fn fail(kind: ErrorKind, offset: usize) -> DecodeError {
    DecodeError { kind, offset }
}

fn roomy() -> DecodeLimits {
    DecodeLimits { max_string_len: 32767, max_sequence_len: 1024 }
}

fn id(n: u8) -> PlayerIdentity {
    let mut bytes = [0u8; 16];
    for (i, b) in bytes.iter_mut().enumerate() {
        *b = n.wrapping_add(i as u8);
    }
    PlayerIdentity { bytes }
}

fn round_trip(action: Action) {
    let packet = ClientboundPlayerInfoPacket { action };
    let bytes = packet.encode();
    let (back, used) = ClientboundPlayerInfoPacket::decode(&bytes, roomy()).unwrap();
    assert_eq!(used, bytes.len());
    assert_eq!(back, packet);
}

fn unsigned_varint(v: u32) -> Vec<u8> {
    let mut out = Vec::new();
    write_varint(&mut out, v);
    out
}

fn signed_varint(v: i32) -> Vec<u8> {
    let mut out = Vec::new();
    write_varint_signed(&mut out, v);
    out
}

#[test]
fn varint_boundaries_round_trip() {
    for (v, expected) in [
        (0u32, vec![0x00u8]),
        (127, vec![0x7f]),
        (128, vec![0x80, 0x01]),
        (2147483647, vec![0xff, 0xff, 0xff, 0xff, 0x07]),
    ] {
        let bytes = unsigned_varint(v);
        assert_eq!(bytes, expected);
        assert_eq!(read_varint(&bytes, 0), Ok((v, bytes.len())));
    }
    let bytes = signed_varint(-1);
    assert_eq!(bytes, vec![0xff, 0xff, 0xff, 0xff, 0x0f]);
    assert_eq!(read_varint_signed(&bytes, 0), Ok((-1, 5)));
    let bytes = signed_varint(i32::MIN);
    assert_eq!(read_varint_signed(&bytes, 0), Ok((i32::MIN, 5)));
    assert_eq!(read_varint(&unsigned_varint(u32::MAX), 0), Ok((u32::MAX, 5)));
}

#[test]
fn varint_with_six_groups_is_malformed() {
    let bytes = [0x80u8, 0x80, 0x80, 0x80, 0x80, 0x01];
    assert_eq!(read_varint(&bytes, 0), Err(fail(ErrorKind::MalformedVarint, 0)));
}

#[test]
fn varint_cut_short_is_truncated() {
    assert_eq!(read_varint(&[0x80u8, 0x80], 0), Err(fail(ErrorKind::UnexpectedEndOfInput, 0)));
    assert_eq!(read_varint(&[], 0), Err(fail(ErrorKind::UnexpectedEndOfInput, 0)));
}

#[test]
fn varint_read_at_offset() {
    assert_eq!(read_varint(&[0x05u8, 0xac, 0x02, 0x09], 1), Ok((300, 3)));
    assert_eq!(read_varint(&[0x05u8, 0x80], 1), Err(fail(ErrorKind::UnexpectedEndOfInput, 1)));
}

#[test]
fn add_player_encodes_to_expected_bytes() {
    let player = AddPlayer {
        uuid: PlayerIdentity { bytes: [0u8; 16] },
        name: "Steve".to_string(),
        properties: vec![],
        gamemode: 0,
        ping: 50,
        display_name: None,
    };
    let packet = ClientboundPlayerInfoPacket { action: Action::AddPlayer(vec![player]) };
    let bytes = packet.encode();
    let mut expected = vec![0x00u8, 0x01];
    expected.extend_from_slice(&[0u8; 16]);
    expected.push(0x05);
    expected.extend_from_slice(b"Steve");
    expected.extend_from_slice(&[0x00, 0x00, 0x32, 0x00]);
    assert_eq!(bytes, expected);
    let (back, used) = ClientboundPlayerInfoPacket::decode(&bytes, roomy()).unwrap();
    assert_eq!(used, expected.len());
    assert_eq!(back, packet);
}

#[test]
fn remove_player_keeps_order() {
    let action = Action::RemovePlayer(vec![RemovePlayer { uuid: id(9) }, RemovePlayer { uuid: id(1) }]);
    let mut out = Vec::new();
    action.write_into(&mut out);
    assert_eq!(out.len(), 1 + 1 + 32);
    assert_eq!(out[0], 4);
    assert_eq!(out[1], 2);
    let (back, used) = Action::read_into(&out, 0, roomy()).unwrap();
    assert_eq!(used, out.len());
    match back {
        Action::RemovePlayer(v) => {
            assert_eq!(v.len(), 2);
            assert_eq!(v[0].uuid, id(9));
            assert_eq!(v[1].uuid, id(1));
        }
        other => panic!("wrong variant: {:?}", other),
    }
}

#[test]
fn every_variant_round_trips_empty() {
    round_trip(Action::AddPlayer(vec![]));
    round_trip(Action::UpdateGameMode(vec![]));
    round_trip(Action::UpdateLatency(vec![]));
    round_trip(Action::UpdateDisplayName(vec![]));
    round_trip(Action::RemovePlayer(vec![]));
}

#[test]
fn every_variant_round_trips_with_records() {
    round_trip(Action::AddPlayer(vec![
        AddPlayer {
            uuid: id(3),
            name: "Alex".to_string(),
            properties: vec![
                PlayerProperty {
                    name: "textures".to_string(),
                    value: "e30=".to_string(),
                    signature: Some("c2ln".to_string()),
                },
                PlayerProperty { name: "cape".to_string(), value: String::new(), signature: None },
            ],
            gamemode: 3,
            ping: -1,
            display_name: Some(RichText { json: "{\"text\":\"Älex ✓\"}".to_string() }),
        },
        AddPlayer {
            uuid: id(200),
            name: String::new(),
            properties: vec![],
            gamemode: u32::MAX,
            ping: i32::MIN,
            display_name: None,
        },
    ]));
    round_trip(Action::UpdateGameMode(vec![
        UpdateGameMode { uuid: id(1), gamemode: 1 },
        UpdateGameMode { uuid: id(2), gamemode: 300 },
    ]));
    round_trip(Action::UpdateLatency(vec![UpdateLatency { uuid: id(5), ping: 1234567 }]));
    round_trip(Action::UpdateDisplayName(vec![
        UpdateDisplayName { uuid: id(7), display_name: None },
        UpdateDisplayName { uuid: id(8), display_name: Some(RichText { json: "\"x\"".to_string() }) },
    ]));
}

#[test]
fn tag_with_zero_count_gives_empty_variant() {
    let expected = [
        Action::AddPlayer(vec![]),
        Action::UpdateGameMode(vec![]),
        Action::UpdateLatency(vec![]),
        Action::UpdateDisplayName(vec![]),
        Action::RemovePlayer(vec![]),
    ];
    for (tag, want) in expected.iter().enumerate() {
        let bytes = [tag as u8, 0u8];
        assert_eq!(Action::read_into(&bytes, 0, roomy()), Ok((want.clone(), 2)));
        assert_eq!(want.tag(), tag as u8);
    }
}

#[test]
fn unknown_tag_is_a_typed_error() {
    for tag in [5u8, 6, 128, 255] {
        let bytes = [tag, 0x01, 0x02, 0x03];
        assert_eq!(Action::read_into(&bytes, 0, roomy()), Err(fail(ErrorKind::UnknownVariant(tag), 0)));
        assert_eq!(
            ClientboundPlayerInfoPacket::decode(&[tag], roomy()),
            Err(fail(ErrorKind::UnknownVariant(tag), 0))
        );
    }
}

#[test]
fn empty_input_is_truncated() {
    assert_eq!(ClientboundPlayerInfoPacket::decode(&[], roomy()), Err(fail(ErrorKind::UnexpectedEndOfInput, 0)));
}

#[test]
fn string_longer_than_input_is_truncated() {
    let bytes = [0x0au8, b'a', b'b', b'c'];
    assert_eq!(String::read_into(&bytes, 0, roomy()), Err(fail(ErrorKind::UnexpectedEndOfInput, 0)));
    let tiny = DecodeLimits { max_string_len: 1, max_sequence_len: 1 };
    assert_eq!(String::read_into(&bytes, 0, tiny), Err(fail(ErrorKind::UnexpectedEndOfInput, 0)));
}

#[test]
fn sequence_count_past_input_is_truncated() {
    let bytes = [0x04u8, 0x7f, 0xff, 0xff, 0xff, 0x07];
    assert_eq!(Action::read_into(&bytes, 0, roomy()), Err(fail(ErrorKind::UnexpectedEndOfInput, 1)));
    let bytes = [0x04u8, 0x04, 1, 2, 3];
    assert_eq!(Action::read_into(&bytes, 0, roomy()), Err(fail(ErrorKind::UnexpectedEndOfInput, 1)));
    let bytes = [0x04u8, 0x02, 1, 2, 3];
    assert_eq!(Action::read_into(&bytes, 0, roomy()), Err(fail(ErrorKind::UnexpectedEndOfInput, 2)));
}

#[test]
fn identity_cut_short_is_truncated() {
    let bytes = [0u8; 15];
    assert_eq!(PlayerIdentity::read_into(&bytes, 0, roomy()), Err(fail(ErrorKind::UnexpectedEndOfInput, 0)));
    let bytes = [0u8; 16];
    assert_eq!(PlayerIdentity::read_into(&bytes, 0, roomy()), Ok((PlayerIdentity { bytes: [0u8; 16] }, 16)));
}

#[test]
fn record_cut_short_inside_is_truncated() {
    let player = UpdateLatency { uuid: id(4), ping: 70000 };
    let packet = ClientboundPlayerInfoPacket { action: Action::UpdateLatency(vec![player]) };
    let bytes = packet.encode();
    assert_eq!(bytes.len(), 21);
    for cut in 0..bytes.len() {
        let offset = match cut {
            0 => 0,
            1 | 2 => 1,
            3..=17 => 2,
            _ => 18,
        };
        assert_eq!(
            ClientboundPlayerInfoPacket::decode(&bytes[..cut], roomy()),
            Err(fail(ErrorKind::UnexpectedEndOfInput, offset))
        );
    }
}

#[test]
fn string_over_limit_is_refused() {
    let bytes = [0x03u8, b'a', b'b', b'c'];
    let tight = DecodeLimits { max_string_len: 2, max_sequence_len: 10 };
    assert_eq!(String::read_into(&bytes, 0, tight), Err(fail(ErrorKind::LengthExceeded, 0)));
    let exact = DecodeLimits { max_string_len: 3, max_sequence_len: 10 };
    assert_eq!(String::read_into(&bytes, 0, exact), Ok(("abc".to_string(), 4)));
}

#[test]
fn sequence_over_limit_is_refused() {
    let action = Action::RemovePlayer(vec![RemovePlayer { uuid: id(1) }, RemovePlayer { uuid: id(2) }]);
    let mut out = Vec::new();
    action.write_into(&mut out);
    let tight = DecodeLimits { max_string_len: 10, max_sequence_len: 1 };
    assert_eq!(Action::read_into(&out, 0, tight), Err(fail(ErrorKind::LengthExceeded, 1)));
}

#[test]
fn invalid_utf8_is_refused() {
    let bytes = [0x02u8, 0xc3, 0x28];
    assert_eq!(String::read_into(&bytes, 0, roomy()), Err(fail(ErrorKind::InvalidUtf8, 0)));
}

#[test]
fn utf8_text_decodes_multibyte() {
    let bytes = [0x04u8, 0xc3, 0xa9, b'x', b'y'];
    assert_eq!(String::read_into(&bytes, 0, roomy()), Ok(("éxy".to_string(), 5)));
    let mut out = Vec::new();
    "é".to_string().write_into(&mut out);
    assert_eq!(out, vec![0x02, 0xc3, 0xa9]);
}

#[test]
fn optional_marker_absent_and_present() {
    let absent = UpdateDisplayName { uuid: id(0), display_name: None };
    let mut out = Vec::new();
    absent.write_into(&mut out);
    assert_eq!(out.len(), 17);
    assert_eq!(out[16], 0);
    let present = UpdateDisplayName { uuid: id(0), display_name: Some(RichText { json: "ab".to_string() }) };
    let mut out = Vec::new();
    present.write_into(&mut out);
    assert_eq!(&out[16..], &[1u8, 2, b'a', b'b']);
    assert_eq!(UpdateDisplayName::read_into(&out, 0, roomy()), Ok((present, out.len())));
}

#[test]
fn widest_limits_accept_everything() {
    let w = DecodeLimits::widest();
    assert_eq!(w.max_string_len, u32::MAX);
    assert_eq!(w.max_sequence_len, u32::MAX);
}
