use openboard::de::{from_bytes, Deserializer};
use openboard::error::SessionError;
use openboard::messages::{
    color, Auth, BoardConfiguration, BoardFlags, Create, CursorMove, Draw, DrawFlags, Fill,
    History, Image, Join, Message, Ping, ServerMessage, Step, Text, Undo, UserJoin, UserLeave,
    HISTORY_ENABLED, HISTORY_TRIMMED, PALETTE_DEFAULT, PALETTE_SIZE,
};
use openboard::ser::{to_bytes, Serializer};

fn round_trip(message: Message) -> bool {
    let serialized = to_bytes(&message).unwrap();
    let deserialized = from_bytes(serialized.as_slice()).unwrap();
    message == deserialized
}

fn texts() -> Vec<String> {
    vec![
        String::new(),
        "t".to_string(),
        "alpha".to_string(),
        "h\u{e9}llo w\u{f6}rld".to_string(),
        "\u{65e5}\u{672c}\u{8a9e} \u{1f58c}\u{fe0f} \u{10ffff}\u{0}".to_string(),
        "x".repeat(65535),
        "\u{20ac}".repeat(21845),
    ]
}

#[test]
fn test_auth() {
    for token in texts() {
        assert!(round_trip(Message::Auth(Auth { jwt_token: token.as_str() })));
    }
}

#[test]
fn test_join() {
    for name in texts() {
        assert!(round_trip(Message::Join(Join { name: name.as_str() })));
    }
}

#[test]
fn test_create() {
    for name in texts() {
        for template_id in [0u64, 7, u64::MAX, 0x0102030405060708] {
            assert!(round_trip(Message::Create(Create { template_id, name: name.as_str() })));
        }
    }
}

#[test]
fn test_board_configuration() {
    let palettes: [[u32; PALETTE_SIZE]; 3] = [
        [0; PALETTE_SIZE],
        [u32::MAX; PALETTE_SIZE],
        [1, 0x100, 0x10000, 0x1000000, 0xdeadbeef, 0x80000000, 0x7fffffff, 42],
    ];
    for palette in palettes {
        for history_size in [0u16, 1, 255, 256, u16::MAX] {
            for board_flags2 in [0u8, 1, 2, 3, 255] {
                for background in [0u8, 7, 255] {
                    assert!(round_trip(Message::BoardConfiguration(BoardConfiguration {
                        palette,
                        background,
                        board_flags: BoardFlags::from_bits_truncate(board_flags2),
                        history_size,
                    })));
                }
            }
        }
    }
}

#[test]
fn test_step() {
    for step_id in [0u32, 1, 0x01020304, u32::MAX] {
        assert!(round_trip(Message::Step(Step { step_id })));
    }
}

#[test]
fn test_draw() {
    for position in [0u32, 100, u32::MAX] {
        for color in [0u8, 3, 255] {
            for flags2 in [0u8, 1, 255] {
                assert!(round_trip(Message::Draw(Draw {
                    position,
                    color,
                    flags: DrawFlags(flags2),
                })));
            }
        }
    }
}

#[test]
fn test_cursor_move() {
    for position in [0u32, 100, u32::MAX] {
        for user_id in [0u8, 1, 255] {
            assert!(round_trip(Message::CursorMove(CursorMove { position, user_id })));
        }
    }
}

#[test]
fn test_fill() {
    for start in [0u32, 9, u32::MAX] {
        for end in [0u32, 10, u32::MAX] {
            for color in [0u8, 255] {
                assert!(round_trip(Message::Fill(Fill { start, end, color })));
            }
        }
    }
}

#[test]
fn test_image() {
    for url in texts() {
        for start in [0u32, u32::MAX] {
            for end in [1u32, u32::MAX] {
                assert!(round_trip(Message::Image(Image { start, end, url: url.as_str() })));
            }
        }
    }
}

#[test]
fn test_text() {
    for text in texts() {
        for center in [0u32, u32::MAX] {
            for text_color in [0u8, 9, 255] {
                assert!(round_trip(Message::Text(Text {
                    center,
                    text: text.as_str(),
                    text_color,
                })));
            }
        }
    }
}

#[test]
fn test_undo() {
    for last_actual_step_id in [0u32, 5, u32::MAX] {
        assert!(round_trip(Message::Undo(Undo { last_actual_step_id })));
    }
}

#[test]
fn test_ping() {
    for timestamp in [0u64, 1, 1_600_000_000_000, u64::MAX] {
        assert!(round_trip(Message::Ping(Ping { timestamp })));
    }
}

#[test]
fn test_user_join() {
    for username in texts() {
        for user_id in [0u8, 1, 255] {
            assert!(round_trip(Message::UserJoin(UserJoin {
                user_id,
                username: username.as_str(),
            })));
        }
    }
}

#[test]
fn test_user_leave() {
    for user_id in [0u8, 1, 128, 255] {
        assert!(round_trip(Message::UserLeave(UserLeave { user_id })));
    }
}

#[test]
fn test_server_message() {
    for message in texts() {
        assert!(round_trip(Message::ServerMessage(ServerMessage { message: message.as_str() })));
    }
}

#[test]
fn test_history() {
    let blobs: Vec<Vec<u8>> = vec![
        vec![],
        vec![0],
        vec![0xff, 0xfe, 0x80, 0x00],
        (0..=255u8).collect(),
        vec![0xab; 65535],
    ];
    for data in blobs {
        assert!(round_trip(Message::History(History { data: data.as_slice() })));
    }
}

#[test]
fn every_variant_has_its_tag_and_layout() {
    assert_eq!(
        to_bytes(&Message::Auth(Auth { jwt_token: "t" })).unwrap(),
        vec![0, 1, 0, b't']
    );
    assert_eq!(
        to_bytes(&Message::Join(Join { name: "alpha" })).unwrap(),
        vec![1, 5, 0, b'a', b'l', b'p', b'h', b'a']
    );
    assert_eq!(
        to_bytes(&Message::Create(Create { template_id: 7, name: "alpha" })).unwrap(),
        vec![2, 7, 0, 0, 0, 0, 0, 0, 0, 5, 0, b'a', b'l', b'p', b'h', b'a']
    );
    assert_eq!(
        to_bytes(&Message::Create(Create { template_id: 0x0102030405060708, name: "" })).unwrap(),
        vec![2, 8, 7, 6, 5, 4, 3, 2, 1, 0, 0]
    );
    let mut configuration = vec![3u8];
    for entry in [1u32, 2, 3, 4, 5, 6, 7, 0x0a0b0c0d] {
        configuration.extend_from_slice(&entry.to_le_bytes());
    }
    configuration.extend_from_slice(&[9, 1, 0x34, 0x12]);
    assert_eq!(
        to_bytes(&Message::BoardConfiguration(BoardConfiguration {
            palette: [1, 2, 3, 4, 5, 6, 7, 0x0a0b0c0d],
            background: 9,
            board_flags: BoardFlags::from_bits_truncate(HISTORY_ENABLED),
            history_size: 0x1234,
        }))
        .unwrap(),
        configuration
    );
    assert_eq!(
        to_bytes(&Message::Step(Step { step_id: 0x01020304 })).unwrap(),
        vec![4, 4, 3, 2, 1]
    );
    assert_eq!(
        to_bytes(&Message::Draw(Draw { position: 100, color: 3, flags: DrawFlags(0) })).unwrap(),
        vec![5, 100, 0, 0, 0, 3, 0]
    );
    assert_eq!(
        to_bytes(&Message::CursorMove(CursorMove { position: 0x100, user_id: 2 })).unwrap(),
        vec![6, 0, 1, 0, 0, 2]
    );
    assert_eq!(
        to_bytes(&Message::Fill(Fill { start: 1, end: 0x10000, color: 4 })).unwrap(),
        vec![7, 1, 0, 0, 0, 0, 0, 1, 0, 4]
    );
    assert_eq!(
        to_bytes(&Message::Image(Image { start: 1, end: 2, url: "u" })).unwrap(),
        vec![8, 1, 0, 0, 0, 2, 0, 0, 0, 1, 0, b'u']
    );
    assert_eq!(
        to_bytes(&Message::Text(Text { center: 5, text: "\u{e9}", text_color: 6 })).unwrap(),
        vec![9, 5, 0, 0, 0, 2, 0, 0xc3, 0xa9, 6]
    );
    assert_eq!(
        to_bytes(&Message::Undo(Undo { last_actual_step_id: u32::MAX })).unwrap(),
        vec![10, 255, 255, 255, 255]
    );
    assert_eq!(
        to_bytes(&Message::Ping(Ping { timestamp: 0x1122334455667788 })).unwrap(),
        vec![11, 0x88, 0x77, 0x66, 0x55, 0x44, 0x33, 0x22, 0x11]
    );
    assert_eq!(
        to_bytes(&Message::UserJoin(UserJoin { user_id: 1, username: "B" })).unwrap(),
        vec![12, 1, 1, 0, b'B']
    );
    assert_eq!(to_bytes(&Message::UserLeave(UserLeave { user_id: 7 })).unwrap(), vec![13, 7]);
    assert_eq!(
        to_bytes(&Message::ServerMessage(ServerMessage { message: "hi" })).unwrap(),
        vec![14, 2, 0, b'h', b'i']
    );
    assert_eq!(
        to_bytes(&Message::History(History { data: &[9, 8, 7] })).unwrap(),
        vec![15, 3, 0, 9, 8, 7]
    );
}

#[test]
fn decoding_reads_the_fields_back() {
    assert_eq!(
        from_bytes(&[9, 5, 0, 0, 0, 2, 0, 0xc3, 0xa9, 6]),
        Ok(Message::Text(Text { center: 5, text: "\u{e9}", text_color: 6 }))
    );
    assert_eq!(
        from_bytes(&[2, 8, 7, 6, 5, 4, 3, 2, 1, 1, 0, b'z']),
        Ok(Message::Create(Create { template_id: 0x0102030405060708, name: "z" }))
    );
    assert_eq!(
        from_bytes(&[5, 100, 0, 0, 0, 3, 0]),
        Ok(Message::Draw(Draw { position: 100, color: 3, flags: DrawFlags(0) }))
    );
    assert_eq!(
        from_bytes(&[15, 2, 0, 0xff, 0xfe]),
        Ok(Message::History(History { data: &[0xff, 0xfe] }))
    );
}

#[test]
fn board_flags_keep_every_bit_on_the_wire() {
    let mut frame = vec![3u8];
    frame.extend_from_slice(&[0u8; 32]);
    frame.extend_from_slice(&[0, 0xf5, 0, 0]);
    match from_bytes(frame.as_slice()).unwrap() {
        Message::BoardConfiguration(configuration) => {
            assert_eq!(configuration.board_flags.bits(), 0xf5);
            assert_eq!(
                to_bytes(&Message::BoardConfiguration(configuration)).unwrap(),
                frame
            );
        }
        other => panic!("unexpected {:?}", other),
    }
}

#[test]
fn bytes_after_the_message_are_ignored() {
    assert_eq!(
        from_bytes(&[13, 7, 1, 2, 3]),
        Ok(Message::UserLeave(UserLeave { user_id: 7 }))
    );
    assert_eq!(
        from_bytes(&[0, 1, 0, b't', 0xff]),
        Ok(Message::Auth(Auth { jwt_token: "t" }))
    );
}

#[test]
fn truncated_frames_are_rejected() {
    let name = "alpha";
    let data = [1u8, 2, 3];
    let messages = vec![
        Message::Auth(Auth { jwt_token: name }),
        Message::Join(Join { name }),
        Message::Create(Create { template_id: 7, name }),
        Message::BoardConfiguration(BoardConfiguration {
            palette: PALETTE_DEFAULT,
            background: 0,
            board_flags: BoardFlags::from_bits_truncate(1),
            history_size: 65535,
        }),
        Message::Step(Step { step_id: 1 }),
        Message::Draw(Draw { position: 100, color: 3, flags: DrawFlags(0) }),
        Message::CursorMove(CursorMove { position: 1, user_id: 2 }),
        Message::Fill(Fill { start: 1, end: 2, color: 3 }),
        Message::Image(Image { start: 1, end: 2, url: name }),
        Message::Text(Text { center: 1, text: name, text_color: 2 }),
        Message::Undo(Undo { last_actual_step_id: 1 }),
        Message::Ping(Ping { timestamp: 1 }),
        Message::UserJoin(UserJoin { user_id: 1, username: name }),
        Message::UserLeave(UserLeave { user_id: 1 }),
        Message::ServerMessage(ServerMessage { message: name }),
        Message::History(History { data: &data }),
    ];
    for message in messages {
        let frame = to_bytes(&message).unwrap();
        for cut in 0..frame.len() {
            assert_eq!(from_bytes(&frame[..cut]), Err(SessionError::Decode));
        }
        assert_eq!(from_bytes(frame.as_slice()), Ok(message));
    }
}

#[test]
fn empty_input_is_rejected() {
    assert_eq!(from_bytes(&[]), Err(SessionError::Decode));
}

#[test]
fn unknown_variant_is_rejected() {
    assert_eq!(from_bytes(&[16u8, 0, 0]), Err(SessionError::Decode));
    assert_eq!(from_bytes(&[255u8, 0, 0]), Err(SessionError::Decode));
}

#[test]
fn string_longer_than_the_input_is_rejected() {
    assert_eq!(from_bytes(&[0, 5, 0, b'a', b'b']), Err(SessionError::Decode));
    assert_eq!(from_bytes(&[1, 0xff, 0xff, b'a']), Err(SessionError::Decode));
    assert_eq!(from_bytes(&[15, 1, 0]), Err(SessionError::Decode));
}

#[test]
fn text_that_is_not_utf8_is_rejected() {
    assert_eq!(from_bytes(&[0, 1, 0, 0xff]), Err(SessionError::Decode));
    assert_eq!(from_bytes(&[1, 2, 0, 0xc3, 0x28]), Err(SessionError::Decode));
    assert_eq!(from_bytes(&[14, 3, 0, 0xed, 0xa0, 0x80]), Err(SessionError::Decode));
    assert_eq!(from_bytes(&[12, 1, 2, 0, 0xc0, 0x80]), Err(SessionError::Decode));
    assert_eq!(from_bytes(&[0, 2, 0, 0xc3, 0xa9]), Ok(Message::Auth(Auth { jwt_token: "\u{e9}" })));
}

#[test]
fn bool_byte_two_is_rejected() {
    let bytes = [2u8];
    let mut deserializer = Deserializer::from_bytes(&bytes);
    assert_eq!(deserializer.read_bool(), Err(SessionError::Decode));
    assert_eq!(deserializer.position(), 0);
    let bytes = [0u8, 1, 2];
    let mut deserializer = Deserializer::from_bytes(&bytes);
    assert_eq!(deserializer.read_bool(), Ok(false));
    assert_eq!(deserializer.deserialize_bool(), Ok(true));
    assert_eq!(deserializer.deserialize_option(), Err(SessionError::Decode));
    assert_eq!(deserializer.position(), 2);
}

#[test]
fn string_of_65535_bytes_encodes_and_one_more_does_not() {
    let longest = "a".repeat(65535);
    let frame = to_bytes(&Message::Auth(Auth { jwt_token: longest.as_str() })).unwrap();
    assert_eq!(frame.len(), 1 + 2 + 65535);
    assert_eq!(&frame[..3], &[0, 0xff, 0xff]);
    let too_long = "a".repeat(65536);
    assert_eq!(
        to_bytes(&Message::Auth(Auth { jwt_token: too_long.as_str() })),
        Err(SessionError::StringTooLong)
    );
    assert_eq!(
        to_bytes(&Message::Text(Text { center: 0, text: too_long.as_str(), text_color: 0 })),
        Err(SessionError::StringTooLong)
    );
    let wide = "\u{20ac}".repeat(21846);
    assert_eq!(
        to_bytes(&Message::Join(Join { name: wide.as_str() })),
        Err(SessionError::StringTooLong)
    );
}

#[test]
fn bytes_of_65535_encode_and_one_more_does_not() {
    let longest = vec![1u8; 65535];
    let frame = to_bytes(&Message::History(History { data: longest.as_slice() })).unwrap();
    assert_eq!(frame.len(), 1 + 2 + 65535);
    let too_long = vec![1u8; 65536];
    assert_eq!(
        to_bytes(&Message::History(History { data: too_long.as_slice() })),
        Err(SessionError::BytesTooLong)
    );
}

#[test]
fn serializer_writes_numbers_low_byte_first() {
    let mut serializer = Serializer::new();
    serializer.serialize_u8(0xab).unwrap();
    serializer.serialize_u16(0x1234).unwrap();
    serializer.serialize_u32(0x89abcdef).unwrap();
    serializer.serialize_u64(0x0123456789abcdef).unwrap();
    assert_eq!(
        serializer.into_bytes(),
        vec![
            0xab, 0x34, 0x12, 0xef, 0xcd, 0xab, 0x89, 0xef, 0xcd, 0xab, 0x89, 0x67, 0x45, 0x23,
            0x01
        ]
    );
}

#[test]
fn serializer_writes_signed_numbers_as_their_bits() {
    let mut serializer = Serializer::new();
    serializer.serialize_i8(-1).unwrap();
    serializer.serialize_i8(i8::MIN).unwrap();
    serializer.serialize_i8(5).unwrap();
    serializer.serialize_i16(-2).unwrap();
    serializer.serialize_i32(i32::MIN).unwrap();
    serializer.serialize_i64(-1).unwrap();
    serializer.serialize_i64(i64::MAX).unwrap();
    assert_eq!(
        serializer.into_bytes(),
        vec![
            0xff, 0x80, 5, 0xfe, 0xff, 0, 0, 0, 0x80, 0xff, 0xff, 0xff, 0xff, 0xff, 0xff, 0xff,
            0xff, 0xff, 0xff, 0xff, 0xff, 0xff, 0xff, 0xff, 0x7f
        ]
    );
}

#[test]
fn serializer_writes_bool_char_option_and_unit() {
    let mut serializer = Serializer::new();
    serializer.serialize_bool(true).unwrap();
    serializer.serialize_bool(false).unwrap();
    serializer.serialize_char('A').unwrap();
    serializer.serialize_char('\u{10ffff}').unwrap();
    serializer.serialize_none().unwrap();
    serializer.serialize_some().unwrap();
    serializer.serialize_unit().unwrap();
    serializer.serialize_unit_struct("Unit").unwrap();
    serializer.serialize_tuple(3).unwrap();
    serializer.serialize_tuple_struct("Pair", 2).unwrap();
    serializer.serialize_struct("Point", 2).unwrap();
    assert_eq!(
        serializer.into_bytes(),
        vec![1, 0, 0x41, 0, 0, 0, 0xff, 0xff, 0x10, 0, 0, 1]
    );
}

#[test]
fn serializer_writes_text_bytes_and_heads() {
    let mut serializer = Serializer::new();
    serializer.serialize_str("\u{e9}").unwrap();
    serializer.serialize_bytes(&[7, 8]).unwrap();
    serializer.serialize_seq(Some(3)).unwrap();
    serializer.serialize_seq(Some(65535)).unwrap();
    serializer.serialize_unit_variant("E", 2, "C").unwrap();
    serializer.serialize_newtype_variant("E", 255, "Z").unwrap();
    serializer.serialize_tuple_variant("E", 1, "B", 2).unwrap();
    serializer.serialize_struct_variant("E", 0, "A", 1).unwrap();
    serializer.serialize_palette(&[1, 2, 3, 4, 5, 6, 7, 8]).unwrap();
    let mut expected = vec![2, 0, 0xc3, 0xa9, 2, 0, 7, 8, 3, 0, 0xff, 0xff, 2, 255, 1, 0];
    for entry in 1u32..=8 {
        expected.extend_from_slice(&entry.to_le_bytes());
    }
    assert_eq!(serializer.into_bytes(), expected);
}

#[test]
fn serializer_refuses_what_has_no_layout() {
    let mut serializer = Serializer::new();
    assert_eq!(serializer.serialize_seq(None), Err(SessionError::SeqLengthUnknown));
    assert_eq!(serializer.serialize_seq(Some(65536)), Err(SessionError::SeqTooLong));
    assert_eq!(
        serializer.serialize_unit_variant("E", 256, "X"),
        Err(SessionError::VariantIndexTooLarge)
    );
    assert_eq!(
        serializer.serialize_newtype_variant("E", 256, "X"),
        Err(SessionError::VariantIndexTooLarge)
    );
    assert_eq!(
        serializer.serialize_tuple_variant("E", u32::MAX, "X", 1),
        Err(SessionError::VariantIndexTooLarge)
    );
    assert_eq!(
        serializer.serialize_struct_variant("E", 1000, "X", 1),
        Err(SessionError::VariantIndexTooLarge)
    );
    assert_eq!(serializer.serialize_map(Some(1)), Err(SessionError::Unsupported));
    assert_eq!(serializer.collect_str(), Err(SessionError::Unsupported));
    let too_long = "a".repeat(65536);
    assert_eq!(serializer.serialize_str(too_long.as_str()), Err(SessionError::StringTooLong));
    assert_eq!(
        serializer.serialize_bytes(too_long.as_bytes()),
        Err(SessionError::BytesTooLong)
    );
    assert_eq!(serializer.into_bytes(), Vec::<u8>::new());
}

#[test]
fn deserializer_reads_numbers_low_byte_first() {
    let bytes = [
        0xab, 0x34, 0x12, 0xef, 0xcd, 0xab, 0x89, 0xef, 0xcd, 0xab, 0x89, 0x67, 0x45, 0x23, 0x01,
    ];
    let mut deserializer = Deserializer::from_bytes(&bytes);
    assert_eq!(deserializer.read_u8(), Ok(0xab));
    assert_eq!(deserializer.read_u16(), Ok(0x1234));
    assert_eq!(deserializer.read_u32(), Ok(0x89abcdef));
    assert_eq!(deserializer.read_u64(), Ok(0x0123456789abcdef));
    assert_eq!(deserializer.position(), 15);
    assert_eq!(deserializer.read_u8(), Err(SessionError::Decode));
    let mut deserializer = Deserializer::from_bytes(&bytes);
    assert_eq!(deserializer.deserialize_u8(), Ok(0xab));
    assert_eq!(deserializer.deserialize_u16(), Ok(0x1234));
    assert_eq!(deserializer.deserialize_u32(), Ok(0x89abcdef));
    assert_eq!(deserializer.deserialize_u64(), Ok(0x0123456789abcdef));
}

#[test]
fn deserializer_reads_signed_numbers_from_their_bits() {
    let bytes = [
        0xff, 0x80, 5, 0xfe, 0xff, 0, 0, 0, 0x80, 0xff, 0xff, 0xff, 0xff, 0xff, 0xff, 0xff, 0xff,
    ];
    let mut deserializer = Deserializer::from_bytes(&bytes);
    assert_eq!(deserializer.deserialize_i8(), Ok(-1));
    assert_eq!(deserializer.deserialize_i8(), Ok(i8::MIN));
    assert_eq!(deserializer.deserialize_i8(), Ok(5));
    assert_eq!(deserializer.deserialize_i16(), Ok(-2));
    assert_eq!(deserializer.deserialize_i32(), Ok(i32::MIN));
    assert_eq!(deserializer.deserialize_i64(), Ok(-1));
    assert_eq!(deserializer.deserialize_i64(), Err(SessionError::Decode));
}

#[test]
fn deserializer_leaves_the_cursor_where_a_read_fails() {
    let bytes = [1u8, 2, 3];
    let mut deserializer = Deserializer::from_bytes(&bytes);
    assert_eq!(deserializer.read_u32(), Err(SessionError::Decode));
    assert_eq!(deserializer.read_u64(), Err(SessionError::Decode));
    assert_eq!(deserializer.read_bytes(4).map(|b| b.to_vec()), Err(SessionError::Decode));
    assert_eq!(deserializer.position(), 0);
    assert_eq!(deserializer.read_bytes(2).map(|b| b.to_vec()), Ok(vec![1, 2]));
    assert_eq!(deserializer.read_u16(), Err(SessionError::Decode));
    assert_eq!(deserializer.position(), 2);
    assert_eq!(deserializer.read_bytes(0).map(|b| b.to_vec()), Ok(vec![]));
    assert_eq!(deserializer.read_u8(), Ok(3));
    assert_eq!(deserializer.read_bytes(usize::MAX).map(|b| b.to_vec()), Err(SessionError::Decode));
}

#[test]
fn deserializer_reads_characters_and_refuses_surrogates() {
    let bytes = [0x41, 0, 0, 0, 0xff, 0xff, 0x10, 0, 0, 0xd8, 0, 0, 0, 0, 0x11, 0];
    let mut deserializer = Deserializer::from_bytes(&bytes);
    assert_eq!(deserializer.deserialize_char(), Ok('A'));
    assert_eq!(deserializer.deserialize_char(), Ok('\u{10ffff}'));
    assert_eq!(deserializer.deserialize_char(), Err(SessionError::Decode));
    assert_eq!(deserializer.position(), 8);
    assert_eq!(deserializer.read_u32(), Ok(0xd800));
    assert_eq!(deserializer.deserialize_char(), Err(SessionError::Decode));
    assert_eq!(deserializer.position(), 12);
}

#[test]
fn deserializer_reads_text_and_bytes() {
    let bytes = [2, 0, 0xc3, 0xa9, 2, 0, 7, 8, 1, 0, b'x', 1, 0, 0xff, 3, 0, b'a'];
    let mut deserializer = Deserializer::from_bytes(&bytes);
    assert_eq!(deserializer.deserialize_str(), Ok("\u{e9}"));
    assert_eq!(deserializer.deserialize_bytes().map(|b| b.to_vec()), Ok(vec![7, 8]));
    assert_eq!(deserializer.deserialize_string(), Ok("x".to_string()));
    assert_eq!(deserializer.deserialize_str(), Err(SessionError::Decode));
    assert_eq!(deserializer.deserialize_string(), Err(SessionError::Decode));
    assert_eq!(deserializer.position(), 11);
    assert_eq!(deserializer.deserialize_byte_buf(), Ok(vec![0xff]));
    assert_eq!(deserializer.deserialize_bytes().map(|b| b.to_vec()), Err(SessionError::Decode));
    assert_eq!(deserializer.deserialize_byte_buf(), Err(SessionError::Decode));
    assert_eq!(deserializer.position(), 14);
}

#[test]
fn deserializer_reads_heads_and_refuses_what_has_no_layout() {
    let bytes = [3, 0, 9, 1, 2, 3, 4, 5, 6, 7, 8];
    let mut deserializer = Deserializer::from_bytes(&bytes);
    assert_eq!(deserializer.deserialize_seq(), Ok(3));
    assert_eq!(deserializer.deserialize_identifier(), Ok(9));
    assert_eq!(deserializer.deserialize_unit(), Ok(()));
    assert_eq!(deserializer.deserialize_any(), Err(SessionError::Unsupported));
    assert_eq!(deserializer.deserialize_map(), Err(SessionError::Unsupported));
    assert_eq!(deserializer.deserialize_ignored_any(), Err(SessionError::Unsupported));
    assert_eq!(deserializer.deserialize_palette(), Err(SessionError::Decode));
    assert_eq!(deserializer.position(), 3);
    let mut words = Vec::new();
    for entry in [1u32, 2, 3, 4, 5, 6, 7, 0xffffffff] {
        words.extend_from_slice(&entry.to_le_bytes());
    }
    let mut deserializer = Deserializer::from_bytes(words.as_slice());
    assert_eq!(deserializer.deserialize_palette(), Ok([1, 2, 3, 4, 5, 6, 7, 0xffffffff]));
    assert_eq!(deserializer.position(), 32);
}

#[test]
fn struct_deserializers_rewind_on_failure() {
    let bytes = [1u8, 0, 0, 0, 2, 0, 0, 0];
    let mut deserializer = Deserializer::from_bytes(&bytes);
    assert_eq!(Fill::deserialize(&mut deserializer), Err(SessionError::Decode));
    assert_eq!(deserializer.position(), 0);
    assert_eq!(Step::deserialize(&mut deserializer), Ok(Step { step_id: 1 }));
    assert_eq!(deserializer.position(), 4);
    let cut = [7u8, 1, 0, 0, 0, 2, 0, 0, 0];
    let mut deserializer = Deserializer::from_bytes(&cut);
    assert_eq!(Message::deserialize(&mut deserializer), Err(SessionError::Decode));
    assert_eq!(deserializer.position(), 0);
    let frame = [13u8, 7, 13, 9];
    let mut deserializer = Deserializer::from_bytes(&frame);
    assert_eq!(
        Message::deserialize(&mut deserializer),
        Ok(Message::UserLeave(UserLeave { user_id: 7 }))
    );
    assert_eq!(
        Message::deserialize(&mut deserializer),
        Ok(Message::UserLeave(UserLeave { user_id: 9 }))
    );
    assert_eq!(Message::deserialize(&mut deserializer), Err(SessionError::Decode));
}

#[test]
fn struct_serializers_write_the_payload_without_a_tag() {
    let mut serializer = Serializer::new();
    Draw { position: 100, color: 3, flags: DrawFlags(1) }.serialize(&mut serializer).unwrap();
    UserJoin { user_id: 2, username: "B" }.serialize(&mut serializer).unwrap();
    assert_eq!(serializer.into_bytes(), vec![100, 0, 0, 0, 3, 1, 2, 1, 0, b'B']);
}

#[test]
fn color_packs_blue_green_red() {
    assert_eq!(color(0, 0, 0), 0);
    assert_eq!(color(255, 0, 0), 0x0000ff);
    assert_eq!(color(0, 255, 0), 0x00ff00);
    assert_eq!(color(0, 0, 255), 0xff0000);
    assert_eq!(color(1, 2, 3), 0x030201);
    assert_eq!(color(255, 255, 255), 0xffffff);
}

#[test]
fn default_palette_is_the_eight_primary_colours() {
    assert_eq!(
        PALETTE_DEFAULT,
        [
            color(0, 0, 0),
            color(255, 0, 0),
            color(0, 255, 0),
            color(0, 0, 255),
            color(255, 255, 0),
            color(0, 255, 255),
            color(255, 0, 255),
            color(255, 255, 255)
        ]
    );
}

#[test]
fn board_flags_behave_as_bit_sets() {
    assert_eq!(HISTORY_ENABLED, 1);
    assert_eq!(HISTORY_TRIMMED, 2);
    assert_eq!(BoardFlags::empty().bits(), 0);
    assert_eq!(BoardFlags::from_bits_truncate(0xff).bits(), 3);
    assert_eq!(BoardFlags::from_bits_retain(0xff).bits(), 0xff);
    let mut flags = BoardFlags::from_bits_truncate(HISTORY_ENABLED);
    assert!(flags.contains(HISTORY_ENABLED));
    assert!(!flags.contains(HISTORY_TRIMMED));
    flags.insert(HISTORY_TRIMMED);
    assert!(flags.contains(HISTORY_TRIMMED));
    assert!(flags.contains(HISTORY_ENABLED | HISTORY_TRIMMED));
    assert_eq!(flags.bits(), 3);
}

#[test]
fn errors_have_their_words() {
    assert_eq!(SessionError::StringTooLong.message(), "string longer than allowed");
    assert_eq!(SessionError::BytesTooLong.message(), "bytes longer than allowed");
    assert_eq!(SessionError::SeqTooLong.message(), "seq longer than allowed");
    assert_eq!(SessionError::SeqLengthUnknown.message(), "seq of unknown len is not supported");
    assert_eq!(
        SessionError::VariantIndexTooLarge.message(),
        "variant index is greater than allowed"
    );
    assert_eq!(SessionError::Unsupported.message(), "not supported");
    assert_eq!(SessionError::Decode.message(), "invalid message");
    assert_eq!(SessionError::Unauthenticated.message(), "user not authenticated");
    assert_eq!(SessionError::SendFailed.message(), "cannot send");
    assert_eq!(SessionError::Internal.message(), "internal");
}
