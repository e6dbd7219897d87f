use chat_protocol::codec::{
    decode_method, decode_request, decode_server_message, encode_method, encode_request,
    encode_server_message, ServerMessage,
};
use chat_protocol::{
    AuthError, ChatMessage, Event, Method, MethodResult, PrivateMessage, Request, RequestError,
    RequestResult, User,
};

#[test]
fn method_round_trip_sign_up() {
    let m = Method::SignUp { login: String::from("alice"), password: String::from("p1") };
    let bytes = encode_method(&m);
    let back = decode_method(&bytes).expect("decode");
    match back {
        Method::SignUp { login, password } => {
            assert_eq!(login, "alice");
            assert_eq!(password, "p1");
        },
        _ => panic!("wrong variant"),
    }
}

#[test]
fn method_round_trip_log_in() {
    let m = Method::LogIn { login: String::from("bob"), password: String::from("s3cret") };
    let bytes = encode_method(&m);
    match decode_method(&bytes).expect("decode") {
        Method::LogIn { login, password } => {
            assert_eq!(login, "bob");
            assert_eq!(password, "s3cret");
        },
        _ => panic!("wrong variant"),
    }
}

#[test]
fn method_round_trip_send_private_message() {
    let m = Method::SendPrivateMessage {
        message: String::from("hello there, carol! ☃"),
        receiver_id: -7,
    };
    let bytes = encode_method(&m);
    match decode_method(&bytes).expect("decode") {
        Method::SendPrivateMessage { message, receiver_id } => {
            assert_eq!(message, "hello there, carol! ☃");
            assert_eq!(receiver_id, -7);
        },
        _ => panic!("wrong variant"),
    }
}

#[test]
fn method_round_trip_remaining_variants() {
    let m = Method::GetPrivateChatMessages { second_user_id: i32::MIN };
    match decode_method(&encode_method(&m)).expect("decode") {
        Method::GetPrivateChatMessages { second_user_id } => {
            assert_eq!(second_user_id, i32::MIN);
        },
        _ => panic!("wrong variant"),
    }
    assert!(matches!(
        decode_method(&encode_method(&Method::GetUsers)),
        Some(Method::GetUsers)
    ));
    assert!(matches!(
        decode_method(&encode_method(&Method::GetAvailableChats)),
        Some(Method::GetAvailableChats)
    ));
}

#[test]
fn method_round_trip_empty_strings() {
    let m = Method::SignUp { login: String::new(), password: String::new() };
    match decode_method(&encode_method(&m)).expect("decode") {
        Method::SignUp { login, password } => {
            assert_eq!(login, "");
            assert_eq!(password, "");
        },
        _ => panic!("wrong variant"),
    }
}

#[test]
fn method_encoding_exact_bytes() {
    // one tag byte
    assert_eq!(encode_method(&Method::GetUsers), vec![4u8]);
    // tag, then the id as little-endian two's complement
    let m = Method::GetPrivateChatMessages { second_user_id: 5 };
    assert_eq!(encode_method(&m), vec![3u8, 5, 0, 0, 0]);
    let m = Method::GetPrivateChatMessages { second_user_id: -1 };
    assert_eq!(encode_method(&m), vec![3u8, 0xFF, 0xFF, 0xFF, 0xFF]);
}

#[test]
fn string_encoding_exact_bytes() {
    // tag 0, char count as u64, then each code point as u32, both little-endian
    let m = Method::SignUp { login: String::from("A"), password: String::new() };
    assert_eq!(
        encode_method(&m),
        vec![0u8, 1, 0, 0, 0, 0, 0, 0, 0, 0x41, 0, 0, 0, 0, 0, 0, 0, 0, 0, 0, 0]
    );
}

#[test]
fn decode_rejects_empty_truncated_and_padded_buffers() {
    assert!(decode_method(&[]).is_none());
    let bytes = encode_method(&Method::SignUp {
        login: String::from("alice"),
        password: String::from("p1"),
    });
    assert!(decode_method(&bytes[..bytes.len() - 1]).is_none());
    let mut padded = bytes.clone();
    padded.push(0);
    assert!(decode_method(&padded).is_none());
    // an unknown method tag
    assert!(decode_method(&[9u8]).is_none());
}

#[test]
fn decode_rejects_surrogate_code_points() {
    // a one-character login whose code point is patched to a surrogate:
    // char::from_u32 refuses it, so the decoder must too
    let m = Method::SignUp { login: String::from("A"), password: String::new() };
    let mut bytes = encode_method(&m);
    // the code point sits after the tag byte and the 8-byte length
    bytes[9] = 0x00;
    bytes[10] = 0xD8;
    bytes[11] = 0x00;
    bytes[12] = 0x00;
    assert!(decode_method(&bytes).is_none());
}

#[test]
fn request_round_trip_with_and_without_token() {
    let r = Request {
        request_id: 0xDEAD_BEEF,
        method: Method::GetUsers,
        session_token: Some(String::from("17")),
    };
    let back = decode_request(&encode_request(&r)).expect("decode");
    assert_eq!(back.request_id, 0xDEAD_BEEF);
    assert!(matches!(back.method, Method::GetUsers));
    assert_eq!(back.session_token.as_deref(), Some("17"));

    let r = Request { request_id: 0, method: Method::GetAvailableChats, session_token: None };
    let back = decode_request(&encode_request(&r)).expect("decode");
    assert_eq!(back.request_id, 0);
    assert!(back.session_token.is_none());
}

#[test]
fn server_message_round_trip_response() {
    let rr = RequestResult {
        request_id: 7,
        result: Ok(MethodResult::GetUsers {
            users: vec![
                User { id: 0, login: String::from("alice") },
                User { id: 1, login: String::from("carol") },
            ],
        }),
    };
    let bytes = encode_server_message(&ServerMessage::Response(rr));
    match decode_server_message(&bytes).expect("decode") {
        ServerMessage::Response(back) => {
            assert_eq!(back.request_id, 7);
            match back.result {
                Ok(MethodResult::GetUsers { users }) => {
                    assert_eq!(users.len(), 2);
                    assert_eq!(users[0].id, 0);
                    assert_eq!(users[0].login, "alice");
                    assert_eq!(users[1].id, 1);
                    assert_eq!(users[1].login, "carol");
                },
                _ => panic!("wrong payload"),
            }
        },
        ServerMessage::Push(_) => panic!("demultiplexed as an event"),
    }
}

#[test]
fn server_message_round_trip_error_response() {
    let rr = RequestResult {
        request_id: 3,
        result: Err(RequestError::Auth(AuthError::IncorrectCredentials)),
    };
    let bytes = encode_server_message(&ServerMessage::Response(rr));
    match decode_server_message(&bytes).expect("decode") {
        ServerMessage::Response(back) => {
            assert_eq!(back.request_id, 3);
            assert!(matches!(
                back.result,
                Err(RequestError::Auth(AuthError::IncorrectCredentials))
            ));
        },
        ServerMessage::Push(_) => panic!("demultiplexed as an event"),
    }
}

#[test]
fn server_message_round_trip_events() {
    let pm = PrivateMessage::with_epoch(String::from("hi"), 0, 1, 1_600_000_000);
    let bytes = encode_server_message(&ServerMessage::Push(Event::NewPrivateMessage(pm)));
    match decode_server_message(&bytes).expect("decode") {
        ServerMessage::Push(Event::NewPrivateMessage(m)) => {
            assert_eq!(m.text, "hi");
            assert_eq!(m.sender_id, 0);
            assert_eq!(m.receiver_id, 1);
            assert_eq!(m.epoch_seconds(), 1_600_000_000);
        },
        _ => panic!("wrong payload"),
    }

    let cm = ChatMessage::with_epoch(String::from("all"), 2, 9, -5);
    let bytes = encode_server_message(&ServerMessage::Push(Event::NewChatMessage(cm)));
    match decode_server_message(&bytes).expect("decode") {
        ServerMessage::Push(Event::NewChatMessage(m)) => {
            assert_eq!(m.text, "all");
            assert_eq!(m.sender_id, 2);
            assert_eq!(m.chat_id, 9);
            assert_eq!(m.epoch_seconds(), -5);
        },
        _ => panic!("wrong payload"),
    }
}

#[test]
fn acknowledgment_and_token_results_round_trip() {
    for (id, result) in [
        (1u32, Ok(MethodResult::SignUp)),
        (2, Ok(MethodResult::LogIn { session_token: String::from("0") })),
        (3, Ok(MethodResult::SendPrivateMessage)),
        (4, Ok(MethodResult::GetAvailableChats { chats: vec![5, -5] })),
    ] {
        let bytes = encode_server_message(&ServerMessage::Response(RequestResult {
            request_id: id,
            result,
        }));
        match decode_server_message(&bytes).expect("decode") {
            ServerMessage::Response(back) => {
                assert_eq!(back.request_id, id);
                match (id, back.result) {
                    (1, Ok(MethodResult::SignUp)) => {},
                    (2, Ok(MethodResult::LogIn { session_token })) => {
                        assert_eq!(session_token, "0");
                    },
                    (3, Ok(MethodResult::SendPrivateMessage)) => {},
                    (4, Ok(MethodResult::GetAvailableChats { chats })) => {
                        assert_eq!(chats, vec![5, -5]);
                    },
                    _ => panic!("wrong payload"),
                }
            },
            ServerMessage::Push(_) => panic!("demultiplexed as an event"),
        }
    }
}

#[test]
fn messages_round_trip_the_full_result_payload() {
    let rr = RequestResult {
        request_id: 12,
        result: Ok(MethodResult::GetPrivateChatMessages {
            messages: vec![
                PrivateMessage::with_epoch(String::from("first"), 0, 1, 10),
                PrivateMessage::with_epoch(String::from("second"), 1, 0, 11),
            ],
        }),
    };
    let bytes = encode_server_message(&ServerMessage::Response(rr));
    match decode_server_message(&bytes).expect("decode") {
        ServerMessage::Response(back) => match back.result {
            Ok(MethodResult::GetPrivateChatMessages { messages }) => {
                assert_eq!(messages.len(), 2);
                assert_eq!(messages[0].text, "first");
                assert_eq!(messages[0].epoch_seconds(), 10);
                assert_eq!(messages[1].text, "second");
                assert_eq!(messages[1].epoch_seconds(), 11);
            },
            _ => panic!("wrong payload"),
        },
        ServerMessage::Push(_) => panic!("demultiplexed as an event"),
    }
}
