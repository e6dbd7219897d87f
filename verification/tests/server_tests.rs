use chat_protocol::server::{u64_dec_string, ServerState};
use chat_protocol::{AuthError, Event, Method, MethodResult, Request, RequestError};

fn sign_up(state: &mut ServerState, id: u32, login: &str, password: &str) -> chat_protocol::RequestResult {
    let (result, event) = state.handle(
        Request {
            request_id: id,
            method: Method::SignUp {
                login: String::from(login),
                password: String::from(password),
            },
            session_token: None,
        },
        0,
    );
    assert!(event.is_none());
    result
}

fn log_in(state: &mut ServerState, id: u32, login: &str, password: &str) -> chat_protocol::RequestResult {
    let (result, event) = state.handle(
        Request {
            request_id: id,
            method: Method::LogIn {
                login: String::from(login),
                password: String::from(password),
            },
            session_token: None,
        },
        0,
    );
    assert!(event.is_none());
    result
}

#[test]
fn sign_up_twice_fails_with_already_signed_up() {
    let mut state = ServerState::new();
    let first = sign_up(&mut state, 1, "alice", "p1");
    assert!(matches!(first.result, Ok(MethodResult::SignUp)));
    let second = sign_up(&mut state, 2, "alice", "p1");
    assert!(matches!(
        second.result,
        Err(RequestError::Auth(AuthError::AlreadySignedUp))
    ));
}

#[test]
fn log_in_unregistered_fails_with_incorrect_credentials() {
    let mut state = ServerState::new();
    let r = log_in(&mut state, 5, "bob", "whatever");
    assert!(matches!(
        r.result,
        Err(RequestError::Auth(AuthError::IncorrectCredentials))
    ));
}

#[test]
fn log_in_wrong_password_fails_with_incorrect_credentials() {
    let mut state = ServerState::new();
    sign_up(&mut state, 1, "alice", "p1");
    let r = log_in(&mut state, 2, "alice", "p2");
    assert!(matches!(
        r.result,
        Err(RequestError::Auth(AuthError::IncorrectCredentials))
    ));
}

#[test]
fn log_in_issues_fresh_decimal_tokens() {
    let mut state = ServerState::new();
    sign_up(&mut state, 1, "alice", "p1");
    let first = log_in(&mut state, 2, "alice", "p1");
    match first.result {
        Ok(MethodResult::LogIn { session_token }) => assert_eq!(session_token, "0"),
        _ => panic!("expected a session token"),
    }
    let second = log_in(&mut state, 3, "alice", "p1");
    match second.result {
        Ok(MethodResult::LogIn { session_token }) => assert_eq!(session_token, "1"),
        _ => panic!("expected a session token"),
    }
}

#[test]
fn send_then_fetch_returns_exactly_one_ordered_message() {
    let mut state = ServerState::new();
    sign_up(&mut state, 1, "alice", "p1");
    sign_up(&mut state, 2, "carol", "p2");
    let token = match log_in(&mut state, 3, "alice", "p1").result {
        Ok(MethodResult::LogIn { session_token }) => session_token,
        _ => panic!("login failed"),
    };

    let (send, event) = state.handle(
        Request {
            request_id: 4,
            method: Method::SendPrivateMessage {
                message: String::from("hello carol"),
                receiver_id: 1,
            },
            session_token: Some(token.clone()),
        },
        1_600_000_000,
    );
    assert_eq!(send.request_id, 4);
    assert!(matches!(send.result, Ok(MethodResult::SendPrivateMessage)));
    match event {
        Some(Event::NewPrivateMessage(m)) => {
            assert_eq!(m.text, "hello carol");
            assert_eq!(m.sender_id, 0);
            assert_eq!(m.receiver_id, 1);
            assert_eq!(m.epoch_seconds(), 1_600_000_000);
        },
        _ => panic!("the send must push a new-private-message event"),
    }

    let (fetch, event) = state.handle(
        Request {
            request_id: 5,
            method: Method::GetPrivateChatMessages { second_user_id: 1 },
            session_token: Some(token),
        },
        1_600_000_001,
    );
    assert!(event.is_none());
    match fetch.result {
        Ok(MethodResult::GetPrivateChatMessages { messages }) => {
            assert_eq!(messages.len(), 1);
            assert_eq!(messages[0].text, "hello carol");
            assert_eq!(messages[0].sender_id, 0);
            assert_eq!(messages[0].receiver_id, 1);
            // a one-message history is trivially in non-decreasing order
            for w in messages.windows(2) {
                assert!(w[0].epoch_seconds() <= w[1].epoch_seconds());
            }
        },
        _ => panic!("expected the conversation"),
    }
}

#[test]
fn fetch_without_token_fails_with_incorrect_session_token_and_no_data() {
    let mut state = ServerState::new();
    sign_up(&mut state, 1, "alice", "p1");
    let (fetch, event) = state.handle(
        Request {
            request_id: 9,
            method: Method::GetPrivateChatMessages { second_user_id: 0 },
            session_token: None,
        },
        0,
    );
    assert_eq!(fetch.request_id, 9);
    assert!(event.is_none());
    assert!(matches!(
        fetch.result,
        Err(RequestError::Auth(AuthError::IncorrectSessionToken))
    ));
}

#[test]
fn every_authenticated_method_rejects_a_stale_token() {
    // an invalid (never issued) token must fail exactly like a missing one
    let methods = vec![
        Method::SendPrivateMessage { message: String::from("x"), receiver_id: 0 },
        Method::GetPrivateChatMessages { second_user_id: 0 },
        Method::GetUsers,
        Method::GetAvailableChats,
    ];
    let mut id: u32 = 1;
    for method in methods {
        let mut state = ServerState::new();
        let (r, event) = state.handle(
            Request {
                request_id: id,
                method,
                session_token: Some(String::from("999")),
            },
            0,
        );
        assert_eq!(r.request_id, id);
        assert!(event.is_none());
        assert!(matches!(
            r.result,
            Err(RequestError::Auth(AuthError::IncorrectSessionToken))
        ));
        id += 1;
    }
}

#[test]
fn get_users_lists_the_directory_in_registration_order() {
    let mut state = ServerState::new();
    sign_up(&mut state, 1, "alice", "p1");
    sign_up(&mut state, 2, "carol", "p2");
    let token = match log_in(&mut state, 3, "carol", "p2").result {
        Ok(MethodResult::LogIn { session_token }) => session_token,
        _ => panic!("login failed"),
    };
    let (r, _) = state.handle(
        Request { request_id: 4, method: Method::GetUsers, session_token: Some(token) },
        0,
    );
    match r.result {
        Ok(MethodResult::GetUsers { users }) => {
            assert_eq!(users.len(), 2);
            assert_eq!(users[0].id, 0);
            assert_eq!(users[0].login, "alice");
            assert_eq!(users[1].id, 1);
            assert_eq!(users[1].login, "carol");
        },
        _ => panic!("expected the directory"),
    }
}

#[test]
fn available_chats_lists_counterparties_once_in_first_contact_order() {
    let mut state = ServerState::new();
    sign_up(&mut state, 1, "alice", "p1");
    sign_up(&mut state, 2, "bob", "p2");
    sign_up(&mut state, 3, "carol", "p3");
    let token = match log_in(&mut state, 4, "alice", "p1").result {
        Ok(MethodResult::LogIn { session_token }) => session_token,
        _ => panic!("login failed"),
    };
    for (i, receiver) in [2, 1, 2].iter().enumerate() {
        let (r, _) = state.handle(
            Request {
                request_id: 5 + i as u32,
                method: Method::SendPrivateMessage {
                    message: String::from("hi"),
                    receiver_id: *receiver,
                },
                session_token: Some(token.clone()),
            },
            10 + i as i64,
        );
        assert!(matches!(r.result, Ok(MethodResult::SendPrivateMessage)));
    }
    let (r, _) = state.handle(
        Request { request_id: 9, method: Method::GetAvailableChats, session_token: Some(token) },
        0,
    );
    match r.result {
        Ok(MethodResult::GetAvailableChats { chats }) => {
            assert_eq!(chats, vec![2, 1]);
        },
        _ => panic!("expected the chat list"),
    }
}

#[test]
fn result_carries_the_request_id_of_its_request() {
    let mut state = ServerState::new();
    let (r, _) = state.handle(
        Request {
            request_id: 0xCAFE_F00D,
            method: Method::SignUp { login: String::from("a"), password: String::from("b") },
            session_token: None,
        },
        0,
    );
    assert_eq!(r.request_id, 0xCAFE_F00D);
}

#[test]
fn decimal_tokens_render_exactly() {
    assert_eq!(u64_dec_string(0), "0");
    assert_eq!(u64_dec_string(7), "7");
    assert_eq!(u64_dec_string(10), "10");
    assert_eq!(u64_dec_string(1234567890), "1234567890");
    assert_eq!(u64_dec_string(u64::MAX), "18446744073709551615");
}
