use chat_protocol::{AuthError, ChatMessage, PrivateMessage, RequestError};
use chrono::DateTime;

#[test]
fn auth_error_messages_are_the_fixed_strings() {
    assert_eq!(AuthError::AlreadySignedUp.message(), "already signed up");
    assert_eq!(AuthError::IncorrectCredentials.message(), "incorrect login or password");
    assert_eq!(AuthError::IncorrectSessionToken.message(), "incorrect session token");
}

#[test]
fn request_error_message_prefixes_the_category() {
    assert_eq!(
        RequestError::Auth(AuthError::IncorrectCredentials).message(),
        "RequestError: authentication error: incorrect login or password"
    );
    assert_eq!(
        RequestError::Auth(AuthError::AlreadySignedUp).message(),
        "RequestError: authentication error: already signed up"
    );
    assert_eq!(
        RequestError::Auth(AuthError::IncorrectSessionToken).message(),
        "RequestError: authentication error: incorrect session token"
    );
}

#[test]
fn private_message_timestamp_round_trips_whole_seconds() {
    let dt = DateTime::from_timestamp(1_600_000_000, 0).unwrap().naive_utc();
    let m = PrivateMessage::new(String::from("hi"), dt, 1, 2);
    assert_eq!(m.text, "hi");
    assert_eq!(m.sender_id, 1);
    assert_eq!(m.receiver_id, 2);
    assert_eq!(m.epoch_seconds(), 1_600_000_000);
    assert_eq!(m.timestamp(), dt);
}

#[test]
fn private_message_timestamp_round_trips_negative_seconds() {
    // before the epoch, still whole-second exact
    let dt = DateTime::from_timestamp(-1_000_000, 0).unwrap().naive_utc();
    let m = PrivateMessage::new(String::from("old"), dt, 3, 4);
    assert_eq!(m.epoch_seconds(), -1_000_000);
    assert_eq!(m.timestamp(), dt);
}

#[test]
fn private_message_drops_subsecond_precision() {
    // a deliberate precision ceiling: nanoseconds are not kept
    let dt = DateTime::from_timestamp(42, 999_999_999).unwrap().naive_utc();
    let m = PrivateMessage::new(String::from("x"), dt, 0, 0);
    assert_eq!(m.epoch_seconds(), 42);
    let recovered = m.timestamp();
    assert_eq!(recovered, DateTime::from_timestamp(42, 0).unwrap().naive_utc());
}

#[test]
fn epoch_constructor_agrees_with_calendar_constructor() {
    let secs: i64 = 123_456_789;
    let dt = DateTime::from_timestamp(secs, 0).unwrap().naive_utc();
    let a = PrivateMessage::new(String::from("m"), dt, 5, 6);
    let b = PrivateMessage::with_epoch(String::from("m"), 5, 6, secs);
    assert_eq!(a.epoch_seconds(), b.epoch_seconds());
    assert_eq!(a.timestamp(), b.timestamp());
}

#[test]
fn chat_message_timestamp_round_trips() {
    let dt = DateTime::from_timestamp(77, 0).unwrap().naive_utc();
    let m = ChatMessage::new(String::from("room"), dt, 8, 9);
    assert_eq!(m.text, "room");
    assert_eq!(m.sender_id, 8);
    assert_eq!(m.chat_id, 9);
    assert_eq!(m.epoch_seconds(), 77);
    assert_eq!(m.timestamp(), dt);

    let m2 = ChatMessage::with_epoch(String::from("room"), 8, 9, 77);
    assert_eq!(m2.timestamp(), dt);
}

#[test]
fn timestamps_far_from_the_epoch_still_round_trip() {
    for secs in [i64::from(i32::MIN) * 2, 0, 1, -1, 8_000_000_000_000, -8_000_000_000_000] {
        let m = PrivateMessage::with_epoch(String::from("t"), 0, 0, secs);
        assert_eq!(m.epoch_seconds(), secs);
        let dt = m.timestamp();
        assert_eq!(dt.and_utc().timestamp(), secs);
    }
}
