//! The wire-protocol data shapes: the request envelope, the method and
//! result catalogs, server events, message entities and the error taxonomy.
use vstd::prelude::*;
use vstd::string::StringExecFns;

verus! {

// ---------------------------------------------------------------------------
// Views: the mathematical shape of each wire value. Strings are sequences of
// characters; collections are sequences.
// ---------------------------------------------------------------------------

pub struct RequestView {
    pub request_id: u32,
    pub method: MethodView,
    pub session_token: Option<Seq<char>>,
}

pub enum MethodView {
    SignUp { login: Seq<char>, password: Seq<char> },
    LogIn { login: Seq<char>, password: Seq<char> },
    SendPrivateMessage { message: Seq<char>, receiver_id: i32 },
    GetPrivateChatMessages { second_user_id: i32 },
    GetUsers,
    GetAvailableChats,
}

pub enum MethodResultView {
    SignUp,
    LogIn { session_token: Seq<char> },
    SendPrivateMessage,
    GetPrivateChatMessages { messages: Seq<PrivateMessageView> },
    GetUsers { users: Seq<UserView> },
    GetAvailableChats { chats: Seq<i32> },
}

pub struct PrivateMessageView {
    pub text: Seq<char>,
    pub sender_id: i32,
    pub receiver_id: i32,
    pub raw_timestamp: i64,
}

pub struct ChatMessageView {
    pub text: Seq<char>,
    pub sender_id: i32,
    pub chat_id: i32,
    pub raw_timestamp: i64,
}

pub struct UserView {
    pub id: i32,
    pub login: Seq<char>,
}

pub struct RequestResultView {
    pub request_id: u32,
    pub result: Result<MethodResultView, RequestError>,
}

pub enum EventView {
    NewPrivateMessage(PrivateMessageView),
    NewChatMessage(ChatMessageView),
}

// ---------------------------------------------------------------------------
// The executable wire types.
// ---------------------------------------------------------------------------

/// One client-initiated call: a correlation id, the invoked method, and the
/// session token proving identity where one is required.
#[derive(Debug)]
pub struct Request {
    pub request_id: u32,
    pub method: Method,
    pub session_token: Option<String>,
}

/// An unsolicited server-to-client notification, delivered outside the
/// request/response correlation scheme.
#[derive(Debug)]
pub enum Event {
    NewPrivateMessage(PrivateMessage),
    NewChatMessage(ChatMessage),
}

/// The closed catalog of operations a client may invoke.
#[derive(Debug)]
pub enum Method {
    SignUp { login: String, password: String },
    LogIn { login: String, password: String },
    SendPrivateMessage { message: String, receiver_id: i32 },
    GetPrivateChatMessages { second_user_id: i32 },
    GetUsers,
    GetAvailableChats,
}

/// The closed catalog of success payloads; each variant corresponds to the
/// method that produced it.
#[derive(Debug, Clone)]
pub enum MethodResult {
    SignUp,
    LogIn { session_token: String },
    SendPrivateMessage,
    GetPrivateChatMessages { messages: Vec<PrivateMessage> },
    GetUsers { users: Vec<User> },
    GetAvailableChats { chats: Vec<i32> },
}

/// One direct message between two users. The timestamp is stored as whole
/// seconds since the Unix epoch and exposed as a UTC calendar time.
#[derive(Debug)]
pub struct PrivateMessage {
    pub text: String,
    pub sender_id: i32,
    pub receiver_id: i32,
    pub raw_timestamp: i64,
}

/// One message in a group chat, with the same timestamp representation as
/// `PrivateMessage`.
#[derive(Debug)]
pub struct ChatMessage {
    pub text: String,
    pub sender_id: i32,
    pub chat_id: i32,
    pub raw_timestamp: i64,
}

/// A directory entry: a numeric id and the unique login it belongs to.
#[derive(Debug)]
pub struct User {
    pub id: i32,
    pub login: String,
}

/// The response envelope: the correlation id of the originating request and
/// its success-or-error outcome.
#[derive(Debug)]
pub struct RequestResult {
    pub request_id: u32,
    pub result: Result<MethodResult, RequestError>,
}

/// The top-level failure taxonomy; only the authentication category exists.
#[derive(Debug, Clone)]
pub enum RequestError {
    Auth(AuthError),
}

/// The authentication failure reasons.
#[derive(Debug, Clone)]
pub enum AuthError {
    AlreadySignedUp,
    IncorrectCredentials,
    IncorrectSessionToken,
}

// ---------------------------------------------------------------------------
// View impls.
// ---------------------------------------------------------------------------

pub open spec fn opt_string_view(o: Option<String>) -> Option<Seq<char>> {
    match o {
        Some(s) => Some(s@),
        None => None,
    }
}

pub open spec fn pm_views(s: Seq<PrivateMessage>) -> Seq<PrivateMessageView> {
    s.map_values(|m: PrivateMessage| m@)
}

pub open spec fn user_views(s: Seq<User>) -> Seq<UserView> {
    s.map_values(|u: User| u@)
}

impl View for Request {
    type V = RequestView;

    open spec fn view(&self) -> RequestView {
        RequestView {
            request_id: self.request_id,
            method: self.method@,
            session_token: opt_string_view(self.session_token),
        }
    }
}

impl View for Method {
    type V = MethodView;

    open spec fn view(&self) -> MethodView {
        match self {
            Method::SignUp { login, password } => (MethodView::SignUp {
                login: login@,
                password: password@,
            }),
            Method::LogIn { login, password } => (MethodView::LogIn {
                login: login@,
                password: password@,
            }),
            Method::SendPrivateMessage { message, receiver_id } => (MethodView::SendPrivateMessage {
                message: message@,
                receiver_id: *receiver_id,
            }),
            Method::GetPrivateChatMessages { second_user_id } => (MethodView::GetPrivateChatMessages {
                second_user_id: *second_user_id,
            }),
            Method::GetUsers => MethodView::GetUsers,
            Method::GetAvailableChats => MethodView::GetAvailableChats,
        }
    }
}

impl View for MethodResult {
    type V = MethodResultView;

    open spec fn view(&self) -> MethodResultView {
        match self {
            MethodResult::SignUp => MethodResultView::SignUp,
            MethodResult::LogIn { session_token } => (MethodResultView::LogIn {
                session_token: session_token@,
            }),
            MethodResult::SendPrivateMessage => MethodResultView::SendPrivateMessage,
            MethodResult::GetPrivateChatMessages { messages } => (MethodResultView::GetPrivateChatMessages {
                messages: pm_views(messages@),
            }),
            MethodResult::GetUsers { users } => (MethodResultView::GetUsers {
                users: user_views(users@),
            }),
            MethodResult::GetAvailableChats { chats } => (MethodResultView::GetAvailableChats {
                chats: chats@,
            }),
        }
    }
}

impl View for PrivateMessage {
    type V = PrivateMessageView;

    open spec fn view(&self) -> PrivateMessageView {
        PrivateMessageView {
            text: self.text@,
            sender_id: self.sender_id,
            receiver_id: self.receiver_id,
            raw_timestamp: self.raw_timestamp,
        }
    }
}

impl View for ChatMessage {
    type V = ChatMessageView;

    open spec fn view(&self) -> ChatMessageView {
        ChatMessageView {
            text: self.text@,
            sender_id: self.sender_id,
            chat_id: self.chat_id,
            raw_timestamp: self.raw_timestamp,
        }
    }
}

impl View for User {
    type V = UserView;

    open spec fn view(&self) -> UserView {
        UserView { id: self.id, login: self.login@ }
    }
}

impl View for RequestResult {
    type V = RequestResultView;

    open spec fn view(&self) -> RequestResultView {
        RequestResultView {
            request_id: self.request_id,
            result: match &self.result {
                Ok(mr) => Ok(mr@),
                Err(e) => Err(*e),
            },
        }
    }
}

impl View for Event {
    type V = EventView;

    open spec fn view(&self) -> EventView {
        match self {
            Event::NewPrivateMessage(m) => EventView::NewPrivateMessage(m@),
            Event::NewChatMessage(m) => EventView::NewChatMessage(m@),
        }
    }
}

// ---------------------------------------------------------------------------
// Clones with exact contracts, for the entities the server hands out.
// ---------------------------------------------------------------------------

impl Clone for PrivateMessage {
    fn clone(&self) -> (r: Self)
        ensures
            r@ == self@,
    {
        PrivateMessage {
            text: self.text.clone(),
            sender_id: self.sender_id,
            receiver_id: self.receiver_id,
            raw_timestamp: self.raw_timestamp,
        }
    }
}

impl Clone for User {
    fn clone(&self) -> (r: Self)
        ensures
            r@ == self@,
    {
        User { id: self.id, login: self.login.clone() }
    }
}

// ---------------------------------------------------------------------------
// Calendar timestamps, through chrono.
// ---------------------------------------------------------------------------

#[verifier::external_type_specification]
#[verifier::external_body]
pub struct ExNaiveDateTime(chrono::NaiveDateTime);

/// The whole seconds since the Unix epoch that a `chrono::NaiveDateTime`
/// stands for; what `and_utc().timestamp()` returns for it.
pub uninterp spec fn epoch_of(dt: chrono::NaiveDateTime) -> int;

/// Seconds guaranteed to be within chrono's representable calendar range
/// (about 253,000 years either side of the epoch, comfortably inside the
/// ca. 262,000 years chrono documents).
pub open spec fn epoch_in_range(s: int) -> bool {
    -8_000_000_000_000 <= s <= 8_000_000_000_000
}

/// Relies on chrono::DateTime::<Utc>::from_timestamp then naive_utc: for
/// seconds inside the representable calendar range it returns the UTC
/// calendar time whose timestamp is exactly `secs`; out of range it is None.
#[verifier::external_body]
fn naive_datetime_from_epoch(secs: i64) -> (r: Option<chrono::NaiveDateTime>)
    ensures
        r matches Some(dt) ==> epoch_of(dt) == secs as int,
        epoch_in_range(secs as int) ==> r is Some,
{
    match chrono::DateTime::<chrono::Utc>::from_timestamp(secs, 0) {
        Some(dt) => Some(dt.naive_utc()),
        None => None,
    }
}

/// Relies on chrono::NaiveDateTime::and_utc().timestamp(): the whole seconds
/// since the Unix epoch of the given calendar time, a function of it alone.
#[verifier::external_body]
fn epoch_seconds_of(dt: &chrono::NaiveDateTime) -> (r: i64)
    ensures
        r as int == epoch_of(*dt),
{
    dt.and_utc().timestamp()
}

impl PrivateMessage {
    /// Builds a message, storing the calendar time as whole epoch seconds:
    /// sub-second precision is deliberately not kept.
    pub fn new(text: String, timestamp: chrono::NaiveDateTime, sender_id: i32, receiver_id: i32) -> (r: Self)
        ensures
            r@.text == text@,
            r@.sender_id == sender_id,
            r@.receiver_id == receiver_id,
            r@.raw_timestamp as int == epoch_of(timestamp),
    {
        let raw_timestamp = epoch_seconds_of(&timestamp);
        PrivateMessage { text, sender_id, receiver_id, raw_timestamp }
    }

    /// Builds a message directly from whole epoch seconds.
    pub fn with_epoch(text: String, sender_id: i32, receiver_id: i32, epoch_secs: i64) -> (r: Self)
        ensures
            r@ == (PrivateMessageView {
                text: text@,
                sender_id: sender_id,
                receiver_id: receiver_id,
                raw_timestamp: epoch_secs,
            }),
    {
        PrivateMessage { text, sender_id, receiver_id, raw_timestamp: epoch_secs }
    }

    /// The stored whole seconds since the Unix epoch.
    pub fn epoch_seconds(&self) -> (r: i64)
        ensures
            r == self@.raw_timestamp,
    {
        self.raw_timestamp
    }

    /// The stored time as a UTC calendar value, at whole-second granularity.
    pub fn timestamp(&self) -> (r: chrono::NaiveDateTime)
        requires
            epoch_in_range(self@.raw_timestamp as int),
        ensures
            epoch_of(r) == self@.raw_timestamp as int,
    {
        match naive_datetime_from_epoch(self.raw_timestamp) {
            Some(dt) => dt,
            None => vstd::pervasive::unreached(),
        }
    }
}

impl ChatMessage {
    /// Builds a chat message, storing the calendar time as whole epoch seconds.
    pub fn new(text: String, timestamp: chrono::NaiveDateTime, sender_id: i32, chat_id: i32) -> (r: Self)
        ensures
            r@.text == text@,
            r@.sender_id == sender_id,
            r@.chat_id == chat_id,
            r@.raw_timestamp as int == epoch_of(timestamp),
    {
        let raw_timestamp = epoch_seconds_of(&timestamp);
        ChatMessage { text, sender_id, chat_id, raw_timestamp }
    }

    /// Builds a chat message directly from whole epoch seconds.
    pub fn with_epoch(text: String, sender_id: i32, chat_id: i32, epoch_secs: i64) -> (r: Self)
        ensures
            r@ == (ChatMessageView {
                text: text@,
                sender_id: sender_id,
                chat_id: chat_id,
                raw_timestamp: epoch_secs,
            }),
    {
        ChatMessage { text, sender_id, chat_id, raw_timestamp: epoch_secs }
    }

    /// The stored whole seconds since the Unix epoch.
    pub fn epoch_seconds(&self) -> (r: i64)
        ensures
            r == self@.raw_timestamp,
    {
        self.raw_timestamp
    }

    /// The stored time as a UTC calendar value, at whole-second granularity.
    pub fn timestamp(&self) -> (r: chrono::NaiveDateTime)
        requires
            epoch_in_range(self@.raw_timestamp as int),
        ensures
            epoch_of(r) == self@.raw_timestamp as int,
    {
        match naive_datetime_from_epoch(self.raw_timestamp) {
            Some(dt) => dt,
            None => vstd::pervasive::unreached(),
        }
    }
}

/// Relies on alloc::string::String::push: appends the character to the end.
#[verifier::external_body]
pub(crate) fn push_char(s: &mut String, c: char)
    ensures
        final(s)@ == old(s)@.push(c),
{
    s.push(c)
}

// ---------------------------------------------------------------------------
// The fixed, stable rendering of each failure reason.
// ---------------------------------------------------------------------------

pub open spec fn auth_error_text(e: AuthError) -> Seq<char> {
    match e {
        AuthError::AlreadySignedUp => "already signed up"@,
        AuthError::IncorrectCredentials => "incorrect login or password"@,
        AuthError::IncorrectSessionToken => "incorrect session token"@,
    }
}

pub open spec fn request_error_text(e: RequestError) -> Seq<char> {
    match e {
        RequestError::Auth(a) => "RequestError: authentication error: "@ + auth_error_text(a),
    }
}

impl AuthError {
    /// The fixed human-readable sentence for this failure reason.
    pub fn message(&self) -> (r: String)
        ensures
            r@ == auth_error_text(*self),
    {
        match self {
            AuthError::AlreadySignedUp => String::from_str("already signed up"),
            AuthError::IncorrectCredentials => String::from_str("incorrect login or password"),
            AuthError::IncorrectSessionToken => String::from_str("incorrect session token"),
        }
    }
}

impl RequestError {
    /// The fixed human-readable sentence for this failure, prefixed with its
    /// category.
    pub fn message(&self) -> (r: String)
        ensures
            r@ == request_error_text(*self),
    {
        match self {
            RequestError::Auth(a) => {
                let prefix = String::from_str("RequestError: authentication error: ");
                prefix.concat(a.message().as_str())
            },
        }
    }
}

} // verus!
