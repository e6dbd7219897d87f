//! A pure model of the server side of the protocol: the state a server keeps
//! (directory, credentials, sessions, message history) and the outcome each
//! method is owed, as one total transition function `step` that the
//! executable `handle` is proved to implement.
use vstd::prelude::*;
use crate::protocol::{
    push_char,
    AuthError, Event, EventView, Method, MethodResult, MethodResultView, MethodView, PrivateMessage,
    PrivateMessageView, Request, RequestError, RequestResult, User, UserView, pm_views,
    user_views,
};

verus! {

/// One issued session: the opaque token and the user it proves.
#[derive(Debug)]
pub struct Session {
    pub token: String,
    pub user_id: i32,
}

pub struct SessionView {
    pub token: Seq<char>,
    pub user_id: i32,
}

impl View for Session {
    type V = SessionView;

    closed spec fn view(&self) -> SessionView {
        SessionView { token: self.token@, user_id: self.user_id }
    }
}

pub open spec fn session_views(s: Seq<Session>) -> Seq<SessionView> {
    s.map_values(|x: Session| x@)
}

/// Everything a server remembers between requests.
pub struct ServerState {
    users: Vec<User>,
    passwords: Vec<String>,
    sessions: Vec<Session>,
    messages: Vec<PrivateMessage>,
}

#[verifier::ext_equal]
pub struct ServerStateView {
    pub users: Seq<UserView>,
    pub passwords: Seq<Seq<char>>,
    pub sessions: Seq<SessionView>,
    pub messages: Seq<PrivateMessageView>,
}

impl View for ServerState {
    type V = ServerStateView;

    closed spec fn view(&self) -> ServerStateView {
        ServerStateView {
            users: user_views(self.users@),
            passwords: string_views(self.passwords@),
            sessions: session_views(self.sessions@),
            messages: pm_views(self.messages@),
        }
    }
}

impl ServerStateView {
    /// Well-formedness: credentials parallel the directory, ids are the
    /// positions they were issued at (so they fit in an `i32`), and logins
    /// are unique.
    pub open spec fn wf(self) -> bool {
        &&& self.passwords.len() == self.users.len()
        &&& self.users.len() <= 0x7fff_ffff
        &&& forall|i: int| 0 <= i < self.users.len() ==> (#[trigger] self.users[i]).id == i as i32
        &&& forall|i: int, j: int|
            0 <= i < j < self.users.len() ==> (#[trigger] self.users[i]).login != (
            #[trigger] self.users[j]).login
    }
}

// ---------------------------------------------------------------------------
// The specification-side vocabulary of the transition function.
// ---------------------------------------------------------------------------

/// Whether the login is already registered.
pub open spec fn has_login(users: Seq<UserView>, login: Seq<char>) -> bool {
    exists|i: int| 0 <= i < users.len() && (#[trigger] users[i]).login == login
}

/// Whether the login is registered with exactly this password.
pub open spec fn cred_ok(
    users: Seq<UserView>,
    passwords: Seq<Seq<char>>,
    login: Seq<char>,
    password: Seq<char>,
) -> bool {
    exists|i: int|
        0 <= i < users.len() && (#[trigger] users[i]).login == login && passwords[i] == password
}

pub open spec fn string_views(s: Seq<String>) -> Seq<Seq<char>> {
    s.map_values(|x: String| x@)
}

/// The id of the (unique) user holding this login.
pub open spec fn user_id_for(users: Seq<UserView>, login: Seq<char>) -> i32 {
    users[choose|i: int| 0 <= i < users.len() && (#[trigger] users[i]).login == login].id
}

/// The user a session token proves: the first issued session holding it.
pub open spec fn lookup_session(sessions: Seq<SessionView>, token: Seq<char>) -> Option<i32>
    decreases sessions.len(),
{
    if sessions.len() == 0 {
        None
    } else if sessions[0].token == token {
        Some(sessions[0].user_id)
    } else {
        lookup_session(sessions.drop_first(), token)
    }
}

/// The caller a request's token proves, if any.
pub open spec fn session_user(s: ServerStateView, token: Option<Seq<char>>) -> Option<i32> {
    match token {
        None => None,
        Some(t) => lookup_session(s.sessions, t),
    }
}

/// Which methods must carry a valid session token.
pub open spec fn needs_auth(m: MethodView) -> bool {
    !(m matches MethodView::SignUp { .. }) && !(m matches MethodView::LogIn { .. })
}

/// Whether a message belongs to the private conversation between `a` and `b`.
pub open spec fn in_conversation(m: PrivateMessageView, a: i32, b: i32) -> bool {
    (m.sender_id == a && m.receiver_id == b) || (m.sender_id == b && m.receiver_id == a)
}

pub open spec fn conv_pred(a: i32, b: i32) -> spec_fn(PrivateMessageView) -> bool {
    |m: PrivateMessageView| in_conversation(m, a, b)
}

/// The history of the conversation between `a` and `b`, in arrival order;
/// by the convention that arrivals carry non-decreasing timestamps this is
/// also non-decreasing timestamp order, ties left in arrival order.
pub open spec fn conversation(msgs: Seq<PrivateMessageView>, a: i32, b: i32) -> Seq<
    PrivateMessageView,
> {
    msgs.filter(conv_pred(a, b))
}

/// The counterparties the user has exchanged private messages with, each
/// once, in order of first contact.
pub open spec fn chat_partners(msgs: Seq<PrivateMessageView>, uid: i32) -> Seq<i32>
    decreases msgs.len(),
{
    if msgs.len() == 0 {
        Seq::empty()
    } else {
        let rest = chat_partners(msgs.drop_last(), uid);
        let m = msgs.last();
        if m.sender_id == uid && !rest.contains(m.receiver_id) {
            rest.push(m.receiver_id)
        } else if m.receiver_id == uid && m.sender_id != uid && !rest.contains(m.sender_id) {
            rest.push(m.sender_id)
        } else {
            rest
        }
    }
}

/// The decimal digits of `n`, most significant first: the shape of an issued
/// session token.
pub open spec fn dec_digits(n: nat) -> Seq<char>
    decreases n,
{
    if n < 10 {
        seq![digit_char(n as int)]
    } else {
        dec_digits(n / 10).push(digit_char((n % 10) as int))
    }
}

/// The character of one decimal digit.
pub open spec fn digit_char(d: int) -> char {
    ((48 + d) as u8) as char
}

/// The timestamp of every message is non-decreasing along the sequence.
pub open spec fn timestamps_non_decreasing(msgs: Seq<PrivateMessageView>) -> bool {
    forall|i: int, j: int|
        0 <= i <= j < msgs.len() ==> (#[trigger] msgs[i]).raw_timestamp <= (
        #[trigger] msgs[j]).raw_timestamp
}

// ---------------------------------------------------------------------------
// The transition function: for a pre-state, a method, the identity its token
// proved (if any) and the arrival time, the post-state, the outcome owed,
// and the event to push.
// ---------------------------------------------------------------------------

pub open spec fn auth_failure() -> Result<MethodResultView, RequestError> {
    Err(RequestError::Auth(AuthError::IncorrectSessionToken))
}

pub open spec fn step(
    pre: ServerStateView,
    m: MethodView,
    auth: Option<i32>,
    now: i64,
) -> (ServerStateView, Result<MethodResultView, RequestError>, Option<EventView>) {
    match m {
        MethodView::SignUp { login, password } => {
            if has_login(pre.users, login) {
                (pre, Err(RequestError::Auth(AuthError::AlreadySignedUp)), None)
            } else {
                let post = ServerStateView {
                    users: pre.users.push(UserView { id: pre.users.len() as i32, login }),
                    passwords: pre.passwords.push(password),
                    sessions: pre.sessions,
                    messages: pre.messages,
                };
                (post, Ok(MethodResultView::SignUp), None)
            }
        },
        MethodView::LogIn { login, password } => {
            if cred_ok(pre.users, pre.passwords, login, password) {
                let token = dec_digits(pre.sessions.len());
                let post = ServerStateView {
                    users: pre.users,
                    passwords: pre.passwords,
                    sessions: pre.sessions.push(
                        SessionView { token, user_id: user_id_for(pre.users, login) },
                    ),
                    messages: pre.messages,
                };
                (post, Ok(MethodResultView::LogIn { session_token: token }), None)
            } else {
                (pre, Err(RequestError::Auth(AuthError::IncorrectCredentials)), None)
            }
        },
        MethodView::SendPrivateMessage { message, receiver_id } => {
            match auth {
                None => (pre, auth_failure(), None),
                Some(uid) => {
                    let pm = PrivateMessageView {
                        text: message,
                        sender_id: uid,
                        receiver_id,
                        raw_timestamp: now,
                    };
                    let post = ServerStateView {
                        users: pre.users,
                        passwords: pre.passwords,
                        sessions: pre.sessions,
                        messages: pre.messages.push(pm),
                    };
                    (post, Ok(MethodResultView::SendPrivateMessage), Some(
                        EventView::NewPrivateMessage(pm),
                    ))
                },
            }
        },
        MethodView::GetPrivateChatMessages { second_user_id } => {
            match auth {
                None => (pre, auth_failure(), None),
                Some(uid) => (
                    pre,
                    Ok(
                        MethodResultView::GetPrivateChatMessages {
                            messages: conversation(pre.messages, uid, second_user_id),
                        },
                    ),
                    None,
                ),
            }
        },
        MethodView::GetUsers => {
            match auth {
                None => (pre, auth_failure(), None),
                Some(_) => (pre, Ok(MethodResultView::GetUsers { users: pre.users }), None),
            }
        },
        MethodView::GetAvailableChats => {
            match auth {
                None => (pre, auth_failure(), None),
                Some(uid) => (
                    pre,
                    Ok(
                        MethodResultView::GetAvailableChats {
                            chats: chat_partners(pre.messages, uid),
                        },
                    ),
                    None,
                ),
            }
        },
    }
}

pub open spec fn opt_event_view(o: Option<Event>) -> Option<EventView> {
    match o {
        Some(e) => Some(e@),
        None => None,
    }
}

// ---------------------------------------------------------------------------
// Laws of the transition function.
// ---------------------------------------------------------------------------

/// Authentication failures are exhaustive: a method that needs a session
/// token, handled without one that proves a user, fails with exactly
/// `Auth(IncorrectSessionToken)`, changes no state, and pushes no event.
pub proof fn lemma_auth_failure_exhaustive(
    pre: ServerStateView,
    m: MethodView,
    now: i64,
)
    requires
        needs_auth(m),
    ensures
        step(pre, m, None, now) == (
            pre,
            Err::<MethodResultView, RequestError>(
                RequestError::Auth(AuthError::IncorrectSessionToken),
            ),
            None::<EventView>,
        ),
{
}

/// Filtering a sequence extended by one element keeps the filtered prefix
/// and appends the element exactly when it satisfies the predicate.
proof fn lemma_filter_push<A>(s: Seq<A>, x: A, pred: spec_fn(A) -> bool)
    ensures
        s.push(x).filter(pred) == (if pred(x) {
            s.filter(pred).push(x)
        } else {
            s.filter(pred)
        }),
{
    reveal(Seq::filter);
    assert(s.push(x).drop_last() =~= s);
    assert(s.push(x).last() == x);
}

/// Every element a filter keeps comes from the sequence it was read off.
proof fn lemma_filter_source<A>(s: Seq<A>, pred: spec_fn(A) -> bool, i: int)
    requires
        0 <= i < s.filter(pred).len(),
    ensures
        s.contains(s.filter(pred)[i]),
    decreases s.len(),
{
    reveal(Seq::filter);
    if s.len() > 0 {
        let sub = s.drop_last().filter(pred);
        if i < sub.len() {
            lemma_filter_source(s.drop_last(), pred, i);
            let w = choose|w: int| 0 <= w < s.drop_last().len() && s.drop_last()[w] == sub[i];
            assert(s[w] == s.filter(pred)[i]);
        } else {
            assert(s[s.len() - 1] == s.filter(pred)[i]);
        }
    }
}

/// A conversation read off an arrival sequence whose timestamps respect the
/// non-decreasing convention is itself in non-decreasing timestamp order
/// (ties stay in arrival order because filtering keeps it).
pub proof fn lemma_conversation_ordered(msgs: Seq<PrivateMessageView>, a: i32, b: i32)
    requires
        timestamps_non_decreasing(msgs),
    ensures
        timestamps_non_decreasing(conversation(msgs, a, b)),
    decreases msgs.len(),
{
    reveal(Seq::filter);
    let pred = conv_pred(a, b);
    if msgs.len() == 0 {
    } else {
        let head = msgs.drop_last();
        assert(timestamps_non_decreasing(head));
        lemma_conversation_ordered(head, a, b);
        let hf = conversation(head, a, b);
        if pred(msgs.last()) {
            let whole = hf.push(msgs.last());
            assert(conversation(msgs, a, b) == whole);
            assert forall|i: int, j: int|
                0 <= i <= j < whole.len() implies (#[trigger] whole[i]).raw_timestamp <= (
            #[trigger] whole[j]).raw_timestamp by {
                if j < hf.len() {
                    assert(whole[i] == hf[i] && whole[j] == hf[j]);
                } else if i < hf.len() {
                    // the pushed element is the last arrival, so its
                    // timestamp dominates every filtered one
                    lemma_filter_source(head, pred, i);
                    let w = choose|w: int| 0 <= w < head.len() && head[w] == hf[i];
                    assert(msgs[w] == hf[i]);
                    assert(msgs[w].raw_timestamp <= msgs.last().raw_timestamp);
                }
            }
        } else {
            assert(conversation(msgs, a, b) == hf);
        }
    }
}

// ---------------------------------------------------------------------------
// Executable helpers.
// ---------------------------------------------------------------------------

/// The decimal rendering of `n`: the shape of an issued session token.
pub fn u64_dec_string(n: u64) -> (r: String)
    ensures
        r@ == dec_digits(n as nat),
    decreases n,
{
    let d: u8 = (n % 10) as u8;
    let c: char = (48 + d) as char;
    if n < 10 {
        let mut s = String::new();
        push_char(&mut s, c);
        proof {
            assert(s@ =~= seq![digit_char(n as int)]);
        }
        s
    } else {
        let mut s = u64_dec_string(n / 10);
        push_char(&mut s, c);
        s
    }
}

fn find_login(users: &Vec<User>, login: &String) -> (r: Option<usize>)
    ensures
        match r {
            Some(i) => i < users@.len() && user_views(users@)[i as int].login == login@,
            None => !has_login(user_views(users@), login@),
        },
{
    let mut i: usize = 0;
    while i < users.len()
        invariant
            i <= users@.len(),
            forall|j: int| 0 <= j < i ==> (#[trigger] user_views(users@)[j]).login != login@,
        decreases users@.len() - i,
    {
        if users[i].login.eq(login) {
            return Some(i);
        }
        i = i + 1;
    }
    None
}

fn find_cred(
    users: &Vec<User>,
    passwords: &Vec<String>,
    login: &String,
    password: &String,
) -> (r: Option<usize>)
    requires
        users@.len() == passwords@.len(),
    ensures
        match r {
            Some(i) => i < users@.len() && user_views(users@)[i as int].login == login@
                && string_views(passwords@)[i as int] == password@,
            None => !cred_ok(user_views(users@), string_views(passwords@), login@, password@),
        },
{
    let mut i: usize = 0;
    while i < users.len()
        invariant
            i <= users@.len(),
            users@.len() == passwords@.len(),
            forall|j: int|
                0 <= j < i ==> !((#[trigger] user_views(users@)[j]).login == login@
                    && string_views(passwords@)[j] == password@),
        decreases users@.len() - i,
    {
        if users[i].login.eq(login) && passwords[i].eq(password) {
            return Some(i);
        }
        i = i + 1;
    }
    None
}

fn find_session(sessions: &Vec<Session>, token: &String) -> (r: Option<i32>)
    ensures
        r == lookup_session(session_views(sessions@), token@),
{
    let ghost all = session_views(sessions@);
    let mut i: usize = 0;
    proof {
        assert(all.skip(0) =~= all);
    }
    while i < sessions.len()
        invariant
            i <= sessions@.len(),
            all == session_views(sessions@),
            lookup_session(all, token@) == lookup_session(all.skip(i as int), token@),
        decreases sessions@.len() - i,
    {
        proof {
            assert(all.skip(i as int)[0] == sessions@[i as int]@);
        }
        if sessions[i].token.eq(token) {
            return Some(sessions[i].user_id);
        }
        proof {
            assert(all.skip(i as int).drop_first() =~= all.skip(i as int + 1));
        }
        i = i + 1;
    }
    proof {
        assert(all.skip(i as int).len() == 0);
    }
    None
}

fn vec_contains_i32(v: &Vec<i32>, x: i32) -> (r: bool)
    ensures
        r == v@.contains(x),
{
    let mut i: usize = 0;
    while i < v.len()
        invariant
            i <= v@.len(),
            forall|j: int| 0 <= j < i ==> v@[j] != x,
        decreases v@.len() - i,
    {
        if v[i] == x {
            return true;
        }
        i = i + 1;
    }
    false
}

fn conversation_vec(messages: &Vec<PrivateMessage>, a: i32, b: i32) -> (r: Vec<PrivateMessage>)
    ensures
        pm_views(r@) == conversation(pm_views(messages@), a, b),
{
    let ghost all = pm_views(messages@);
    let mut out: Vec<PrivateMessage> = Vec::new();
    let mut i: usize = 0;
    proof {
        reveal(Seq::filter);
        assert(pm_views(out@) =~= Seq::<PrivateMessageView>::empty());
        assert(all.take(0) =~= Seq::<PrivateMessageView>::empty());
    }
    while i < messages.len()
        invariant
            i <= messages@.len(),
            all == pm_views(messages@),
            pm_views(out@) == conversation(all.take(i as int), a, b),
        decreases messages@.len() - i,
    {
        let m = &messages[i];
        proof {
            assert(all.take(i as int + 1) =~= all.take(i as int).push(all[i as int]));
            lemma_filter_push(all.take(i as int), all[i as int], conv_pred(a, b));
        }
        if (m.sender_id == a && m.receiver_id == b) || (m.sender_id == b && m.receiver_id == a) {
            let ghost prev = out@;
            out.push(m.clone());
            proof {
                assert(pm_views(out@) =~= pm_views(prev).push(all[i as int]));
            }
        }
        i = i + 1;
    }
    proof {
        assert(all.take(messages@.len() as int) =~= all);
    }
    out
}

fn partners_vec(messages: &Vec<PrivateMessage>, uid: i32) -> (r: Vec<i32>)
    ensures
        r@ == chat_partners(pm_views(messages@), uid),
{
    let ghost all = pm_views(messages@);
    let mut out: Vec<i32> = Vec::new();
    let mut i: usize = 0;
    proof {
        assert(all.take(0) =~= Seq::<PrivateMessageView>::empty());
    }
    while i < messages.len()
        invariant
            i <= messages@.len(),
            all == pm_views(messages@),
            out@ == chat_partners(all.take(i as int), uid),
        decreases messages@.len() - i,
    {
        let m = &messages[i];
        proof {
            assert(all.take(i as int + 1).drop_last() =~= all.take(i as int));
            assert(all.take(i as int + 1).last() == all[i as int]);
        }
        if m.sender_id == uid {
            if !vec_contains_i32(&out, m.receiver_id) {
                out.push(m.receiver_id);
            }
        } else if m.receiver_id == uid {
            if !vec_contains_i32(&out, m.sender_id) {
                out.push(m.sender_id);
            }
        }
        i = i + 1;
    }
    proof {
        assert(all.take(messages@.len() as int) =~= all);
    }
    out
}

fn clone_users(users: &Vec<User>) -> (r: Vec<User>)
    ensures
        user_views(r@) == user_views(users@),
{
    let mut out: Vec<User> = Vec::new();
    let mut i: usize = 0;
    proof {
        assert(user_views(out@) =~= user_views(users@).take(0));
    }
    while i < users.len()
        invariant
            i <= users@.len(),
            user_views(out@) == user_views(users@).take(i as int),
        decreases users@.len() - i,
    {
        let ghost prev = out@;
        out.push(users[i].clone());
        proof {
            assert(user_views(prev).len() == prev.len());
            assert(prev.len() == i as int);
            let t = user_views(users@).take(i as int + 1);
            assert forall|j: int| 0 <= j < out@.len() implies user_views(out@)[j] == t[j] by {
                assert(user_views(out@)[j] == out@[j]@);
                if j < i as int {
                    assert(out@[j] == prev[j]);
                    assert(user_views(prev)[j] == prev[j]@);
                }
            }
            assert(user_views(out@) =~= t);
        }
        i = i + 1;
    }
    proof {
        assert(user_views(users@).take(users@.len() as int) =~= user_views(users@));
    }
    out
}

/// The unique holder of a login has the id the directory shows at its slot.
proof fn lemma_user_id_unique(users: Seq<UserView>, login: Seq<char>, i: int)
    requires
        forall|p: int, q: int|
            0 <= p < q < users.len() ==> (#[trigger] users[p]).login != (
            #[trigger] users[q]).login,
        0 <= i < users.len(),
        users[i].login == login,
    ensures
        user_id_for(users, login) == users[i].id,
{
    let j = choose|j: int| 0 <= j < users.len() && (#[trigger] users[j]).login == login;
    if i != j {
        if i < j {
            assert(users[i].login != users[j].login);
        } else {
            assert(users[j].login != users[i].login);
        }
    }
}

// ---------------------------------------------------------------------------
// The dispatcher.
// ---------------------------------------------------------------------------

impl ServerState {
    pub open spec fn wf(&self) -> bool {
        self@.wf()
    }

    /// A server with nobody registered, nobody logged in, and no history.
    pub fn new() -> (r: Self)
        ensures
            r.wf(),
            r@.users == Seq::<UserView>::empty(),
            r@.passwords == Seq::<Seq<char>>::empty(),
            r@.sessions == Seq::<SessionView>::empty(),
            r@.messages == Seq::<PrivateMessageView>::empty(),
    {
        let r = ServerState {
            users: Vec::new(),
            passwords: Vec::new(),
            sessions: Vec::new(),
            messages: Vec::new(),
        };
        proof {
            assert(r@.users =~= Seq::<UserView>::empty());
            assert(r@.passwords =~= Seq::<Seq<char>>::empty());
            assert(r@.sessions =~= Seq::<SessionView>::empty());
            assert(r@.messages =~= Seq::<PrivateMessageView>::empty());
        }
        r
    }

    fn auth_err(request_id: u32) -> (r: RequestResult)
        ensures
            r@.request_id == request_id,
            r@.result == auth_failure(),
    {
        RequestResult {
            request_id,
            result: Err(RequestError::Auth(AuthError::IncorrectSessionToken)),
        }
    }

    /// Dispatches one request: authenticates where the method requires it,
    /// gives the method its documented outcome, and returns the response
    /// carrying the originating request's correlation id, together with the
    /// event to push, if any.
    pub fn handle(&mut self, request: Request, now: i64) -> (out: (RequestResult, Option<Event>))
        requires
            old(self).wf(),
            old(self)@.users.len() < 0x7fff_ffff,
        ensures
            final(self).wf(),
            out.0@.request_id == request@.request_id,
            ({
                let (post, res, ev) = step(
                    old(self)@,
                    request@.method,
                    session_user(old(self)@, request@.session_token),
                    now,
                );
                &&& final(self)@ == post
                &&& out.0@.result == res
                &&& opt_event_view(out.1) == ev
            }),
    {
        let request_id = request.request_id;
        let auth: Option<i32> = match &request.session_token {
            Some(t) => find_session(&self.sessions, t),
            None => None,
        };
        proof {
            assert(auth == session_user(self@, request@.session_token));
        }
        match request.method {
            Method::SignUp { login, password } => {
                let ghost login_v = login@;
                let ghost password_v = password@;
                match find_login(&self.users, &login) {
                    Some(_) => {
                        proof {
                            assert(has_login(self@.users, login_v));
                        }
                        (
                            RequestResult {
                                request_id,
                                result: Err(RequestError::Auth(AuthError::AlreadySignedUp)),
                            },
                            None,
                        )
                    },
                    None => {
                        let id = self.users.len() as i32;
                        let ghost pre = self@;
                        self.users.push(User { id, login });
                        self.passwords.push(password);
                        proof {
                            assert(self@.users =~= pre.users.push(
                                UserView { id: pre.users.len() as i32, login: login_v },
                            ));
                            assert(self@.passwords =~= pre.passwords.push(password_v));
                            assert(self@.sessions =~= pre.sessions);
                            assert(self@.messages =~= pre.messages);
                            let (post, res, ev) = step(
                                pre,
                                request@.method,
                                session_user(pre, request@.session_token),
                                now,
                            );
                            assert(self@ =~= post);
                            assert forall|p: int, q: int|
                                0 <= p < q < self@.users.len() implies (
                            #[trigger] self@.users[p]).login != (
                            #[trigger] self@.users[q]).login by {
                                if q < pre.users.len() {
                                } else {
                                    assert(self@.users[q].login == login_v);
                                    assert(!has_login(pre.users, login_v));
                                    assert(self@.users[p] == pre.users[p]);
                                }
                            }
                            assert(self@.wf());
                        }
                        (RequestResult { request_id, result: Ok(MethodResult::SignUp) }, None)
                    },
                }
            },
            Method::LogIn { login, password } => {
                let ghost login_v = login@;
                match find_cred(&self.users, &self.passwords, &login, &password) {
                    Some(i) => {
                        let token = u64_dec_string(self.sessions.len() as u64);
                        let uid = self.users[i].id;
                        let stored = token.clone();
                        let ghost pre = self@;
                        proof {
                            assert(self.sessions@.len() as u64 as nat == self@.sessions.len());
                            assert(cred_ok(pre.users, pre.passwords, login_v, password@));
                            lemma_user_id_unique(pre.users, login_v, i as int);
                        }
                        self.sessions.push(Session { token: stored, user_id: uid });
                        proof {
                            assert(self@.sessions =~= pre.sessions.push(
                                SessionView {
                                    token: dec_digits(pre.sessions.len()),
                                    user_id: user_id_for(pre.users, login_v),
                                },
                            ));
                            assert(self@.users =~= pre.users);
                            assert(self@.passwords =~= pre.passwords);
                            assert(self@.messages =~= pre.messages);
                            let (post, res, ev) = step(
                                pre,
                                request@.method,
                                session_user(pre, request@.session_token),
                                now,
                            );
                            assert(self@ =~= post);
                        }
                        (
                            RequestResult {
                                request_id,
                                result: Ok(MethodResult::LogIn { session_token: token }),
                            },
                            None,
                        )
                    },
                    None => {
                        (
                            RequestResult {
                                request_id,
                                result: Err(RequestError::Auth(AuthError::IncorrectCredentials)),
                            },
                            None,
                        )
                    },
                }
            },
            Method::SendPrivateMessage { message, receiver_id } => {
                match auth {
                    Some(uid) => {
                        let pm = PrivateMessage {
                            text: message,
                            sender_id: uid,
                            receiver_id,
                            raw_timestamp: now,
                        };
                        let pushed = pm.clone();
                        let ghost pre = self@;
                        self.messages.push(pm);
                        proof {
                            assert(self@.messages =~= pre.messages.push(
                                PrivateMessageView {
                                    text: request@.method->SendPrivateMessage_message,
                                    sender_id: uid,
                                    receiver_id,
                                    raw_timestamp: now,
                                },
                            ));
                            assert(self@.users =~= pre.users);
                            assert(self@.passwords =~= pre.passwords);
                            assert(self@.sessions =~= pre.sessions);
                            let (post, res, ev) = step(
                                pre,
                                request@.method,
                                session_user(pre, request@.session_token),
                                now,
                            );
                            assert(self@ =~= post);
                        }
                        (
                            RequestResult {
                                request_id,
                                result: Ok(MethodResult::SendPrivateMessage),
                            },
                            Some(Event::NewPrivateMessage(pushed)),
                        )
                    },
                    None => (Self::auth_err(request_id), None),
                }
            },
            Method::GetPrivateChatMessages { second_user_id } => {
                match auth {
                    Some(uid) => {
                        let messages = conversation_vec(&self.messages, uid, second_user_id);
                        (
                            RequestResult {
                                request_id,
                                result: Ok(MethodResult::GetPrivateChatMessages { messages }),
                            },
                            None,
                        )
                    },
                    None => (Self::auth_err(request_id), None),
                }
            },
            Method::GetUsers => {
                match auth {
                    Some(_) => {
                        let users = clone_users(&self.users);
                        (
                            RequestResult {
                                request_id,
                                result: Ok(MethodResult::GetUsers { users }),
                            },
                            None,
                        )
                    },
                    None => (Self::auth_err(request_id), None),
                }
            },
            Method::GetAvailableChats => {
                match auth {
                    Some(uid) => {
                        let chats = partners_vec(&self.messages, uid);
                        (
                            RequestResult {
                                request_id,
                                result: Ok(MethodResult::GetAvailableChats { chats }),
                            },
                            None,
                        )
                    },
                    None => (Self::auth_err(request_id), None),
                }
            },
        }
    }
}

} // verus!
