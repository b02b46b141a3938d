//! Chat state reducer.
//!
//! Owns the two collections of a chat session — the roster of online
//! users and the append-only message log — and applies each decoded
//! inbound event to them, deciding whether the view must re-render.
//! Decode-layer failures never escape as a panic: they leave the state
//! untouched and are reported in the returned outcome.

use vstd::prelude::*;

use crate::chars::str_chars;
use crate::codec::spec_decode;
use crate::codec::spec_encode;
use crate::codec::spec_parse_message_data;
use crate::codec::decode;
use crate::codec::decode_message_data;
use crate::codec::encode;
use crate::codec::is_json_ws;
use crate::codec::EnvelopeView;
use crate::codec::MessageDataView;
use crate::codec::MsgTypes;
use crate::codec::WireEnvelope;

verus! {

/// A user visible in the roster, with the avatar URL derived from the
/// username.
#[derive(Clone, Debug, PartialEq)]
pub struct UserProfile {
    pub name: String,
    pub avatar: String,
}

/// Mathematical model of a [`UserProfile`].
pub struct UserProfileView {
    pub name: Seq<char>,
    pub avatar: Seq<char>,
}

impl View for UserProfile {
    type V = UserProfileView;

    open spec fn view(&self) -> UserProfileView {
        UserProfileView { name: self.name@, avatar: self.avatar@ }
    }
}

impl DeepView for UserProfile {
    type V = UserProfileView;

    open spec fn deep_view(&self) -> UserProfileView {
        self.view()
    }
}

/// One entry of the message log.
#[derive(Clone, Debug, PartialEq)]
pub struct ChatMessage {
    pub sender: String,
    pub body: String,
}

/// Mathematical model of a [`ChatMessage`].
pub struct ChatMessageView {
    pub sender: Seq<char>,
    pub body: Seq<char>,
}

impl View for ChatMessage {
    type V = ChatMessageView;

    open spec fn view(&self) -> ChatMessageView {
        ChatMessageView { sender: self.sender@, body: self.body@ }
    }
}

impl DeepView for ChatMessage {
    type V = ChatMessageView;

    open spec fn deep_view(&self) -> ChatMessageView {
        self.view()
    }
}

/// How an inbound raw message failed, when it failed.
#[derive(Clone, Copy, PartialEq, Eq, Structural, Debug)]
pub enum InboundError {
    /// The outer envelope did not decode.
    MalformedEnvelope,
    /// The envelope decoded to a `message`, but its nested payload did
    /// not.
    MalformedPayload,
}

/// The avatar URL derived from a username: a fixed avatar-service URL
/// template parameterized by the username.
pub open spec fn spec_avatar_url(name: Seq<char>) -> Seq<char> {
    "https://avatars.dicebear.com/api/adventurer-neutral/"@ + name + ".svg"@
}

/// Derives the avatar URL of a username.
pub fn avatar_url(name: &str) -> (r: String)
    ensures
        r@ == spec_avatar_url(name@),
{
    let mut s = String::from_str("https://avatars.dicebear.com/api/adventurer-neutral/");
    s.append(name);
    s.append(".svg");
    s
}

/// The roster profile derived from a username.
pub open spec fn spec_profile_of(name: Seq<char>) -> UserProfileView {
    UserProfileView { name: name, avatar: spec_avatar_url(name) }
}

/// Builds the roster profile of a username.
pub fn profile_of(name: &str) -> (p: UserProfile)
    ensures
        p@ == spec_profile_of(name@),
{
    UserProfile { name: name.to_owned(), avatar: avatar_url(name) }
}

/// The local state of one chat session.
#[derive(Clone, Debug, PartialEq)]
pub struct SessionState {
    pub username: String,
    pub users: Vec<UserProfile>,
    pub messages: Vec<ChatMessage>,
}

/// Mathematical model of a [`SessionState`].
pub struct SessionView {
    pub username: Seq<char>,
    pub users: Seq<UserProfileView>,
    pub messages: Seq<ChatMessageView>,
}

impl View for SessionState {
    type V = SessionView;

    open spec fn view(&self) -> SessionView {
        SessionView {
            username: self.username@,
            users: self.users.deep_view(),
            messages: self.messages.deep_view(),
        }
    }
}

/// The state after a roster snapshot: the roster is replaced wholesale by
/// the profiles derived from the names, in order; everything else is
/// kept.
pub open spec fn spec_apply_users(sv: SessionView, names: Seq<Seq<char>>) -> SessionView {
    SessionView {
        username: sv.username,
        users: names.map_values(|n: Seq<char>| spec_profile_of(n)),
        messages: sv.messages,
    }
}

/// The state after an inbound chat message: the message is appended to
/// the log; everything else is kept.
pub open spec fn spec_append_message(sv: SessionView, m: MessageDataView) -> SessionView {
    SessionView {
        username: sv.username,
        users: sv.users,
        messages: sv.messages.push(ChatMessageView { sender: m.from, body: m.message }),
    }
}

/// The roster after a snapshot holds exactly the derived profile of each
/// name of the snapshot, in order; so a snapshot of pairwise-distinct
/// names yields a roster of pairwise-distinct names.
pub proof fn lemma_apply_users_roster(sv: SessionView, names: Seq<Seq<char>>)
    ensures
        spec_apply_users(sv, names).users.len() == names.len(),
        forall|i: int|
            0 <= i < names.len() ==> spec_apply_users(sv, names).users[i] == spec_profile_of(
                names[i],
            ),
        (forall|i: int, j: int|
            0 <= i < j < names.len() ==> names[i] != names[j]) ==> (forall|i: int, j: int|
            0 <= i < j < names.len() ==> spec_apply_users(sv, names).users[i].name
                != spec_apply_users(sv, names).users[j].name),
{
}

/// Applying the same roster snapshot twice yields the same roster as
/// applying it once: a `users` envelope replaces the roster wholesale, it
/// never merges.
pub proof fn lemma_apply_users_idempotent(sv: SessionView, e: EnvelopeView)
    requires
        e.message_type == MsgTypes::Users,
        e.data_array is Some,
    ensures
        spec_apply_users(spec_apply_users(sv, e.data_array.unwrap()), e.data_array.unwrap())
            == spec_apply_users(sv, e.data_array.unwrap()),
{
}

/// The register envelope that a new session emits for a username.
pub open spec fn spec_register_envelope(username: Seq<char>) -> EnvelopeView {
    EnvelopeView { message_type: MsgTypes::Register, data_array: None, data: Some(username) }
}

/// Creates the state of a new session — empty roster, empty log — and
/// the serialized `register` envelope that announces `username`, for the
/// transport to send once at session start.
pub fn create_session(username: &str) -> (r: (SessionState, String))
    ensures
        r.0@.username == username@,
        r.0@.users == Seq::<UserProfileView>::empty(),
        r.0@.messages == Seq::<ChatMessageView>::empty(),
        r.1@ == spec_encode(spec_register_envelope(username@)),
{
    let st = SessionState {
        username: username.to_owned(),
        users: Vec::new(),
        messages: Vec::new(),
    };
    let env = WireEnvelope {
        message_type: MsgTypes::Register,
        data_array: None,
        data: Some(username.to_owned()),
    };
    let out = encode(&env);
    proof {
        assert(st@.users =~~= Seq::<UserProfileView>::empty());
        assert(st@.messages =~~= Seq::<ChatMessageView>::empty());
        assert(env@ == spec_register_envelope(username@));
    }
    (st, out)
}

/// The text holds nothing but whitespace (so submitting it is a no-op).
pub open spec fn spec_is_blank(s: Seq<char>) -> bool {
    forall|i: int| 0 <= i < s.len() ==> is_json_ws(s[i])
}

impl SessionState {
    /// Applies one inbound raw wire message to the session.
    ///
    /// Returns whether the view must re-render, and the decode failure if
    /// there was one. A `users` envelope replaces the roster wholesale
    /// and always re-renders; a `message` envelope appends to the log and
    /// re-renders; an inbound `register` envelope is a no-op. On any
    /// decode failure — of the outer envelope or of the nested payload —
    /// the state is left untouched, no re-render is signaled, and the
    /// failure is reported in the outcome rather than escaping as a
    /// panic.
    pub fn apply_inbound(&mut self, raw: &str) -> (r: (bool, Option<InboundError>))
        ensures
            final(self)@.username == old(self)@.username,
            old(self)@.messages.is_prefix_of(final(self)@.messages),
            spec_decode(raw@) is Err ==> final(self)@ == old(self)@ && r == (
                false,
                Some(InboundError::MalformedEnvelope),
            ),
            spec_decode(raw@) is Ok && spec_decode(raw@)->Ok_0.message_type == MsgTypes::Users
                ==> final(self)@ == spec_apply_users(
                old(self)@,
                spec_decode(raw@)->Ok_0.data_array.unwrap(),
            ) && r == (true, None::<InboundError>),
            spec_decode(raw@) is Ok && spec_decode(raw@)->Ok_0.message_type == MsgTypes::Register
                ==> final(self)@ == old(self)@ && r == (false, None::<InboundError>),
            spec_decode(raw@) is Ok && spec_decode(raw@)->Ok_0.message_type == MsgTypes::Message
                ==> ({
                let pd = spec_parse_message_data(spec_decode(raw@)->Ok_0.data.unwrap());
                &&& pd is Some ==> final(self)@ == spec_append_message(old(self)@, pd.unwrap())
                    && final(self)@.messages.len() == old(self)@.messages.len() + 1
                    && final(self)@.messages.last() == (ChatMessageView {
                    sender: pd.unwrap().from,
                    body: pd.unwrap().message,
                }) && r == (true, None::<InboundError>)
                &&& pd is None ==> final(self)@ == old(self)@ && r == (
                    false,
                    Some(InboundError::MalformedPayload),
                )
            }),
    {
        match decode(raw) {
            Err(_) => (false, Some(InboundError::MalformedEnvelope)),
            Ok(env) => match env.message_type {
                MsgTypes::Users => {
                    let names: Vec<String> = match env.data_array {
                        Some(a) => a,
                        None => {
                            proof {
                                assert(false);
                            }
                            return (false, None);
                        },
                    };
                    let mut users: Vec<UserProfile> = Vec::new();
                    let mut i: usize = 0;
                    while i < names.len()
                        invariant
                            i <= names@.len(),
                            users@.len() == i,
                            forall|t: int|
                                0 <= t < i ==> users@[t]@ == spec_profile_of(names@[t]@),
                        decreases names@.len() - i,
                    {
                        users.push(profile_of(names[i].as_str()));
                        i = i + 1;
                    }
                    self.users = users;
                    proof {
                        assert(self@.users =~~= names.deep_view().map_values(
                            |n: Seq<char>| spec_profile_of(n),
                        ));
                        assert(self@ == spec_apply_users(
                            old(self)@,
                            spec_decode(raw@)->Ok_0.data_array.unwrap(),
                        ));
                    }
                    (true, None)
                },
                MsgTypes::Message => {
                    let payload: String = match env.data {
                        Some(d) => d,
                        None => {
                            proof {
                                assert(false);
                            }
                            return (false, None);
                        },
                    };
                    match decode_message_data(payload.as_str()) {
                        Ok(md) => {
                            self.messages.push(
                                ChatMessage { sender: md.from, body: md.message },
                            );
                            proof {
                                let pd = spec_parse_message_data(
                                    spec_decode(raw@)->Ok_0.data.unwrap(),
                                ).unwrap();
                                assert(self@.messages =~~= old(self)@.messages.push(
                                    ChatMessageView { sender: pd.from, body: pd.message },
                                ));
                                assert(self@ == spec_append_message(
                                    old(self)@,
                                    spec_parse_message_data(
                                        spec_decode(raw@)->Ok_0.data.unwrap(),
                                    ).unwrap(),
                                ));
                            }
                            (true, None)
                        },
                        Err(_) => (false, Some(InboundError::MalformedPayload)),
                    }
                },
                MsgTypes::Register => (false, None),
            },
        }
    }

    /// Decides what to do with text the user submitted: a no-op when the
    /// text is blank, otherwise an outbound `message` envelope carrying
    /// the untrimmed original text, for the transport to encode and
    /// send. The session's own log is not touched: the message appears
    /// only once the server echoes it back.
    pub fn submit_outbound_message(&self, raw_text: &str) -> (r: Option<WireEnvelope>)
        ensures
            r is None <==> spec_is_blank(raw_text@),
            r is Some ==> r.unwrap()@ == (EnvelopeView {
                message_type: MsgTypes::Message,
                data_array: None,
                data: Some(raw_text@),
            }),
    {
        let v = str_chars(raw_text);
        let mut i: usize = 0;
        let mut blank = true;
        while i < v.len()
            invariant
                i <= v@.len(),
                v@ == raw_text@,
                blank == (forall|t: int| 0 <= t < i ==> is_json_ws(raw_text@[t])),
            decreases v@.len() - i,
        {
            let c = v[i];
            if !(c == ' ' || c == '\t' || c == '\n' || c == '\r') {
                blank = false;
            }
            i = i + 1;
        }
        if blank {
            None
        } else {
            let env = WireEnvelope {
                message_type: MsgTypes::Message,
                data_array: None,
                data: Some(raw_text.to_owned()),
            };
            proof {
                assert(env@.data_array =~~= None::<Seq<Seq<char>>>);
            }
            Some(env)
        }
    }
}

/// Accepts a username when it is long enough to register with: at least
/// three characters.
pub fn validate_username(name: &str) -> (r: bool)
    ensures
        r == (name@.len() >= 3),
{
    name.unicode_len() >= 3
}

} // verus!
