use yewchat::codec::{decode, decode_message_data, encode, DecodeError, MsgTypes, WireEnvelope};
use yewchat::projection::{render, MessagesPane, UsersPane};
use yewchat::reducer::{
    avatar_url, create_session, profile_of, validate_username, InboundError, SessionState,
};

fn avatar(name: &str) -> String {
    format!("https://avatars.dicebear.com/api/adventurer-neutral/{}.svg", name)
}

fn fresh_state() -> SessionState {
    create_session("carol").0
}

#[test]
fn decode_users_envelope() {
    let e = decode("{\"messageType\":\"users\",\"dataArray\":[\"alice\",\"bob\"],\"data\":null}")
        .unwrap();
    assert_eq!(e.message_type, MsgTypes::Users);
    assert_eq!(e.data_array, Some(vec!["alice".to_string(), "bob".to_string()]));
    assert_eq!(e.data, None);
}

#[test]
fn decode_message_envelope_with_escaped_payload() {
    let e = decode(
        "{\"messageType\":\"message\",\"dataArray\":null,\"data\":\"{\\\"from\\\":\\\"alice\\\",\\\"message\\\":\\\"hello.gif\\\"}\"}",
    )
    .unwrap();
    assert_eq!(e.message_type, MsgTypes::Message);
    assert_eq!(e.data_array, None);
    assert_eq!(e.data, Some("{\"from\":\"alice\",\"message\":\"hello.gif\"}".to_string()));
    let md = decode_message_data(e.data.as_ref().unwrap()).unwrap();
    assert_eq!(md.from, "alice");
    assert_eq!(md.message, "hello.gif");
}

#[test]
fn decode_tolerates_whitespace() {
    let e = decode(
        " {\n  \"messageType\" : \"users\" ,\r\n  \"dataArray\" : [ \"a\" , \"b\" ] ,\t\"data\" : null\n} ",
    )
    .unwrap();
    assert_eq!(e.message_type, MsgTypes::Users);
    assert_eq!(e.data_array, Some(vec!["a".to_string(), "b".to_string()]));
}

#[test]
fn decode_rejects_non_json() {
    assert_eq!(decode("not json"), Err(DecodeError::Malformed));
    assert_eq!(decode(""), Err(DecodeError::Malformed));
    assert_eq!(decode("{}"), Err(DecodeError::Malformed));
}

#[test]
fn decode_handles_the_named_escapes() {
    let e = decode(
        "{\"messageType\":\"register\",\"dataArray\":null,\"data\":\"a\\/b\\t\\n\\r\\b\\f\\\\\\\"\"}",
    )
    .unwrap();
    assert_eq!(e.data, Some("a/b\t\n\r\u{8}\u{c}\\\"".to_string()));
}

#[test]
fn decode_rejects_unknown_escape() {
    let r = decode("{\"messageType\":\"register\",\"dataArray\":null,\"data\":\"\\u0041\"}");
    assert_eq!(r, Err(DecodeError::Malformed));
}

#[test]
fn decode_rejects_reordered_fields() {
    let r = decode("{\"data\":null,\"messageType\":\"users\",\"dataArray\":[\"a\"]}");
    assert_eq!(r, Err(DecodeError::Malformed));
}

#[test]
fn decode_rejects_unknown_kind() {
    let r = decode("{\"messageType\":\"presence\",\"dataArray\":null,\"data\":\"x\"}");
    assert_eq!(r, Err(DecodeError::UnknownKind));
}

#[test]
fn decode_rejects_wrong_shape() {
    let r = decode("{\"messageType\":\"users\",\"dataArray\":null,\"data\":null}");
    assert_eq!(r, Err(DecodeError::ShapeMismatch));
    let r = decode("{\"messageType\":\"message\",\"dataArray\":null,\"data\":null}");
    assert_eq!(r, Err(DecodeError::ShapeMismatch));
    let r = decode("{\"messageType\":\"register\",\"dataArray\":null,\"data\":null}");
    assert_eq!(r, Err(DecodeError::ShapeMismatch));
}

#[test]
fn encode_register_envelope_is_canonical() {
    let (_, register) = create_session("alice");
    assert_eq!(
        register,
        "{\"messageType\":\"register\",\"dataArray\":null,\"data\":\"alice\"}"
    );
}

#[test]
fn encode_escapes_special_characters() {
    let env = WireEnvelope {
        message_type: MsgTypes::Message,
        data_array: None,
        data: Some("a\"b\\c\nd".to_string()),
    };
    let s = encode(&env);
    assert_eq!(
        s,
        "{\"messageType\":\"message\",\"dataArray\":null,\"data\":\"a\\\"b\\\\c\\nd\"}"
    );
    assert_eq!(decode(&s).unwrap(), env);
}

#[test]
fn encode_users_envelope_with_array() {
    let env = WireEnvelope {
        message_type: MsgTypes::Users,
        data_array: Some(vec!["a".to_string(), "b".to_string()]),
        data: None,
    };
    let s = encode(&env);
    assert_eq!(s, "{\"messageType\":\"users\",\"dataArray\":[\"a\",\"b\"],\"data\":null}");
    assert_eq!(decode(&s).unwrap(), env);
}

#[test]
fn create_session_starts_empty() {
    let (st, _) = create_session("alice");
    assert_eq!(st.username, "alice");
    assert!(st.users.is_empty());
    assert!(st.messages.is_empty());
}

#[test]
fn users_envelope_replaces_roster_and_rerenders() {
    let mut st = fresh_state();
    let r = st.apply_inbound("{\"messageType\":\"users\",\"dataArray\":[\"alice\",\"bob\"],\"data\":null}");
    assert_eq!(r, (true, None));
    assert_eq!(st.users.len(), 2);
    assert_eq!(st.users[0].name, "alice");
    assert_eq!(st.users[0].avatar, avatar("alice"));
    assert_eq!(st.users[1].name, "bob");
    assert_eq!(st.users[1].avatar, avatar("bob"));

    // A later snapshot replaces wholesale: no merge with the prior roster.
    let r = st.apply_inbound("{\"messageType\":\"users\",\"dataArray\":[\"dave\"],\"data\":null}");
    assert_eq!(r, (true, None));
    assert_eq!(st.users.len(), 1);
    assert_eq!(st.users[0].name, "dave");
}

#[test]
fn empty_users_envelope_still_rerenders() {
    let mut st = fresh_state();
    st.apply_inbound("{\"messageType\":\"users\",\"dataArray\":[\"alice\"],\"data\":null}");
    let r = st.apply_inbound("{\"messageType\":\"users\",\"dataArray\":[],\"data\":null}");
    assert_eq!(r, (true, None));
    assert!(st.users.is_empty());
}

#[test]
fn users_envelope_is_idempotent() {
    let snapshot = "{\"messageType\":\"users\",\"dataArray\":[\"alice\",\"bob\"],\"data\":null}";
    let mut once = fresh_state();
    once.apply_inbound(snapshot);
    let mut twice = fresh_state();
    twice.apply_inbound(snapshot);
    twice.apply_inbound(snapshot);
    assert_eq!(once.users, twice.users);
}

#[test]
fn message_envelope_appends_to_log() {
    let mut st = fresh_state();
    let raw = "{\"messageType\":\"message\",\"dataArray\":null,\"data\":\"{\\\"from\\\":\\\"alice\\\",\\\"message\\\":\\\"hi there\\\"}\"}";
    let r = st.apply_inbound(raw);
    assert_eq!(r, (true, None));
    assert_eq!(st.messages.len(), 1);
    assert_eq!(st.messages[0].sender, "alice");
    assert_eq!(st.messages[0].body, "hi there");

    let raw2 = "{\"messageType\":\"message\",\"dataArray\":null,\"data\":\"{\\\"from\\\":\\\"bob\\\",\\\"message\\\":\\\"hey\\\"}\"}";
    let r = st.apply_inbound(raw2);
    assert_eq!(r, (true, None));
    assert_eq!(st.messages.len(), 2);
    assert_eq!(st.messages[1].sender, "bob");
    assert_eq!(st.messages[1].body, "hey");
}

#[test]
fn register_envelope_inbound_is_noop() {
    let mut st = fresh_state();
    let before = st.clone();
    let r = st.apply_inbound("{\"messageType\":\"register\",\"dataArray\":null,\"data\":\"alice\"}");
    assert_eq!(r, (false, None));
    assert_eq!(st, before);
}

#[test]
fn malformed_envelope_leaves_state_unchanged() {
    let mut st = fresh_state();
    st.apply_inbound("{\"messageType\":\"users\",\"dataArray\":[\"alice\"],\"data\":null}");
    let before = st.clone();
    let r = st.apply_inbound("not json");
    assert_eq!(r, (false, Some(InboundError::MalformedEnvelope)));
    assert_eq!(st, before);
}

#[test]
fn malformed_nested_payload_is_reported_not_fatal() {
    let mut st = fresh_state();
    let before = st.clone();
    let raw = "{\"messageType\":\"message\",\"dataArray\":null,\"data\":\"boom\"}";
    let r = st.apply_inbound(raw);
    assert_eq!(r, (false, Some(InboundError::MalformedPayload)));
    assert_eq!(st, before);
}

#[test]
fn submit_blank_is_noop() {
    let st = fresh_state();
    assert_eq!(st.submit_outbound_message(""), None);
    assert_eq!(st.submit_outbound_message("   "), None);
    assert_eq!(st.submit_outbound_message(" \t\r\n "), None);
}

#[test]
fn submit_keeps_text_untrimmed() {
    let st = fresh_state();
    let env = st.submit_outbound_message(" hi ").unwrap();
    assert_eq!(env.message_type, MsgTypes::Message);
    assert_eq!(env.data_array, None);
    assert_eq!(env.data, Some(" hi ".to_string()));
}

#[test]
fn submit_does_not_touch_the_log() {
    let st = fresh_state();
    let _ = st.submit_outbound_message("hello");
    assert!(st.messages.is_empty());
}

#[test]
fn render_empty_state_shows_placeholders() {
    let st = fresh_state();
    let t = render(&st);
    assert_eq!(t.users, UsersPane::Waiting);
    assert_eq!(t.messages, MessagesPane::NoMessages);
}

#[test]
fn render_roster_in_snapshot_order() {
    let mut st = fresh_state();
    st.apply_inbound("{\"messageType\":\"users\",\"dataArray\":[\"alice\",\"bob\"],\"data\":null}");
    let t = render(&st);
    match t.users {
        UsersPane::Roster(us) => {
            assert_eq!(us.len(), 2);
            assert_eq!(us[0].name, "alice");
            assert_eq!(us[1].name, "bob");
        }
        UsersPane::Waiting => panic!("roster expected"),
    }
}

#[test]
fn render_gif_message_as_image() {
    let mut st = fresh_state();
    st.apply_inbound("{\"messageType\":\"users\",\"dataArray\":[\"alice\"],\"data\":null}");
    st.apply_inbound(
        "{\"messageType\":\"message\",\"dataArray\":null,\"data\":\"{\\\"from\\\":\\\"alice\\\",\\\"message\\\":\\\"hello.gif\\\"}\"}",
    );
    let t = render(&st);
    match t.messages {
        MessagesPane::Log(ms) => {
            assert_eq!(ms.len(), 1);
            assert!(ms[0].is_image);
            assert_eq!(ms[0].body, "hello.gif");
            assert_eq!(ms[0].profile.name, "alice");
            assert_eq!(ms[0].profile.avatar, avatar("alice"));
        }
        MessagesPane::NoMessages => panic!("log expected"),
    }
}

#[test]
fn render_plain_text_message() {
    let mut st = fresh_state();
    st.apply_inbound(
        "{\"messageType\":\"message\",\"dataArray\":null,\"data\":\"{\\\"from\\\":\\\"alice\\\",\\\"message\\\":\\\"see gif\\\"}\"}",
    );
    let t = render(&st);
    match t.messages {
        MessagesPane::Log(ms) => {
            assert!(!ms[0].is_image);
            assert_eq!(ms[0].body, "see gif");
        }
        MessagesPane::NoMessages => panic!("log expected"),
    }
}

#[test]
fn render_absent_sender_gets_fallback_and_roster_is_untouched() {
    let mut st = fresh_state();
    st.apply_inbound("{\"messageType\":\"users\",\"dataArray\":[\"bob\"],\"data\":null}");
    st.apply_inbound(
        "{\"messageType\":\"message\",\"dataArray\":null,\"data\":\"{\\\"from\\\":\\\"ghost\\\",\\\"message\\\":\\\"boo\\\"}\"}",
    );
    let roster_before = st.users.clone();
    let t = render(&st);
    match t.messages {
        MessagesPane::Log(ms) => {
            assert_eq!(ms[0].profile.name, "ghost");
            assert_eq!(ms[0].profile.avatar, avatar("ghost"));
        }
        MessagesPane::NoMessages => panic!("log expected"),
    }
    assert_eq!(st.users, roster_before);
    assert_eq!(st.users.len(), 1);
}

#[test]
fn avatar_url_is_the_fixed_template() {
    assert_eq!(
        avatar_url("alice"),
        "https://avatars.dicebear.com/api/adventurer-neutral/alice.svg"
    );
    let p = profile_of("alice");
    assert_eq!(p.name, "alice");
    assert_eq!(p.avatar, avatar("alice"));
}

#[test]
fn validate_username_needs_three_characters() {
    assert!(!validate_username(""));
    assert!(!validate_username("ab"));
    assert!(validate_username("abc"));
    assert!(validate_username("alice"));
}
