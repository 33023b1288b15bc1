use mafia_bot::groupme::json::{json_path, split_path, Json};
use mafia_bot::mafia::role::Pid;
use mafia_bot::groupme::api::Payload;
use mafia_bot::groupme::group::{Group, Member};
use mafia_bot::groupme::ids::{GroupId, MessageId, UserId, MODERATOR_UID};
use mafia_bot::groupme::push::{Channel, Data, Ext, PushId, PushMessage};
use mafia_bot::groupme::subscriber::{route, Routed, Subscriber, SubscriberAction, RENEW_SECS};

#[test]
fn message_ids_step() {
    assert_eq!(MessageId(173704863488783901).prev(), "173704863488783900");
    assert_eq!(MessageId(173704863488783901).next(), "173704863488783902");
    assert_eq!(MessageId(10).prev(), "9");
    assert_eq!(MessageId(9).next(), "10");
}

#[test]
fn push_ids_count_up_and_print_in_hex() {
    let mut id = PushId::new();
    assert_eq!(id.inc_and_clone(), PushId(1));
    assert_eq!(id.inc_and_clone(), PushId(2));
    assert_eq!(PushId(255).text(), "ff");
    assert_eq!(PushId(0).text(), "0");
    let m = PushMessage::new(&mut id, Channel::Subscribe);
    assert_eq!(m.id, PushId(3));
    assert_eq!(id, PushId(3));
}

#[test]
fn channels_and_paths() {
    assert_eq!(Channel::Handshake.path(), "/meta/handshake");
    assert_eq!(Channel::Moderator.path(), format!("/user/{}", MODERATOR_UID));
    assert_eq!(Channel::from_path("/meta/connect"), Channel::Connect);
    assert_eq!(Channel::from_path("/user/45234"), Channel::Unknown("/user/45234".to_string()));
    for c in [Channel::Handshake, Channel::Subscribe, Channel::Connect, Channel::Moderator] {
        assert_eq!(Channel::from_path(&c.path()), c);
    }
}

#[test]
fn push_message_builders() {
    let mut id = PushId::new();
    let m = PushMessage::new(&mut id, Channel::Handshake)
        .version("1.0")
        .supported_connection_types(&["long-polling", "websocket"])
        .client_id("abc")
        .subscription("/user/1")
        .connection_type("websocket")
        .ext(Ext::new("token".to_string(), 7));
    assert_eq!(m.version.as_deref(), Some("1.0"));
    assert_eq!(
        m.supported_connection_types,
        Some(vec!["long-polling".to_string(), "websocket".to_string()])
    );
    assert_eq!(m.client_id.as_deref(), Some("abc"));
    assert_eq!(m.subscription.as_deref(), Some("/user/1"));
    assert_eq!(m.connection_type.as_deref(), Some("websocket"));
    assert_eq!(m.ext.as_ref().map(|e| e.timestamp), Some(7));
    assert!(m.data().is_none());
}

#[test]
fn groups_know_names() {
    let members = vec![
        Member::new("Ann".to_string(), UserId(1)),
        Member::new("Bob".to_string(), UserId(2)),
        Member::from(("Ann2".to_string(), UserId(1))),
    ];
    let mut g = Group::from_members(GroupId(5), members);
    assert_eq!(g.id(), GroupId(5));
    assert_eq!(g.name(&UserId(1)), Some("Ann2".to_string()));
    assert_eq!(g.name(&UserId(3)), None);
    assert_eq!(g.names().len(), 2);
    assert_eq!(g.get_member(&UserId(2)).map(|m| m.nickname.clone()), Some("Bob".to_string()));
    assert!(g.get_member(&UserId(9)).is_none());
    g.remember_names(&vec![Member::new("Cy".to_string(), UserId(3))]);
    assert_eq!(g.name(&UserId(3)), Some("Cy".to_string()));
}

#[test]
fn payloads_get_fresh_ids() {
    let a = Payload::new_message("hi".to_string());
    let b = Payload::new_dm(&UserId(4), "psst".to_string());
    let (ga, gb) = match (&a, &b) {
        (Payload::Message { source_guid: ga, text, .. }, Payload::DirectMsg { source_guid: gb, recipient_id, .. }) => {
            assert_eq!(text, "hi");
            assert_eq!(*recipient_id, UserId(4));
            (ga.clone(), gb.clone())
        }
        _ => panic!("wrong payloads"),
    };
    assert_eq!(ga.len(), 36);
    assert_eq!(ga.chars().nth(14), Some('4'));
    assert_ne!(ga, gb);
}

#[test]
fn test_channels() {
    let channels = vec![
        Channel::Handshake,
        Channel::Subscribe,
        Channel::Connect,
        Channel::Unknown("/user/45234".to_string()),
    ];
    let expected = vec!["/meta/handshake", "/meta/subscribe", "/meta/connect", "/user/45234"];
    for (channel, path) in channels.iter().zip(expected.iter()) {
        let channel_str = channel.path();
        println!("{:?} => {:?}", channel, channel_str);
        assert_eq!(channel_str, *path);
    }

    let channel_strs = vec!["/meta/handshake", "/meta/subscribe", "/meta/connect", "/user/45234"];
    for (channel_str, channel) in channel_strs.iter().zip(channels.iter()) {
        let parsed = Channel::from_path(channel_str);
        println!("{:?} => {:?}", channel_str, parsed);
        assert_eq!(parsed, *channel);
    }
}

#[test]
fn ids_are_written_in_decimal() {
    assert_eq!(UserId(21642197).text(), "21642197");
    assert_eq!(GroupId(105362524).text(), "105362524");
    assert_eq!(MessageId(0).text(), "0");
    assert_eq!(Pid::from(UserId(5)), Pid(5));
}

#[test]
fn handshake_then_one_subscription() {
    use_subscriber();
}

fn handshake_answer(client_id: &str) -> PushMessage {
    let mut m = PushMessage::default();
    m.channel = Channel::Handshake;
    m.client_id = Some(client_id.to_string());
    m
}

fn use_subscriber() {
    let mut s = Subscriber::new();
    let req = s.handshake();
    assert_eq!(req.id, PushId(1));
    assert_eq!(req.channel, Channel::Handshake);
    assert_eq!(req.version.as_deref(), Some("1.0"));
    assert_eq!(req.supported_connection_types, Some(vec!["websocket".to_string()]));

    // A message on another channel is ignored.
    let mut other = PushMessage::default();
    other.channel = Channel::Connect;
    assert!(s.on_meta(&other, None).is_empty());

    let acts = s.on_meta(&handshake_answer("abc"), Some(Ext::new("tok".to_string(), 5)));
    assert_eq!(acts.len(), 2);
    match &acts[0] {
        SubscriberAction::Send(m) => {
            assert_eq!(m.id, PushId(2));
            assert_eq!(m.channel, Channel::Subscribe);
            assert_eq!(m.client_id.as_deref(), Some("abc"));
            assert_eq!(m.subscription.as_deref(), Some("/user/43040067"));
            assert_eq!(m.ext, Some(Ext::new("tok".to_string(), 5)));
        }
        other => panic!("expected a subscription, got {:?}", other),
    }
    assert!(matches!(acts[1], SubscriberAction::Sleep { secs: RENEW_SECS }));
    assert_eq!(RENEW_SECS, 45 * 60);

    // An answer that is not awaited is ignored.
    assert!(s.on_meta(&handshake_answer("late"), None).is_empty());

    // After the renewal only the handshake is made again.
    let req = s.handshake();
    assert_eq!(req.id, PushId(3));
    let acts = s.on_meta(&handshake_answer("def"), None);
    assert_eq!(acts.len(), 1);
    assert!(matches!(acts[0], SubscriberAction::Sleep { secs: RENEW_SECS }));
}

#[test]
fn pushed_messages_are_routed_by_channel() {
    let mut m = PushMessage::default();
    m.channel = Channel::Moderator;
    m.data = Some(Data::Unknown);
    assert!(matches!(route(m), Routed::Listeners(Data::Unknown)));
    let mut m = PushMessage::default();
    m.channel = Channel::Handshake;
    assert!(matches!(route(m), Routed::Meta(PushMessage { channel: Channel::Handshake, .. })));
}

#[test]
fn ids_read_back_from_their_text() {
    assert_eq!(MessageId::from_text("173704863488783901"), Some(MessageId(173704863488783901)));
    assert_eq!(MessageId::from_text("+42"), Some(MessageId(42)));
    assert_eq!(MessageId::from_text(""), None);
    assert_eq!(MessageId::from_text("+"), None);
    assert_eq!(MessageId::from_text("12a"), None);
    assert_eq!(MessageId::from_text("-1"), None);
    assert_eq!(MessageId::from_text("340282366920938463463374607431768211455"), Some(MessageId(u128::MAX)));
    assert_eq!(MessageId::from_text("340282366920938463463374607431768211456"), None);
    assert_eq!(UserId::from_text("18446744073709551615"), Some(UserId(u64::MAX)));
    assert_eq!(UserId::from_text("18446744073709551616"), None);
    assert_eq!(GroupId::from_text("105362524"), Some(GroupId(105362524)));
    // The next and previous ids undo each other.
    let m = MessageId(999);
    assert_eq!(MessageId::from_text(&m.next()).unwrap().prev(), m.text());
    assert_eq!(MessageId::from_text(&m.prev()).unwrap().next(), m.text());
}

#[test]
fn dotted_paths_split_at_each_dot() {
    assert_eq!(split_path("response.messages.0"), vec!["response", "messages", "0"]);
    assert_eq!(split_path(""), vec![""]);
    assert_eq!(split_path("a..b"), vec!["a", "", "b"]);
}

fn sample() -> Json {
    Json::Object(vec![(
        "response".to_string(),
        Json::Object(vec![
            ("id".to_string(), Json::Str("old".to_string())),
            ("flag".to_string(), Json::Bool(true)),
            ("id".to_string(), Json::Str("5".to_string())),
            (
                "messages".to_string(),
                Json::Array(vec![Json::Number("7".to_string()), Json::Str("x".to_string())]),
            ),
        ]),
    )])
}

#[test]
fn paths_walk_objects_and_arrays() {
    let v = sample();
    assert!(matches!(json_path(&v, "response.id"), Ok(Json::Str(s)) if s == "5"));
    assert!(matches!(json_path(&v, "response.messages.0"), Ok(Json::Number(n)) if n == "7"));
    assert!(matches!(json_path(&v, "response.messages.+1"), Ok(Json::Str(s)) if s == "x"));
    assert!(matches!(json_path(&v, "response.messages.9"), Ok(Json::Null)));
    assert!(matches!(json_path(&v, "response.missing"), Ok(Json::Null)));
    assert!(matches!(json_path(&v, "response.messages.1.0"), Ok(Json::Null)));
}

#[test]
fn paths_through_plain_values_fail() {
    let v = sample();
    assert!(json_path(&v, "response.flag.x").is_err());
    assert!(json_path(&v, "response.missing.x").is_err());
    assert!(json_path(&v, "response.messages.0.x").is_err());
}

#[test]
fn walking_a_joined_path_walks_each_part() {
    let v = sample();
    let mid = json_path(&v, "response.messages").unwrap();
    assert!(matches!(json_path(mid, "1"), Ok(Json::Str(s)) if s == "x"));
    assert!(matches!(json_path(&v, "response.messages.1"), Ok(Json::Str(s)) if s == "x"));
    assert!(json_path(&v, "response.flag").is_ok());
    assert!(json_path(json_path(&v, "response.flag").unwrap(), "x").is_err());
    assert!(json_path(&v, "response.flag.x").is_err());
}
