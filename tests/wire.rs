use unread_bell::connection::{Action, Connection, Event, Handshake, Hooks};
use unread_bell::model::{GuildNotifications, IdMap, Notifications};
use unread_bell::store::Store;
use unread_bell::wire::{decode_frame, decode_packet, encode_packet, DecodeError, Json, Packet};

fn to_json(v: &serde_json::Value) -> Json {
    match v {
        serde_json::Value::Null => Json::Null,
        serde_json::Value::Bool(b) => Json::Bool(*b),
        serde_json::Value::Number(n) => match (n.as_u64(), n.as_i64()) {
            (Some(u), _) => Json::UInt(u),
            (None, Some(i)) => Json::NegInt(i),
            _ => Json::Fractional,
        },
        serde_json::Value::String(s) => Json::Str(s.clone()),
        serde_json::Value::Array(items) => Json::Array(items.iter().map(to_json).collect()),
        serde_json::Value::Object(fs) => {
            Json::Object(fs.iter().map(|(k, v)| (k.clone(), to_json(v))).collect())
        }
    }
}

fn decode_text(text: &str) -> Result<Packet, DecodeError> {
    let bytes = decode_frame(text)?;
    match serde_json::from_slice::<serde_json::Value>(&bytes) {
        Ok(v) => decode_packet(&to_json(&v)),
        Err(_) => Err(DecodeError::InvalidPayload),
    }
}

fn decode_str(json: &str) -> Result<Packet, DecodeError> {
    let v: serde_json::Value = serde_json::from_str(json).unwrap();
    decode_packet(&to_json(&v))
}

const GUILD_UPDATE: &str = r#"{"type":"Update","payload":{"dms":{},"groups":{},"guilds":{"g1":{"unreadCount":3,"mentionCount":1,"name":"Test Guild"}}},"revive":true}"#;

#[test]
fn frame_decodes_base64() {
    assert_eq!(decode_frame("aGVsbG8=").unwrap(), b"hello".to_vec());
    assert_eq!(decode_frame("").unwrap(), Vec::<u8>::new());
}

#[test]
fn frame_rejects_bad_base64() {
    assert_eq!(decode_frame("not base64!").unwrap_err(), DecodeError::InvalidEncoding);
    assert_eq!(decode_frame("{\"type\":\"Update\"}").unwrap_err(), DecodeError::InvalidEncoding);
}

#[test]
fn guild_update_scenario_decodes() {
    let text = base64::encode(GUILD_UPDATE);
    match decode_text(&text).unwrap() {
        Packet::Update { payload, revive } => {
            assert!(revive);
            let g = payload.guilds.get("g1").unwrap();
            assert_eq!(g.unread_count, 3);
            assert_eq!(g.mention_count, 1);
            assert_eq!(g.name, "Test Guild");
            assert!(payload.guilds.get("g2").is_none());
            assert_eq!(payload.dms.entries.len(), 0);
            assert_eq!(payload.groups.entries.len(), 0);
        }
    }
}

#[test]
fn full_snapshot_decodes() {
    let json = r#"{"type":"Update","revive":false,"payload":{
        "dms":{"d1":{"channelId":"c1","unreadCount":2,"lastMessageId":"m9","username":"ann","discriminator":"0001"}},
        "groups":{"gr":{"unreadCount":7,"lastMessageId":"m3","name":"crew","users":["ann","bob"]}},
        "guilds":{}}}"#;
    match decode_str(json).unwrap() {
        Packet::Update { payload, revive } => {
            assert!(!revive);
            let d = payload.dms.get("d1").unwrap();
            assert_eq!(d.channel_id, "c1");
            assert_eq!(d.unread_count, 2);
            assert_eq!(d.last_message_id, "m9");
            assert_eq!(d.username, "ann");
            assert_eq!(d.discriminator, "0001");
            let g = payload.groups.get("gr").unwrap();
            assert_eq!(g.unread_count, 7);
            assert_eq!(g.name, "crew");
            assert_eq!(g.users, vec!["ann".to_string(), "bob".to_string()]);
        }
    }
}

#[test]
fn guild_update_scenario_end_to_end() {
    let mut store = Store::new();
    let mut c = Connection::new(Hooks { on_update: true, on_close: true });
    assert!(matches!(c.step(Event::Handshake(Handshake::Accepted)), Action::Read));
    let mut update_calls = Vec::new();
    match c.step(Event::Message(decode_text(&base64::encode(GUILD_UPDATE)))) {
        Action::Apply { snapshot, notify } => {
            store.write(snapshot);
            if let Some(revive) = notify {
                update_calls.push(revive);
            }
        }
        other => panic!("unexpected action {:?}", other),
    }
    assert_eq!(update_calls, vec![true]);
    let g = store.read().guilds.get("g1").unwrap();
    assert_eq!((g.unread_count, g.mention_count, g.name.as_str()), (3, 1, "Test Guild"));
    assert_eq!(store.read().guilds.entries.len(), 1);
}

#[test]
fn unknown_type_is_rejected() {
    let json = r#"{"type":"Delete","payload":{"dms":{},"groups":{},"guilds":{}},"revive":true}"#;
    assert_eq!(decode_str(json).unwrap_err(), DecodeError::UnknownPacketType);
}

#[test]
fn missing_or_mistyped_fields_are_rejected() {
    let cases = [
        r#"{"payload":{"dms":{},"groups":{},"guilds":{}},"revive":true}"#,
        r#"{"type":3,"payload":{"dms":{},"groups":{},"guilds":{}},"revive":true}"#,
        r#"{"type":"Update","payload":{"dms":{},"groups":{},"guilds":{}}}"#,
        r#"{"type":"Update","payload":{"dms":{},"groups":{},"guilds":{}},"revive":1}"#,
        r#"{"type":"Update","payload":{"dms":{},"groups":{}},"revive":true}"#,
        r#"{"type":"Update","revive":true}"#,
        r#"{"type":"Update","payload":{"dms":{},"groups":{},"guilds":{"g":{"unreadCount":1,"name":"x"}}},"revive":true}"#,
        r#"{"type":"Update","payload":{"dms":{},"groups":{},"guilds":{"g":{"unreadCount":-1,"mentionCount":0,"name":"x"}}},"revive":true}"#,
        r#"{"type":"Update","payload":{"dms":{},"groups":{},"guilds":{"g":{"unreadCount":1.5,"mentionCount":0,"name":"x"}}},"revive":true}"#,
        r#"{"type":"Update","payload":{"dms":{},"groups":{},"guilds":{"g":{"unreadCount":4294967296,"mentionCount":0,"name":"x"}}},"revive":true}"#,
        r#"{"type":"Update","payload":{"dms":{},"groups":{"g":{"unreadCount":1,"lastMessageId":"m","name":"n","users":["a",2]}},"guilds":{}},"revive":true}"#,
        r#"[1,2,3]"#,
    ];
    for c in cases.iter() {
        assert_eq!(decode_str(c).unwrap_err(), DecodeError::InvalidPayload, "{}", c);
    }
}

#[test]
fn non_json_text_is_invalid_payload() {
    let text = base64::encode("this is not json");
    assert_eq!(decode_text(&text).unwrap_err(), DecodeError::InvalidPayload);
}

#[test]
fn largest_count_is_accepted() {
    let json = r#"{"type":"Update","payload":{"dms":{},"groups":{},"guilds":{"g":{"unreadCount":4294967295,"mentionCount":0,"name":""}}},"revive":false}"#;
    match decode_str(json).unwrap() {
        Packet::Update { payload, .. } => {
            assert_eq!(payload.guilds.get("g").unwrap().unread_count, u32::MAX);
        }
    }
}

#[test]
fn unknown_members_are_ignored() {
    let json = r#"{"type":"Update","extra":null,"payload":{"dms":{},"groups":{},"guilds":{"g":{"unreadCount":0,"mentionCount":0,"name":"n","icon":"x"}}},"revive":false}"#;
    assert!(decode_str(json).is_ok());
}

#[test]
fn encoded_packet_decodes_to_same_snapshot() {
    let mut guilds: IdMap<GuildNotifications> = IdMap::new();
    guilds.insert("g1".to_string(), GuildNotifications { unread_count: 3, mention_count: 1, name: "Test Guild".to_string() });
    guilds.insert("g2".to_string(), GuildNotifications { unread_count: 0, mention_count: 9, name: "Other".to_string() });
    let mut payload = Notifications::new();
    payload.guilds = guilds;
    let packet = Packet::Update { payload, revive: true };
    match decode_packet(&encode_packet(&packet)).unwrap() {
        Packet::Update { payload, revive } => {
            assert!(revive);
            assert_eq!(payload.guilds.get("g1").unwrap().mention_count, 1);
            assert_eq!(payload.guilds.get("g2").unwrap().name, "Other");
            assert!(payload.dms.get("g1").is_none());
        }
    }
}

#[test]
fn id_map_later_insert_replaces() {
    let mut m: IdMap<GuildNotifications> = IdMap::new();
    assert!(m.get("a").is_none());
    m.insert("a".to_string(), GuildNotifications { unread_count: 1, mention_count: 0, name: "one".to_string() });
    m.insert("b".to_string(), GuildNotifications { unread_count: 2, mention_count: 0, name: "two".to_string() });
    m.insert("a".to_string(), GuildNotifications { unread_count: 5, mention_count: 0, name: "five".to_string() });
    assert_eq!(m.get("a").unwrap().unread_count, 5);
    assert_eq!(m.get("b").unwrap().name, "two");
}
