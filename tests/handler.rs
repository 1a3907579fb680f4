use unread_bell::connection::{Action, Connection, Event, Handshake, Hooks, Phase};
use unread_bell::model::{GuildNotifications, Notifications};
use unread_bell::store::Store;
use unread_bell::wire::{DecodeError, Packet};

fn snapshot_with_guild(name: &str, unread: u32) -> Notifications {
    let mut n = Notifications::new();
    n.guilds.insert("g1".to_string(), GuildNotifications { unread_count: unread, mention_count: 1, name: name.to_string() });
    n
}

fn update(name: &str, unread: u32, revive: bool) -> Event {
    Event::Message(Ok(Packet::Update { payload: snapshot_with_guild(name, unread), revive }))
}

/// Drives a handler as the server loop does, recording each hook call.
fn drive(hooks: Hooks, events: Vec<Event>, store: &mut Store) -> (Vec<String>, Phase) {
    let mut c = Connection::new(hooks);
    let mut calls = Vec::new();
    for e in events {
        match c.step(e) {
            Action::Apply { snapshot, notify } => {
                store.write(snapshot);
                if let Some(revive) = notify {
                    let seen = store.read().guilds.get("g1").map(|g| g.unread_count).unwrap_or(0);
                    calls.push(format!("update({},{})", revive, seen));
                }
            }
            Action::Close { hook, failed } => {
                if hook {
                    calls.push(format!("close({})", failed));
                }
            }
            Action::Drop(e) => calls.push(format!("drop({:?})", e)),
            Action::Fail => calls.push("fail".to_string()),
            Action::Read | Action::Report | Action::Leave => {}
        }
    }
    (calls, c.phase())
}

const BOTH: Hooks = Hooks { on_update: true, on_close: true };

#[test]
fn scenario_guild_update_applies_and_notifies_once() {
    let mut store = Store::new();
    let (calls, phase) = drive(BOTH, vec![Event::Handshake(Handshake::Accepted), update("Test Guild", 3, true)], &mut store);
    assert_eq!(calls, vec!["update(true,3)".to_string()]);
    assert_eq!(phase, Phase::Open);
    let g = store.read().guilds.get("g1").unwrap();
    assert_eq!((g.unread_count, g.mention_count, g.name.as_str()), (3, 1, "Test Guild"));
    assert_eq!(store.read().guilds.entries.len(), 1);
}

#[test]
fn scenario_close_without_messages() {
    let mut store = Store::new();
    let (calls, phase) = drive(BOTH, vec![Event::Handshake(Handshake::Accepted), Event::PeerClosed, Event::PeerClosed], &mut store);
    assert_eq!(calls, vec!["close(false)".to_string()]);
    assert_eq!(phase, Phase::Closed);
    assert!(store.read().guilds.get("g1").is_none());
}

#[test]
fn malformed_message_then_valid_update() {
    let mut store = Store::new();
    let (calls, phase) = drive(
        BOTH,
        vec![
            Event::Handshake(Handshake::Accepted),
            Event::Message(Err(DecodeError::InvalidEncoding)),
            Event::Message(Err(DecodeError::InvalidPayload)),
            update("G", 4, false),
        ],
        &mut store,
    );
    assert_eq!(calls, vec!["drop(InvalidEncoding)".to_string(), "drop(InvalidPayload)".to_string(), "update(false,4)".to_string()]);
    assert_eq!(phase, Phase::Open);
    assert_eq!(store.read().guilds.get("g1").unwrap().unread_count, 4);
}

#[test]
fn no_hooks_updates_and_closes() {
    let mut store = Store::new();
    let none = Hooks { on_update: false, on_close: false };
    let (calls, phase) = drive(none, vec![Event::Handshake(Handshake::Accepted), update("G", 2, true), Event::PeerClosed], &mut store);
    assert!(calls.is_empty());
    assert_eq!(phase, Phase::Closed);
    assert_eq!(store.read().guilds.get("g1").unwrap().unread_count, 2);
}

#[test]
fn updates_are_reported_in_order() {
    let mut store = Store::new();
    let (calls, _) = drive(
        BOTH,
        vec![Event::Handshake(Handshake::Accepted), update("G", 1, true), update("G", 2, false), update("G", 3, true)],
        &mut store,
    );
    assert_eq!(calls, vec!["update(true,1)".to_string(), "update(false,2)".to_string(), "update(true,3)".to_string()]);
}

#[test]
fn other_frames_and_readable_errors_keep_open() {
    let mut c = Connection::new(BOTH);
    assert!(matches!(c.step(Event::Handshake(Handshake::Accepted)), Action::Read));
    assert!(matches!(c.step(Event::OtherFrame), Action::Read));
    assert!(matches!(c.step(Event::TransportError { readable: true }), Action::Report));
    assert_eq!(c.phase(), Phase::Open);
    assert!(matches!(c.step(Event::TransportError { readable: false }), Action::Close { hook: true, failed: true }));
    assert_eq!(c.phase(), Phase::Closed);
    assert!(matches!(c.step(update("G", 1, true)), Action::Leave));
}

#[test]
fn probe_handshake_leaves_silently() {
    let mut c = Connection::new(BOTH);
    assert!(matches!(c.step(Event::Handshake(Handshake::Probe)), Action::Leave));
    assert_eq!(c.phase(), Phase::Closed);
    let mut d = Connection::new(BOTH);
    assert!(matches!(d.step(Event::Handshake(Handshake::Failed)), Action::Fail));
    assert_eq!(d.phase(), Phase::Closed);
    assert_eq!(d.hooks(), BOTH);
}

#[test]
fn last_write_wins() {
    let mut store = Store::new();
    assert!(store.read().guilds.get("g1").is_none());
    let mut a = snapshot_with_guild("A", 1);
    a.dms.insert("only_a".to_string(), unread_bell::model::DirectMessageNotifications {
        channel_id: "c".to_string(),
        unread_count: 1,
        last_message_id: "m".to_string(),
        username: "u".to_string(),
        discriminator: "d".to_string(),
    });
    store.write(a);
    store.write(snapshot_with_guild("B", 2));
    let g = store.read().guilds.get("g1").unwrap();
    assert_eq!((g.name.as_str(), g.unread_count), ("B", 2));
    assert!(store.read().dms.get("only_a").is_none());
}
