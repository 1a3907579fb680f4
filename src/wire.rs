use vstd::prelude::*;
use vstd::string::StringSliceAdditionalSpecFns;
use crate::model::{
    names_of, DirectMessageNotifications, DirectMessageView, GroupNotifications, GroupView,
    GuildNotifications, GuildView, IdMap, Notifications, NotificationsView,
};

verus! {

/// A JSON document as the decoder reads it. Numbers that are not integers
/// carry no value: no field of the protocol accepts them.
#[derive(Debug)]
pub enum Json {
    Null,
    Bool(bool),
    UInt(u64),
    NegInt(i64),
    Fractional,
    Str(String),
    Array(Vec<Json>),
    Object(Vec<(String, Json)>),
}

/// Why an inbound message was dropped.
#[derive(PartialEq, Eq, Structural, Clone, Copy, Debug)]
pub enum DecodeError {
    InvalidEncoding,
    InvalidPayload,
    UnknownPacketType,
}

/// A decoded inbound message.
#[derive(Debug)]
pub enum Packet {
    Update { payload: Notifications, revive: bool },
}

pub ghost enum PacketView {
    Update { payload: NotificationsView, revive: bool },
}

impl View for Packet {
    type V = PacketView;

    open spec fn view(&self) -> PacketView {
        match self {
            Packet::Update { payload, revive } => PacketView::Update { payload: payload@, revive: *revive },
        }
    }
}

/// The value of `key` among the members of an object; a later member
/// shadows an earlier one of the same name.
pub open spec fn field(fs: Seq<(String, Json)>, key: Seq<char>) -> Option<Json>
    decreases fs.len(),
{
    if fs.len() == 0 {
        None
    } else if fs.last().0@ == key {
        Some(fs.last().1)
    } else {
        field(fs.drop_last(), key)
    }
}

/// A member added at the end of an object shadows the earlier ones.
pub broadcast proof fn lemma_field_push(fs: Seq<(String, Json)>, member: (String, Json), key: Seq<char>)
    ensures
        #[trigger] field(fs.push(member), key) == if member.0@ == key {
            Some(member.1)
        } else {
            field(fs, key)
        },
{
    assert(fs.push(member).drop_last() =~= fs);
}

/// Two texts that differ at one position differ.
proof fn lemma_differ_at(a: Seq<char>, b: Seq<char>, i: int)
    requires
        0 <= i < a.len(),
        i < b.len(),
        a[i] != b[i],
    ensures
        a != b,
{
}

pub open spec fn u32_of(j: Option<Json>) -> Option<u32> {
    match j {
        Some(Json::UInt(n)) => if n <= u32::MAX {
            Some(n as u32)
        } else {
            None
        },
        _ => None,
    }
}

pub open spec fn text_of(j: Option<Json>) -> Option<Seq<char>> {
    match j {
        Some(Json::Str(s)) => Some(s@),
        _ => None,
    }
}

pub open spec fn flag_of(j: Option<Json>) -> Option<bool> {
    match j {
        Some(Json::Bool(b)) => Some(b),
        _ => None,
    }
}

pub open spec fn texts_of(items: Seq<Json>) -> Option<Seq<Seq<char>>>
    decreases items.len(),
{
    if items.len() == 0 {
        Some(Seq::empty())
    } else {
        match (texts_of(items.drop_last()), text_of(Some(items.last()))) {
            (Some(init), Some(t)) => Some(init.push(t)),
            _ => None,
        }
    }
}

pub open spec fn text_list_of(j: Option<Json>) -> Option<Seq<Seq<char>>> {
    match j {
        Some(Json::Array(items)) => texts_of(items@),
        _ => None,
    }
}

pub open spec fn dm_of(j: Json) -> Option<DirectMessageView> {
    match j {
        Json::Object(fs) => {
            let channel_id = text_of(field(fs@, "channelId"@));
            let unread_count = u32_of(field(fs@, "unreadCount"@));
            let last_message_id = text_of(field(fs@, "lastMessageId"@));
            let username = text_of(field(fs@, "username"@));
            let discriminator = text_of(field(fs@, "discriminator"@));
            if channel_id is Some && unread_count is Some && last_message_id is Some
                && username is Some && discriminator is Some {
                Some(
                    DirectMessageView {
                        channel_id: channel_id.unwrap(),
                        unread_count: unread_count.unwrap(),
                        last_message_id: last_message_id.unwrap(),
                        username: username.unwrap(),
                        discriminator: discriminator.unwrap(),
                    },
                )
            } else {
                None
            }
        },
        _ => None,
    }
}

pub open spec fn group_of(j: Json) -> Option<GroupView> {
    match j {
        Json::Object(fs) => {
            let unread_count = u32_of(field(fs@, "unreadCount"@));
            let last_message_id = text_of(field(fs@, "lastMessageId"@));
            let name = text_of(field(fs@, "name"@));
            let users = text_list_of(field(fs@, "users"@));
            if unread_count is Some && last_message_id is Some && name is Some && users is Some {
                Some(
                    GroupView {
                        unread_count: unread_count.unwrap(),
                        last_message_id: last_message_id.unwrap(),
                        name: name.unwrap(),
                        users: users.unwrap(),
                    },
                )
            } else {
                None
            }
        },
        _ => None,
    }
}

pub open spec fn guild_of(j: Json) -> Option<GuildView> {
    match j {
        Json::Object(fs) => {
            let unread_count = u32_of(field(fs@, "unreadCount"@));
            let mention_count = u32_of(field(fs@, "mentionCount"@));
            let name = text_of(field(fs@, "name"@));
            if unread_count is Some && mention_count is Some && name is Some {
                Some(
                    GuildView {
                        unread_count: unread_count.unwrap(),
                        mention_count: mention_count.unwrap(),
                        name: name.unwrap(),
                    },
                )
            } else {
                None
            }
        },
        _ => None,
    }
}

/// The mapping that the members of an object describe, where `entry`
/// decodes each value; `None` as soon as one value does not decode.
pub open spec fn entries_of<V>(fs: Seq<(String, Json)>, entry: spec_fn(Json) -> Option<V>) -> Option<
    Map<Seq<char>, V>,
>
    decreases fs.len(),
{
    if fs.len() == 0 {
        Some(Map::empty())
    } else {
        match (entries_of(fs.drop_last(), entry), entry(fs.last().1)) {
            (Some(m), Some(v)) => Some(m.insert(fs.last().0@, v)),
            _ => None,
        }
    }
}

pub open spec fn dm_rule() -> spec_fn(Json) -> Option<DirectMessageView> {
    |j: Json| dm_of(j)
}

pub open spec fn group_rule() -> spec_fn(Json) -> Option<GroupView> {
    |j: Json| group_of(j)
}

pub open spec fn guild_rule() -> spec_fn(Json) -> Option<GuildView> {
    |j: Json| guild_of(j)
}

pub open spec fn object_entries_of<V>(j: Option<Json>, entry: spec_fn(Json) -> Option<V>) -> Option<
    Map<Seq<char>, V>,
> {
    match j {
        Some(Json::Object(fs)) => entries_of(fs@, entry),
        _ => None,
    }
}

/// The snapshot that a `payload` value describes.
pub open spec fn snapshot_of(j: Json) -> Option<NotificationsView> {
    match j {
        Json::Object(fs) => {
            let dms = object_entries_of(field(fs@, "dms"@), dm_rule());
            let groups = object_entries_of(field(fs@, "groups"@), group_rule());
            let guilds = object_entries_of(field(fs@, "guilds"@), guild_rule());
            if dms is Some && groups is Some && guilds is Some {
                Some(
                    NotificationsView {
                        dms: dms.unwrap(),
                        groups: groups.unwrap(),
                        guilds: guilds.unwrap(),
                    },
                )
            } else {
                None
            }
        },
        _ => None,
    }
}

/// The packet that a JSON document describes: an object tagged by its
/// `type` member, of which `Update` is the one known kind.
pub open spec fn packet_of(j: Json) -> Result<PacketView, DecodeError> {
    match j {
        Json::Object(fs) => match field(fs@, "type"@) {
            Some(Json::Str(tag)) => if tag@ == "Update"@ {
                match (field(fs@, "payload"@), flag_of(field(fs@, "revive"@))) {
                    (Some(p), Some(revive)) => match snapshot_of(p) {
                        Some(payload) => Ok(PacketView::Update { payload, revive }),
                        None => Err(DecodeError::InvalidPayload),
                    },
                    _ => Err(DecodeError::InvalidPayload),
                }
            } else {
                Err(DecodeError::UnknownPacketType)
            },
            _ => Err(DecodeError::InvalidPayload),
        },
        _ => Err(DecodeError::InvalidPayload),
    }
}

/// Once a prefix of the members fails to decode, so does every longer one.
proof fn lemma_failure_persists<V>(
    fs: Seq<(String, Json)>,
    entry: spec_fn(Json) -> Option<V>,
    i: int,
    n: int,
)
    requires
        0 <= i <= n <= fs.len(),
        entries_of(fs.take(i), entry) is None,
    ensures
        entries_of(fs.take(n), entry) is None,
    decreases n - i,
{
    if n > i {
        lemma_failure_persists(fs, entry, i, n - 1);
        assert(fs.take(n).drop_last() =~= fs.take(n - 1));
    }
}

/// The value of member `key`, the last one of that name.
fn lookup<'a>(fs: &'a Vec<(String, Json)>, key: &str) -> (r: Option<&'a Json>)
    ensures
        match r {
            Some(j) => field(fs@, key@) == Some(*j),
            None => field(fs@, key@) is None,
        },
{
    let name = key.to_owned();
    let mut i: usize = fs.len();
    assert(fs@.take(i as int) =~= fs@);
    while i > 0
        invariant
            i <= fs@.len(),
            name@ == key@,
            field(fs@.take(i as int), key@) == field(fs@, key@),
        decreases i,
    {
        assert(fs@.take(i as int).drop_last() =~= fs@.take(i - 1));
        if fs[i - 1].0 == name {
            return Some(&fs[i - 1].1);
        }
        i = i - 1;
    }
    None
}

fn get_u32(fs: &Vec<(String, Json)>, key: &str) -> (r: Option<u32>)
    ensures
        r == u32_of(field(fs@, key@)),
{
    match lookup(fs, key) {
        Some(Json::UInt(n)) => if *n <= u32::MAX as u64 {
            Some(*n as u32)
        } else {
            None
        },
        _ => None,
    }
}

fn get_flag(fs: &Vec<(String, Json)>, key: &str) -> (r: Option<bool>)
    ensures
        r == flag_of(field(fs@, key@)),
{
    match lookup(fs, key) {
        Some(Json::Bool(b)) => Some(*b),
        _ => None,
    }
}

fn get_text(fs: &Vec<(String, Json)>, key: &str) -> (r: Option<String>)
    ensures
        match r {
            Some(s) => text_of(field(fs@, key@)) == Some(s@),
            None => text_of(field(fs@, key@)) is None,
        },
{
    match lookup(fs, key) {
        Some(Json::Str(s)) => Some(s.clone()),
        _ => None,
    }
}

fn get_text_list(fs: &Vec<(String, Json)>, key: &str) -> (r: Option<Vec<String>>)
    ensures
        match r {
            Some(v) => text_list_of(field(fs@, key@)) == Some(names_of(v@)),
            None => text_list_of(field(fs@, key@)) is None,
        },
{
    let items = match lookup(fs, key) {
        Some(Json::Array(items)) => items,
        _ => {
            return None;
        },
    };
    let mut out: Vec<String> = Vec::new();
    let mut i: usize = 0;
    assert(items@.take(0) =~= Seq::<Json>::empty());
    assert(names_of(out@) =~= Seq::<Seq<char>>::empty());
    while i < items.len()
        invariant
            i <= items@.len(),
            text_list_of(field(fs@, key@)) == texts_of(items@),
            texts_of(items@.take(i as int)) == Some(names_of(out@)),
        decreases items@.len() - i,
    {
        assert(items@.take(i + 1).drop_last() =~= items@.take(i as int));
        match &items[i] {
            Json::Str(s) => {
                let ghost before = out@;
                out.push(s.clone());
                assert(names_of(out@) =~= names_of(before).push(s@));
            },
            _ => {
                proof {
                    assert(items@.take(i + 1).last() == items@[i as int]);
                    assert(texts_of(items@.take(i + 1)) is None);
                    lemma_texts_failure_persists(items@, i + 1, items@.len() as int);
                    assert(items@.take(items@.len() as int) =~= items@);
                }
                return None;
            },
        }
        i = i + 1;
    }
    assert(items@.take(i as int) =~= items@);
    Some(out)
}

proof fn lemma_texts_failure_persists(items: Seq<Json>, i: int, n: int)
    requires
        0 <= i <= n <= items.len(),
        texts_of(items.take(i)) is None,
    ensures
        texts_of(items.take(n)) is None,
    decreases n - i,
{
    if n > i {
        lemma_texts_failure_persists(items, i, n - 1);
        assert(items.take(n).drop_last() =~= items.take(n - 1));
    }
}

fn decode_dm(j: &Json) -> (r: Option<DirectMessageNotifications>)
    ensures
        match r {
            Some(d) => dm_of(*j) == Some(d@),
            None => dm_of(*j) is None,
        },
{
    let fs = match j {
        Json::Object(fs) => fs,
        _ => {
            return None;
        },
    };
    let channel_id = get_text(fs, "channelId");
    let unread_count = get_u32(fs, "unreadCount");
    let last_message_id = get_text(fs, "lastMessageId");
    let username = get_text(fs, "username");
    let discriminator = get_text(fs, "discriminator");
    match (channel_id, unread_count, last_message_id, username, discriminator) {
        (Some(channel_id), Some(unread_count), Some(last_message_id), Some(username), Some(discriminator)) => {
            Some(DirectMessageNotifications { channel_id, unread_count, last_message_id, username, discriminator })
        },
        _ => None,
    }
}

fn decode_group(j: &Json) -> (r: Option<GroupNotifications>)
    ensures
        match r {
            Some(g) => group_of(*j) == Some(g@),
            None => group_of(*j) is None,
        },
{
    let fs = match j {
        Json::Object(fs) => fs,
        _ => {
            return None;
        },
    };
    let unread_count = get_u32(fs, "unreadCount");
    let last_message_id = get_text(fs, "lastMessageId");
    let name = get_text(fs, "name");
    let users = get_text_list(fs, "users");
    match (unread_count, last_message_id, name, users) {
        (Some(unread_count), Some(last_message_id), Some(name), Some(users)) => {
            Some(GroupNotifications { unread_count, last_message_id, name, users })
        },
        _ => None,
    }
}

fn decode_guild(j: &Json) -> (r: Option<GuildNotifications>)
    ensures
        match r {
            Some(g) => guild_of(*j) == Some(g@),
            None => guild_of(*j) is None,
        },
{
    let fs = match j {
        Json::Object(fs) => fs,
        _ => {
            return None;
        },
    };
    let unread_count = get_u32(fs, "unreadCount");
    let mention_count = get_u32(fs, "mentionCount");
    let name = get_text(fs, "name");
    match (unread_count, mention_count, name) {
        (Some(unread_count), Some(mention_count), Some(name)) => {
            Some(GuildNotifications { unread_count, mention_count, name })
        },
        _ => None,
    }
}

fn decode_dm_map(fs: &Vec<(String, Json)>) -> (r: Option<IdMap<DirectMessageNotifications>>)
    ensures
        match r {
            Some(m) => entries_of(fs@, dm_rule()) == Some(m@),
            None => entries_of(fs@, dm_rule()) is None,
        },
{
    let mut m: IdMap<DirectMessageNotifications> = IdMap::new();
    let mut i: usize = 0;
    assert(fs@.take(0) =~= Seq::<(String, Json)>::empty());
    while i < fs.len()
        invariant
            i <= fs@.len(),
            entries_of(fs@.take(i as int), dm_rule()) == Some(m@),
        decreases fs@.len() - i,
    {
        assert(fs@.take(i + 1).drop_last() =~= fs@.take(i as int));
        assert(fs@.take(i + 1).last() == fs@[i as int]);
        match decode_dm(&fs[i].1) {
            Some(e) => {
                m.insert(fs[i].0.clone(), e);
            },
            None => {
                proof {
                    assert(entries_of(fs@.take(i + 1), dm_rule()) is None);
                    lemma_failure_persists(fs@, dm_rule(), i + 1, fs@.len() as int);
                    assert(fs@.take(fs@.len() as int) =~= fs@);
                }
                return None;
            },
        }
        i = i + 1;
    }
    assert(fs@.take(i as int) =~= fs@);
    Some(m)
}

fn decode_group_map(fs: &Vec<(String, Json)>) -> (r: Option<IdMap<GroupNotifications>>)
    ensures
        match r {
            Some(m) => entries_of(fs@, group_rule()) == Some(m@),
            None => entries_of(fs@, group_rule()) is None,
        },
{
    let mut m: IdMap<GroupNotifications> = IdMap::new();
    let mut i: usize = 0;
    assert(fs@.take(0) =~= Seq::<(String, Json)>::empty());
    while i < fs.len()
        invariant
            i <= fs@.len(),
            entries_of(fs@.take(i as int), group_rule()) == Some(m@),
        decreases fs@.len() - i,
    {
        assert(fs@.take(i + 1).drop_last() =~= fs@.take(i as int));
        assert(fs@.take(i + 1).last() == fs@[i as int]);
        match decode_group(&fs[i].1) {
            Some(e) => {
                m.insert(fs[i].0.clone(), e);
            },
            None => {
                proof {
                    assert(entries_of(fs@.take(i + 1), group_rule()) is None);
                    lemma_failure_persists(fs@, group_rule(), i + 1, fs@.len() as int);
                    assert(fs@.take(fs@.len() as int) =~= fs@);
                }
                return None;
            },
        }
        i = i + 1;
    }
    assert(fs@.take(i as int) =~= fs@);
    Some(m)
}

fn decode_guild_map(fs: &Vec<(String, Json)>) -> (r: Option<IdMap<GuildNotifications>>)
    ensures
        match r {
            Some(m) => entries_of(fs@, guild_rule()) == Some(m@),
            None => entries_of(fs@, guild_rule()) is None,
        },
{
    let mut m: IdMap<GuildNotifications> = IdMap::new();
    let mut i: usize = 0;
    assert(fs@.take(0) =~= Seq::<(String, Json)>::empty());
    while i < fs.len()
        invariant
            i <= fs@.len(),
            entries_of(fs@.take(i as int), guild_rule()) == Some(m@),
        decreases fs@.len() - i,
    {
        assert(fs@.take(i + 1).drop_last() =~= fs@.take(i as int));
        assert(fs@.take(i + 1).last() == fs@[i as int]);
        match decode_guild(&fs[i].1) {
            Some(e) => {
                m.insert(fs[i].0.clone(), e);
            },
            None => {
                proof {
                    assert(entries_of(fs@.take(i + 1), guild_rule()) is None);
                    lemma_failure_persists(fs@, guild_rule(), i + 1, fs@.len() as int);
                    assert(fs@.take(fs@.len() as int) =~= fs@);
                }
                return None;
            },
        }
        i = i + 1;
    }
    assert(fs@.take(i as int) =~= fs@);
    Some(m)
}

fn decode_snapshot(j: &Json) -> (r: Option<Notifications>)
    ensures
        match r {
            Some(n) => snapshot_of(*j) == Some(n@),
            None => snapshot_of(*j) is None,
        },
{
    let fs = match j {
        Json::Object(fs) => fs,
        _ => {
            return None;
        },
    };
    let dms = match lookup(fs, "dms") {
        Some(Json::Object(xs)) => decode_dm_map(xs),
        _ => None,
    };
    let groups = match lookup(fs, "groups") {
        Some(Json::Object(xs)) => decode_group_map(xs),
        _ => None,
    };
    let guilds = match lookup(fs, "guilds") {
        Some(Json::Object(xs)) => decode_guild_map(xs),
        _ => None,
    };
    match (dms, groups, guilds) {
        (Some(dms), Some(groups), Some(guilds)) => Some(Notifications { dms, groups, guilds }),
        _ => None,
    }
}

/// Reads a packet from a parsed JSON document. The document must be an
/// object whose `type` member names the packet kind; an `Update` carries
/// a `payload` snapshot and a `revive` flag. Members that the protocol
/// does not name are ignored.
pub fn decode_packet(j: &Json) -> (r: Result<Packet, DecodeError>)
    ensures
        match r {
            Ok(p) => packet_of(*j) == Ok::<PacketView, DecodeError>(p@),
            Err(e) => packet_of(*j) == Err::<PacketView, DecodeError>(e),
        },
{
    let fs = match j {
        Json::Object(fs) => fs,
        _ => {
            return Err(DecodeError::InvalidPayload);
        },
    };
    let tag = match lookup(fs, "type") {
        Some(Json::Str(tag)) => tag,
        _ => {
            return Err(DecodeError::InvalidPayload);
        },
    };
    let update = "Update".to_owned();
    if !tag.eq(&update) {
        return Err(DecodeError::UnknownPacketType);
    }
    let revive = match get_flag(fs, "revive") {
        Some(b) => b,
        None => {
            return Err(DecodeError::InvalidPayload);
        },
    };
    let payload = match lookup(fs, "payload") {
        Some(p) => decode_snapshot(p),
        None => None,
    };
    match payload {
        Some(payload) => Ok(Packet::Update { payload, revive }),
        None => Err(DecodeError::InvalidPayload),
    }
}

/// What standard, padded base64 decoding makes of a text, or `None` where
/// the text is not valid base64.
pub uninterp spec fn base64_decoded(text: Seq<char>) -> Option<Seq<u8>>;

/// Relies on `base64::decode` (standard alphabet with padding): its result
/// depends on the text alone, and it fails exactly on text that is not
/// valid base64. Its length arithmetic panics where the length plus seven
/// overflows.
#[verifier::external_body]
fn base64_decode(text: &str) -> (r: Option<Vec<u8>>)
    requires
        text.spec_bytes().len() + 7 <= usize::MAX,
    ensures
        match r {
            Some(b) => base64_decoded(text@) == Some(b@),
            None => base64_decoded(text@) is None,
        },
{
    base64::decode(text).ok()
}

/// Unwraps the base64 text of a message into the bytes of its JSON
/// document. A text too long for the decoder's length arithmetic, which
/// no `str` in memory can be, counts as invalid.
pub fn decode_frame(text: &str) -> (r: Result<Vec<u8>, DecodeError>)
    ensures
        text.spec_bytes().len() + 7 > usize::MAX ==> r == Err::<Vec<u8>, DecodeError>(DecodeError::InvalidEncoding),
        text.spec_bytes().len() + 7 <= usize::MAX ==> match r {
            Ok(b) => base64_decoded(text@) == Some(b@),
            Err(e) => base64_decoded(text@) is None && e == DecodeError::InvalidEncoding,
        },
{
    let bytes = text.as_bytes();
    proof {
        broadcast use vstd::slice::axiom_spec_len;

    }
    if bytes.len() > usize::MAX - 7 {
        return Err(DecodeError::InvalidEncoding);
    }
    match base64_decode(text) {
        Some(b) => Ok(b),
        None => Err(DecodeError::InvalidEncoding),
    }
}

fn text(s: &String) -> (r: Json)
    ensures
        r == Json::Str(*s),
{
    Json::Str(s.clone())
}

fn encode_dm(d: &DirectMessageNotifications) -> (r: Json)
    ensures
        dm_of(r) == Some(d@),
{
    let mut fs: Vec<(String, Json)> = Vec::new();
    fs.push(("channelId".to_owned(), text(&d.channel_id)));
    fs.push(("unreadCount".to_owned(), Json::UInt(d.unread_count as u64)));
    fs.push(("lastMessageId".to_owned(), text(&d.last_message_id)));
    fs.push(("username".to_owned(), text(&d.username)));
    fs.push(("discriminator".to_owned(), text(&d.discriminator)));
    proof {
        broadcast use lemma_field_push;

        reveal_strlit("channelId");
        reveal_strlit("unreadCount");
        reveal_strlit("lastMessageId");
        reveal_strlit("username");
        reveal_strlit("discriminator");
        lemma_differ_at("channelId"@, "unreadCount"@, 0);
        lemma_differ_at("channelId"@, "lastMessageId"@, 0);
        lemma_differ_at("channelId"@, "username"@, 0);
        lemma_differ_at("channelId"@, "discriminator"@, 0);
        lemma_differ_at("unreadCount"@, "lastMessageId"@, 0);
        lemma_differ_at("unreadCount"@, "username"@, 1);
        lemma_differ_at("unreadCount"@, "discriminator"@, 0);
        lemma_differ_at("lastMessageId"@, "username"@, 0);
        lemma_differ_at("lastMessageId"@, "discriminator"@, 0);
        lemma_differ_at("username"@, "discriminator"@, 0);
    }
    Json::Object(fs)
}

fn encode_group(g: &GroupNotifications) -> (r: Json)
    ensures
        group_of(r) == Some(g@),
{
    let mut users: Vec<Json> = Vec::new();
    let mut i: usize = 0;
    assert(g.users@.take(0) =~= Seq::<String>::empty());
    while i < g.users.len()
        invariant
            i <= g.users@.len(),
            texts_of(users@) == Some(names_of(g.users@.take(i as int))),
        decreases g.users@.len() - i,
    {
        let ghost before = users@;
        users.push(text(&g.users[i]));
        assert(users@.drop_last() =~= before);
        assert(names_of(g.users@.take(i + 1)) =~= names_of(g.users@.take(i as int)).push(g.users@[i as int]@));
        i = i + 1;
    }
    assert(g.users@.take(i as int) =~= g.users@);
    let mut fs: Vec<(String, Json)> = Vec::new();
    fs.push(("unreadCount".to_owned(), Json::UInt(g.unread_count as u64)));
    fs.push(("lastMessageId".to_owned(), text(&g.last_message_id)));
    fs.push(("name".to_owned(), text(&g.name)));
    fs.push(("users".to_owned(), Json::Array(users)));
    proof {
        broadcast use lemma_field_push;

        reveal_strlit("unreadCount");
        reveal_strlit("lastMessageId");
        reveal_strlit("name");
        reveal_strlit("users");
        lemma_differ_at("unreadCount"@, "lastMessageId"@, 0);
        lemma_differ_at("unreadCount"@, "name"@, 0);
        lemma_differ_at("unreadCount"@, "users"@, 1);
        lemma_differ_at("lastMessageId"@, "name"@, 0);
        lemma_differ_at("lastMessageId"@, "users"@, 0);
        lemma_differ_at("name"@, "users"@, 0);
    }
    Json::Object(fs)
}

fn encode_guild(g: &GuildNotifications) -> (r: Json)
    ensures
        guild_of(r) == Some(g@),
{
    let mut fs: Vec<(String, Json)> = Vec::new();
    fs.push(("unreadCount".to_owned(), Json::UInt(g.unread_count as u64)));
    fs.push(("mentionCount".to_owned(), Json::UInt(g.mention_count as u64)));
    fs.push(("name".to_owned(), text(&g.name)));
    proof {
        broadcast use lemma_field_push;

        reveal_strlit("unreadCount");
        reveal_strlit("mentionCount");
        reveal_strlit("name");
        lemma_differ_at("unreadCount"@, "mentionCount"@, 0);
        lemma_differ_at("unreadCount"@, "name"@, 0);
        lemma_differ_at("mentionCount"@, "name"@, 0);
    }
    Json::Object(fs)
}

fn encode_dm_map(m: &IdMap<DirectMessageNotifications>) -> (r: Vec<(String, Json)>)
    ensures
        entries_of(r@, dm_rule()) == Some(m@),
{
    let mut out: Vec<(String, Json)> = Vec::new();
    let mut i: usize = 0;
    assert(m.entries@.take(0) =~= Seq::<(String, DirectMessageNotifications)>::empty());
    while i < m.entries.len()
        invariant
            i <= m.entries@.len(),
            entries_of(out@, dm_rule()) == Some(IdMap::<DirectMessageNotifications>::map_of(m.entries@.take(i as int))),
        decreases m.entries@.len() - i,
    {
        assert(m.entries@.take(i + 1).drop_last() =~= m.entries@.take(i as int));
        let ghost before = out@;
        let value = encode_dm(&m.entries[i].1);
        out.push((m.entries[i].0.clone(), value));
        assert(out@.drop_last() =~= before);
        i = i + 1;
    }
    assert(m.entries@.take(i as int) =~= m.entries@);
    out
}

fn encode_group_map(m: &IdMap<GroupNotifications>) -> (r: Vec<(String, Json)>)
    ensures
        entries_of(r@, group_rule()) == Some(m@),
{
    let mut out: Vec<(String, Json)> = Vec::new();
    let mut i: usize = 0;
    assert(m.entries@.take(0) =~= Seq::<(String, GroupNotifications)>::empty());
    while i < m.entries.len()
        invariant
            i <= m.entries@.len(),
            entries_of(out@, group_rule()) == Some(IdMap::<GroupNotifications>::map_of(m.entries@.take(i as int))),
        decreases m.entries@.len() - i,
    {
        assert(m.entries@.take(i + 1).drop_last() =~= m.entries@.take(i as int));
        let ghost before = out@;
        let value = encode_group(&m.entries[i].1);
        out.push((m.entries[i].0.clone(), value));
        assert(out@.drop_last() =~= before);
        i = i + 1;
    }
    assert(m.entries@.take(i as int) =~= m.entries@);
    out
}

fn encode_guild_map(m: &IdMap<GuildNotifications>) -> (r: Vec<(String, Json)>)
    ensures
        entries_of(r@, guild_rule()) == Some(m@),
{
    let mut out: Vec<(String, Json)> = Vec::new();
    let mut i: usize = 0;
    assert(m.entries@.take(0) =~= Seq::<(String, GuildNotifications)>::empty());
    while i < m.entries.len()
        invariant
            i <= m.entries@.len(),
            entries_of(out@, guild_rule()) == Some(IdMap::<GuildNotifications>::map_of(m.entries@.take(i as int))),
        decreases m.entries@.len() - i,
    {
        assert(m.entries@.take(i + 1).drop_last() =~= m.entries@.take(i as int));
        let ghost before = out@;
        let value = encode_guild(&m.entries[i].1);
        out.push((m.entries[i].0.clone(), value));
        assert(out@.drop_last() =~= before);
        i = i + 1;
    }
    assert(m.entries@.take(i as int) =~= m.entries@);
    out
}

fn encode_snapshot(n: &Notifications) -> (r: Json)
    ensures
        snapshot_of(r) == Some(n@),
{
    let mut fs: Vec<(String, Json)> = Vec::new();
    fs.push(("dms".to_owned(), Json::Object(encode_dm_map(&n.dms))));
    fs.push(("groups".to_owned(), Json::Object(encode_group_map(&n.groups))));
    fs.push(("guilds".to_owned(), Json::Object(encode_guild_map(&n.guilds))));
    proof {
        broadcast use lemma_field_push;

        reveal_strlit("dms");
        reveal_strlit("groups");
        reveal_strlit("guilds");
        lemma_differ_at("dms"@, "groups"@, 0);
        lemma_differ_at("dms"@, "guilds"@, 0);
        lemma_differ_at("groups"@, "guilds"@, 1);
    }
    Json::Object(fs)
}

/// Writes a packet as the JSON document of the wire protocol. Decoding
/// the document gives back the same packet.
pub fn encode_packet(p: &Packet) -> (r: Json)
    ensures
        packet_of(r) == Ok::<PacketView, DecodeError>(p@),
{
    match p {
        Packet::Update { payload, revive } => {
            let mut fs: Vec<(String, Json)> = Vec::new();
            fs.push(("type".to_owned(), Json::Str("Update".to_owned())));
            fs.push(("payload".to_owned(), encode_snapshot(payload)));
            fs.push(("revive".to_owned(), Json::Bool(*revive)));
            proof {
                broadcast use lemma_field_push;

                reveal_strlit("type");
                reveal_strlit("payload");
                reveal_strlit("revive");
                reveal_with_fuel(field, 4);
                lemma_differ_at("type"@, "payload"@, 0);
                lemma_differ_at("type"@, "revive"@, 0);
                lemma_differ_at("payload"@, "revive"@, 0);
            }
            Json::Object(fs)
        },
    }
}

} // verus!
