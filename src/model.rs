use vstd::prelude::*;

verus! {

/// A mapping from identifier to entry, kept as a list of pairs in which a
/// later pair for a key shadows every earlier one.
#[derive(Debug)]
pub struct IdMap<E> {
    pub entries: Vec<(String, E)>,
}

impl<E: View> IdMap<E> {
    pub open spec fn map_of(s: Seq<(String, E)>) -> Map<Seq<char>, E::V>
        decreases s.len(),
    {
        if s.len() == 0 {
            Map::empty()
        } else {
            Self::map_of(s.drop_last()).insert(s.last().0@, s.last().1@)
        }
    }

    pub fn new() -> (r: Self)
        ensures
            r@ == Map::<Seq<char>, E::V>::empty(),
    {
        IdMap { entries: Vec::new() }
    }

    /// Sets the entry for `id`, replacing any earlier one.
    pub fn insert(&mut self, id: String, entry: E)
        ensures
            final(self)@ == old(self)@.insert(id@, entry@),
    {
        self.entries.push((id, entry));
        proof {
            assert(final(self).entries@.drop_last() =~= old(self).entries@);
        }
    }

    /// The entry stored for `id`, if any.
    pub fn get(&self, id: &str) -> (r: Option<&E>)
        ensures
            match r {
                Some(e) => self@.contains_key(id@) && self@[id@] == e@,
                None => !self@.contains_key(id@),
            },
    {
        let key = id.to_owned();
        let mut i: usize = self.entries.len();
        assert(self.entries@.take(i as int) =~= self.entries@);
        while i > 0
            invariant
                i <= self.entries@.len(),
                key@ == id@,
                Self::map_of(self.entries@.take(i as int)).contains_key(id@) == self@.contains_key(id@),
                Self::map_of(self.entries@.take(i as int)).contains_key(id@) ==> Self::map_of(
                    self.entries@.take(i as int),
                )[id@] == self@[id@],
            decreases i,
        {
            let ghost s = self.entries@.take(i as int);
            assert(s.drop_last() =~= self.entries@.take(i - 1));
            if self.entries[i - 1].0 == key {
                return Some(&self.entries[i - 1].1);
            }
            i = i - 1;
        }
        assert(self.entries@.take(0) =~= Seq::<(String, E)>::empty());
        None
    }
}

impl<E: View> View for IdMap<E> {
    type V = Map<Seq<char>, E::V>;

    open spec fn view(&self) -> Self::V {
        Self::map_of(self.entries@)
    }
}

pub ghost struct DirectMessageView {
    pub channel_id: Seq<char>,
    pub unread_count: u32,
    pub last_message_id: Seq<char>,
    pub username: Seq<char>,
    pub discriminator: Seq<char>,
}

pub ghost struct GroupView {
    pub unread_count: u32,
    pub last_message_id: Seq<char>,
    pub name: Seq<char>,
    pub users: Seq<Seq<char>>,
}

pub ghost struct GuildView {
    pub unread_count: u32,
    pub mention_count: u32,
    pub name: Seq<char>,
}

pub ghost struct NotificationsView {
    pub dms: Map<Seq<char>, DirectMessageView>,
    pub groups: Map<Seq<char>, GroupView>,
    pub guilds: Map<Seq<char>, GuildView>,
}

/// Unread state of one direct-message channel.
#[derive(Debug)]
pub struct DirectMessageNotifications {
    pub channel_id: String,
    pub unread_count: u32,
    pub last_message_id: String,
    pub username: String,
    pub discriminator: String,
}

/// Unread state of one group chat.
#[derive(Debug)]
pub struct GroupNotifications {
    pub unread_count: u32,
    pub last_message_id: String,
    pub name: String,
    pub users: Vec<String>,
}

/// Unread state of one guild.
#[derive(Debug)]
pub struct GuildNotifications {
    pub unread_count: u32,
    pub mention_count: u32,
    pub name: String,
}

/// A full snapshot of unread state.
#[derive(Debug)]
pub struct Notifications {
    pub dms: IdMap<DirectMessageNotifications>,
    pub groups: IdMap<GroupNotifications>,
    pub guilds: IdMap<GuildNotifications>,
}

pub open spec fn names_of(v: Seq<String>) -> Seq<Seq<char>> {
    v.map_values(|s: String| s@)
}

impl View for DirectMessageNotifications {
    type V = DirectMessageView;

    open spec fn view(&self) -> DirectMessageView {
        DirectMessageView {
            channel_id: self.channel_id@,
            unread_count: self.unread_count,
            last_message_id: self.last_message_id@,
            username: self.username@,
            discriminator: self.discriminator@,
        }
    }
}

impl View for GroupNotifications {
    type V = GroupView;

    open spec fn view(&self) -> GroupView {
        GroupView {
            unread_count: self.unread_count,
            last_message_id: self.last_message_id@,
            name: self.name@,
            users: names_of(self.users@),
        }
    }
}

impl View for GuildNotifications {
    type V = GuildView;

    open spec fn view(&self) -> GuildView {
        GuildView { unread_count: self.unread_count, mention_count: self.mention_count, name: self.name@ }
    }
}

impl View for Notifications {
    type V = NotificationsView;

    open spec fn view(&self) -> NotificationsView {
        NotificationsView { dms: self.dms@, groups: self.groups@, guilds: self.guilds@ }
    }
}

impl Notifications {
    /// The snapshot with no unread entries.
    pub fn new() -> (r: Notifications)
        ensures
            r@ == empty_snapshot(),
    {
        Notifications { dms: IdMap::new(), groups: IdMap::new(), guilds: IdMap::new() }
    }
}

impl Default for Notifications {
    fn default() -> (r: Notifications)
        ensures
            r@ == empty_snapshot(),
    {
        Notifications::new()
    }
}

pub open spec fn empty_snapshot() -> NotificationsView {
    NotificationsView { dms: Map::empty(), groups: Map::empty(), guilds: Map::empty() }
}

} // verus!
