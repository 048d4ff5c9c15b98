//! The live-room engine: a registry mapping channel names to room states,
//! each room holding a presence set and a broadcast group. The broadcast
//! group is modelled as the room's full publish log; a subscriber is a cursor
//! into that log, and a slow subscriber skips forward over messages that fell
//! out of the bounded buffer.

use vstd::prelude::*;
use vstd::seq_lib::*;

verus! {

/// Bound of a room's broadcast buffer: a subscriber more than this many
/// messages behind loses the oldest unread ones.
pub const BROADCAST_CAPACITY: usize = 69;

/// Mathematical view of a room: who is present, and everything published.
pub struct RoomV {
    pub users: Set<Seq<char>>,
    pub log: Seq<Seq<char>>,
}

/// Per-channel broadcast group and presence set.
pub struct RoomState {
    users: Vec<String>,
    log: Vec<String>,
}

impl View for RoomState {
    type V = RoomV;

    closed spec fn view(&self) -> RoomV {
        RoomV {
            users: self.users@.map_values(|u: String| u@).to_set(),
            log: self.log@.map_values(|m: String| m@),
        }
    }
}

impl RoomState {
    /// Usernames are unique within a room: the user vector never holds the
    /// same name twice.
    pub closed spec fn wf(&self) -> bool {
        self.users@.map_values(|u: String| u@).no_duplicates()
    }

    /// How many distinct users are present.
    pub closed spec fn spec_user_count(&self) -> int {
        self.users@.len() as int
    }

    /// Under well-formedness, the stored count is the size of the user set.
    pub proof fn lemma_user_count(&self)
        requires
            self.wf(),
        ensures
            self.spec_user_count() == self@.users.len(),
    {
        self.users@.map_values(|u: String| u@).unique_seq_to_set();
    }

    /// An empty room: nobody present, nothing published.
    pub fn new() -> (r: RoomState)
        ensures
            r.wf(),
            r@.users == Set::<Seq<char>>::empty(),
            r@.log == Seq::<Seq<char>>::empty(),
    {
        let r = RoomState { users: Vec::new(), log: Vec::new() };
        proof {
            assert(r.users@.map_values(|u: String| u@) =~= Seq::<Seq<char>>::empty());
            assert(r.log@.map_values(|m: String| m@) =~= Seq::<Seq<char>>::empty());
            assert(r@.users =~= Set::<Seq<char>>::empty());
        }
        r
    }

    /// Whether `name` is present in the room.
    pub fn contains_user(&self, name: &String) -> (r: bool)
        ensures
            r == self@.users.contains(name@),
    {
        let ghost mapped = self.users@.map_values(|u: String| u@);
        let mut i: usize = 0;
        while i < self.users.len()
            invariant
                i <= self.users.len(),
                mapped == self.users@.map_values(|u: String| u@),
                forall|j: int| 0 <= j < i ==> mapped[j] != name@,
            decreases self.users.len() - i,
        {
            if self.users[i].eq(name) {
                assert(mapped[i as int] == name@);
                assert(mapped.contains(name@));
                return true;
            }
            i = i + 1;
        }
        assert(!mapped.contains(name@));
        false
    }

    /// Inserts `name` into the presence set; present names stay unique.
    pub fn insert_user(&mut self, name: String)
        requires
            old(self).wf(),
        ensures
            final(self).wf(),
            final(self)@.users == old(self)@.users.insert(name@),
            final(self)@.log == old(self)@.log,
            final(self).spec_user_count() > 0,
    {
        let ghost mapped = self.users@.map_values(|u: String| u@);
        if !self.contains_user(&name) {
            assert(!mapped.contains(name@));
            self.users.push(name);
            proof {
                assert(self.users@.map_values(|u: String| u@) =~= mapped.push(name@));
                lemma_push_to_set(mapped, name@);
            }
        } else {
            proof {
                assert(mapped.to_set().contains(name@));
                assert(mapped.to_set() =~= mapped.to_set().insert(name@));
            }
        }
    }

    /// Removes `name` from the presence set; a no-op when it is absent.
    pub fn remove_user(&mut self, name: &String)
        requires
            old(self).wf(),
        ensures
            final(self).wf(),
            final(self)@.users == old(self)@.users.remove(name@),
            final(self)@.log == old(self)@.log,
            final(self).spec_user_count() == old(self)@.users.remove(name@).len(),
    {
        let ghost mapped = self.users@.map_values(|u: String| u@);
        let mut i: usize = 0;
        while i < self.users.len()
            invariant
                i <= self.users.len(),
                mapped == self.users@.map_values(|u: String| u@),
                mapped.no_duplicates(),
                *self == *old(self),
                forall|j: int| 0 <= j < i ==> mapped[j] != name@,
            decreases self.users.len() - i,
        {
            if self.users[i].eq(name) {
                assert(mapped[i as int] == name@);
                self.users.remove(i);
                proof {
                    let now = self.users@.map_values(|u: String| u@);
                    assert(now =~= mapped.remove(i as int));
                    assert(mapped.remove(i as int) =~= mapped.subrange(0, i as int) + mapped.subrange(
                        i + 1,
                        mapped.len() as int,
                    ));
                    lemma_remove_keeps_no_duplicates(mapped, i as int);
                    lemma_remove_unique_to_set(mapped, i as int);
                    now.unique_seq_to_set();
                    self.lemma_user_count();
                }
                return ;
            }
            i = i + 1;
        }
        proof {
            assert(!mapped.contains(name@));
            assert(!mapped.to_set().contains(name@));
            assert(mapped.to_set().remove(name@) =~= mapped.to_set());
            self.lemma_user_count();
        }
    }

    /// Appends a message to the room's broadcast log.
    pub fn push_log(&mut self, message: String)
        requires
            old(self).wf(),
        ensures
            final(self).wf(),
            final(self)@.users == old(self)@.users,
            final(self)@.log == old(self)@.log.push(message@),
            final(self).spec_user_count() == old(self).spec_user_count(),
    {
        let ghost logv = self.log@.map_values(|m: String| m@);
        self.log.push(message);
        proof {
            assert(self.log@.map_values(|m: String| m@) =~= logv.push(message@));
        }
    }

    /// How many users are present.
    pub fn user_count(&self) -> (r: usize)
        requires
            self.wf(),
        ensures
            r as int == self@.users.len(),
    {
        proof {
            self.lemma_user_count();
        }
        self.users.len()
    }

    /// Length of the broadcast log.
    pub fn log_len(&self) -> (r: usize)
        ensures
            r as int == self@.log.len(),
    {
        self.log.len()
    }

    /// The message at a position of the broadcast log.
    pub fn log_at(&self, i: usize) -> (r: &String)
        requires
            i < self@.log.len(),
        ensures
            r@ == self@.log[i as int],
    {
        &self.log[i]
    }
}

/// Pushing an element onto a sequence inserts it into the sequence's set.
proof fn lemma_push_to_set<A>(s: Seq<A>, a: A)
    ensures
        s.push(a).to_set() == s.to_set().insert(a),
{
    assert forall|x: A| s.push(a).to_set().contains(x) implies s.to_set().insert(a).contains(
        x,
    ) by {
        let j = choose|j: int| 0 <= j < s.push(a).len() && s.push(a)[j] == x;
        if j < s.len() {
            assert(s[j] == x);
            assert(s.contains(x));
        }
    }
    assert forall|x: A| s.to_set().insert(a).contains(x) implies s.push(a).to_set().contains(
        x,
    ) by {
        if x == a {
            assert(s.push(a)[s.len() as int] == x);
            assert(s.push(a).contains(x));
        } else {
            let j = choose|j: int| 0 <= j < s.len() && s[j] == x;
            assert(s.push(a)[j] == x);
            assert(s.push(a).contains(x));
        }
    }
    assert(s.push(a).to_set() =~= s.to_set().insert(a));
}

/// Removing an element of a duplicate-free sequence keeps it duplicate-free.
proof fn lemma_remove_keeps_no_duplicates<A>(s: Seq<A>, i: int)
    requires
        s.no_duplicates(),
        0 <= i < s.len(),
    ensures
        s.remove(i).no_duplicates(),
{
    assert(s.remove(i) =~= s.subrange(0, i) + s.subrange(i + 1, s.len() as int));
    assert forall|p: int, q: int|
        0 <= p < s.remove(i).len() && 0 <= q < s.remove(i).len() && p != q implies s.remove(i)[p]
        != s.remove(i)[q] by {
        let p0 = if p < i { p } else { p + 1 };
        let q0 = if q < i { q } else { q + 1 };
        assert(s.remove(i)[p] == s[p0]);
        assert(s.remove(i)[q] == s[q0]);
    }
}

/// Removing one element of a duplicate-free sequence removes exactly that
/// element of its set.
proof fn lemma_remove_unique_to_set<A>(s: Seq<A>, i: int)
    requires
        s.no_duplicates(),
        0 <= i < s.len(),
    ensures
        s.remove(i).to_set() == s.to_set().remove(s[i]),
{
    let r = s.remove(i);
    assert forall|x: A| r.to_set().contains(x) implies s.to_set().remove(s[i]).contains(x) by {
        let j = choose|j: int| 0 <= j < r.len() && r[j] == x;
        let j0 = if j < i { j } else { j + 1 };
        assert(s[j0] == x);
        assert(j0 != i);
        assert(x != s[i]);
    }
    assert forall|x: A| s.to_set().remove(s[i]).contains(x) implies r.to_set().contains(x) by {
        let j = choose|j: int| 0 <= j < s.len() && s[j] == x;
        assert(j != i);
        let j1 = if j < i { j } else { j - 1 };
        assert(r[j1] == x);
        assert(r.contains(x));
    }
    assert(r.to_set() =~= s.to_set().remove(s[i]));
}

// ---------------------------------------------------------------------------
// The registry
// ---------------------------------------------------------------------------

/// The channel name of each entry, in storage order.
spec fn entry_channels(entries: Seq<(String, RoomState)>) -> Seq<Seq<char>> {
    entries.map_values(|e: (String, RoomState)| e.0@)
}

/// The registry's mathematical content: channel name to room view. A later
/// entry for the same name would win; the invariant rules that out.
spec fn room_map(entries: Seq<(String, RoomState)>) -> Map<Seq<char>, RoomV>
    decreases entries.len(),
{
    if entries.len() == 0 {
        Map::empty()
    } else {
        room_map(entries.drop_last()).insert(entries.last().0@, entries.last().1@)
    }
}

proof fn lemma_room_map_contains(entries: Seq<(String, RoomState)>, ch: Seq<char>)
    ensures
        room_map(entries).contains_key(ch) <==> entry_channels(entries).contains(ch),
    decreases entries.len(),
{
    let chans = entry_channels(entries);
    if entries.len() == 0 {
        assert(!chans.contains(ch));
    } else {
        lemma_room_map_contains(entries.drop_last(), ch);
        assert(entry_channels(entries.drop_last()) =~= chans.drop_last());
        if room_map(entries).contains_key(ch) {
            if ch == entries.last().0@ {
                assert(chans[chans.len() - 1] == ch);
                assert(chans.contains(ch));
            } else {
                let j = choose|j: int|
                    0 <= j < chans.drop_last().len() && chans.drop_last()[j] == ch;
                assert(chans[j] == ch);
                assert(chans.contains(ch));
            }
        }
        if chans.contains(ch) {
            let j = choose|j: int| 0 <= j < chans.len() && chans[j] == ch;
            if j < chans.len() - 1 {
                assert(chans.drop_last()[j] == ch);
                assert(chans.drop_last().contains(ch));
            } else {
                assert(entries.last().0@ == ch);
            }
        }
    }
}

proof fn lemma_room_map_index(entries: Seq<(String, RoomState)>, i: int)
    requires
        entry_channels(entries).no_duplicates(),
        0 <= i < entries.len(),
    ensures
        room_map(entries).contains_key(entries[i].0@),
        room_map(entries)[entries[i].0@] == entries[i].1@,
    decreases entries.len(),
{
    let chans = entry_channels(entries);
    if i == entries.len() - 1 {
    } else {
        assert(entry_channels(entries.drop_last()) =~= chans.drop_last());
        lemma_room_map_index(entries.drop_last(), i);
        assert(chans[i] != chans[chans.len() - 1]);
        assert(entries.drop_last()[i] == entries[i]);
    }
}

proof fn lemma_room_map_remove(entries: Seq<(String, RoomState)>, i: int)
    requires
        entry_channels(entries).no_duplicates(),
        0 <= i < entries.len(),
    ensures
        room_map(entries.remove(i)) == room_map(entries).remove(entries[i].0@),
    decreases entries.len(),
{
    let ch = entries[i].0@;
    let dl = entries.drop_last();
    assert(entry_channels(dl) =~= entry_channels(entries).drop_last());
    if i == entries.len() - 1 {
        assert(entries.remove(i) =~= dl);
        lemma_room_map_contains(dl, ch);
        assert(!entry_channels(dl).contains(ch)) by {
            if entry_channels(dl).contains(ch) {
                let j = choose|j: int|
                    0 <= j < entry_channels(dl).len() && entry_channels(dl)[j] == ch;
                assert(entry_channels(entries)[j] == ch);
                assert(entry_channels(entries)[i] == ch);
            }
        }
        assert(room_map(dl).insert(ch, entries.last().1@).remove(ch) =~= room_map(dl));
    } else {
        lemma_room_map_remove(dl, i);
        assert(entries.remove(i).drop_last() =~= dl.remove(i));
        assert(entries.remove(i).last() == entries.last());
        let lch = entries.last().0@;
        assert(lch != ch) by {
            assert(entry_channels(entries)[i] == ch);
            assert(entry_channels(entries)[entries.len() - 1] == lch);
        }
        assert(dl[i] == entries[i]);
        assert(room_map(entries.remove(i)) == room_map(dl).remove(ch).insert(
            lch,
            entries.last().1@,
        ));
        assert(room_map(dl).remove(ch).insert(lch, entries.last().1@) =~= room_map(
            dl,
        ).insert(lch, entries.last().1@).remove(ch));
    }
}

proof fn lemma_room_map_dom(entries: Seq<(String, RoomState)>)
    ensures
        room_map(entries).dom() == entry_channels(entries).to_set(),
    decreases entries.len(),
{
    let chans = entry_channels(entries);
    if entries.len() == 0 {
        assert(room_map(entries).dom() =~= chans.to_set());
    } else {
        lemma_room_map_dom(entries.drop_last());
        assert(entry_channels(entries.drop_last()) =~= chans.drop_last());
        lemma_push_to_set(chans.drop_last(), chans.last());
        assert(chans.drop_last().push(chans.last()) =~= chans);
        assert(room_map(entries).dom() =~= chans.to_set());
    }
}

/// Process-wide mapping from channel name to room; owns room creation and
/// deletion. Its view is the map from channel names to room views.
pub struct RoomRegistry {
    rooms: Vec<(String, RoomState)>,
}

impl View for RoomRegistry {
    type V = Map<Seq<char>, RoomV>;

    closed spec fn view(&self) -> Map<Seq<char>, RoomV> {
        room_map(self.rooms@)
    }
}

/// The room view after a user joins a channel: the existing room with the
/// user added, or a fresh room holding only that user.
pub open spec fn room_after_join(
    m: Map<Seq<char>, RoomV>,
    ch: Seq<char>,
    user: Seq<char>,
) -> RoomV {
    if m.contains_key(ch) {
        RoomV { users: m[ch].users.insert(user), log: m[ch].log }
    } else {
        RoomV { users: Set::empty().insert(user), log: Seq::empty() }
    }
}

/// The registry after a user leaves a channel: the user goes out of the
/// room's set, and a room left with no users goes out of the registry.
pub open spec fn map_after_leave(
    m: Map<Seq<char>, RoomV>,
    ch: Seq<char>,
    user: Seq<char>,
) -> Map<Seq<char>, RoomV> {
    if m.contains_key(ch) {
        if m[ch].users.remove(user) == Set::<Seq<char>>::empty() {
            m.remove(ch)
        } else {
            m.insert(ch, RoomV { users: m[ch].users.remove(user), log: m[ch].log })
        }
    } else {
        m
    }
}

/// The registry after a publish: appended to the room's log when the channel
/// is live, and dropped without buffering when it is not.
pub open spec fn map_after_publish(
    m: Map<Seq<char>, RoomV>,
    ch: Seq<char>,
    msg: Seq<char>,
) -> Map<Seq<char>, RoomV> {
    if m.contains_key(ch) {
        m.insert(ch, RoomV { users: m[ch].users, log: m[ch].log.push(msg) })
    } else {
        m
    }
}

impl RoomRegistry {
    /// One entry per channel name, and no entry whose room is malformed or
    /// has an empty user set.
    pub closed spec fn inv(&self) -> bool {
        &&& entry_channels(self.rooms@).no_duplicates()
        &&& forall|i: int|
            0 <= i < self.rooms@.len() ==> (#[trigger] self.rooms@[i].1).wf()
                && self.rooms@[i].1.spec_user_count() > 0
    }

    /// How many rooms the registry physically holds.
    pub closed spec fn spec_room_count(&self) -> int {
        self.rooms@.len() as int
    }

    /// An empty registry.
    pub fn new() -> (r: RoomRegistry)
        ensures
            r.inv(),
            r@ == Map::<Seq<char>, RoomV>::empty(),
    {
        let r = RoomRegistry { rooms: Vec::new() };
        proof {
            assert(r.rooms@.len() == 0);
        }
        r
    }

    fn find_room(&self, channel: &String) -> (r: Option<usize>)
        ensures
            match r {
                Some(i) => i < self.rooms@.len() && self.rooms@[i as int].0@ == channel@,
                None => !entry_channels(self.rooms@).contains(channel@),
            },
    {
        let ghost chans = entry_channels(self.rooms@);
        let mut i: usize = 0;
        while i < self.rooms.len()
            invariant
                i <= self.rooms.len(),
                chans == entry_channels(self.rooms@),
                forall|j: int| 0 <= j < i ==> chans[j] != channel@,
            decreases self.rooms.len() - i,
        {
            if self.rooms[i].0.eq(channel) {
                assert(chans[i as int] == channel@);
                return Some(i);
            }
            i = i + 1;
        }
        assert(!chans.contains(channel@));
        None
    }

    /// Whether a channel currently has a live room.
    pub fn has_room(&self, channel: &String) -> (r: bool)
        ensures
            r == self@.contains_key(channel@),
    {
        proof {
            lemma_room_map_contains(self.rooms@, channel@);
        }
        match self.find_room(channel) {
            Some(i) => {
                proof {
                    assert(entry_channels(self.rooms@)[i as int] == channel@);
                    assert(entry_channels(self.rooms@).contains(channel@));
                }
                true
            },
            None => false,
        }
    }

    /// How many rooms exist right now.
    pub fn room_count(&self) -> (r: usize)
        ensures
            r as int == self.spec_room_count(),
    {
        self.rooms.len()
    }

    /// Whether `name` is currently present in the room of `channel`.
    pub fn room_has_user(&self, channel: &String, name: &String) -> (r: bool)
        requires
            self.inv(),
        ensures
            r == (self@.contains_key(channel@) && self@[channel@].users.contains(name@)),
    {
        proof {
            lemma_room_map_contains(self.rooms@, channel@);
        }
        match self.find_room(channel) {
            Some(i) => {
                proof {
                    assert(entry_channels(self.rooms@)[i as int] == channel@);
                    assert(entry_channels(self.rooms@).contains(channel@));
                    lemma_room_map_index(self.rooms@, i as int);
                }
                self.rooms[i].1.contains_user(name)
            },
            None => false,
        }
    }

    /// How many users the room of `channel` holds, when it exists.
    pub fn room_user_count(&self, channel: &String) -> (r: Option<usize>)
        requires
            self.inv(),
        ensures
            match r {
                Some(n) => self@.contains_key(channel@) && n as int == self@[channel@].users.len(),
                None => !self@.contains_key(channel@),
            },
    {
        proof {
            lemma_room_map_contains(self.rooms@, channel@);
        }
        match self.find_room(channel) {
            Some(i) => {
                proof {
                    assert(entry_channels(self.rooms@)[i as int] == channel@);
                    assert(entry_channels(self.rooms@).contains(channel@));
                    lemma_room_map_index(self.rooms@, i as int);
                }
                Some(self.rooms[i].1.user_count())
            },
            None => None,
        }
    }

    /// Joins a channel: creates the room when absent, inserts the username,
    /// and hands back a subscription positioned at "now" (no replay).
    /// Create-if-absent and the insertion happen in one exclusive step.
    pub fn join(&mut self, channel: String, username: String) -> (sub: Subscriber)
        requires
            old(self).inv(),
        ensures
            final(self).inv(),
            final(self)@ == old(self)@.insert(
                channel@,
                room_after_join(old(self)@, channel@, username@),
            ),
            sub@.channel == channel@,
            sub@.cursor == room_after_join(old(self)@, channel@, username@).log.len(),
    {
        let ghost m0 = self@;
        let ghost entries0 = self.rooms@;
        let ghost chans0 = entry_channels(entries0);
        match self.find_room(&channel) {
            Some(i) => {
                proof {
                    lemma_room_map_index(entries0, i as int);
                    lemma_room_map_remove(entries0, i as int);
                    assert(chans0[i as int] == channel@);
                    assert(chans0.contains(channel@));
                    lemma_room_map_contains(entries0, channel@);
                }
                let mut entry = self.rooms.remove(i);
                entry.1.insert_user(username);
                let cursor = entry.1.log_len();
                self.rooms.push(entry);
                proof {
                    let entries1 = self.rooms@;
                    assert(entries1.drop_last() =~= entries0.remove(i as int));
                    assert(entries1.last() == (entries0[i as int].0, entry.1));
                    assert(self@ == m0.remove(channel@).insert(channel@, entry.1@));
                    assert(entry.1@.users == m0[channel@].users.insert(username@));
                    assert(entry.1@.log == m0[channel@].log);
                    assert(m0.remove(channel@).insert(channel@, entry.1@) =~= m0.insert(
                        channel@,
                        room_after_join(m0, channel@, username@),
                    ));
                    lemma_remove_keeps_no_duplicates(chans0, i as int);
                    lemma_remove_not_contains(chans0, i as int);
                    assert(entry_channels(entries0.remove(i as int)) =~= chans0.remove(i as int));
                    lemma_push_keeps_no_duplicates(chans0.remove(i as int), channel@);
                    assert(entry_channels(entries1) =~= chans0.remove(i as int).push(channel@));
                    assert forall|j: int|
                        0 <= j < entries1.len() implies (#[trigger] entries1[j].1).wf()
                        && entries1[j].1.spec_user_count() > 0 by {
                        if j < entries1.len() - 1 {
                            let j0 = if j < i as int {
                                j
                            } else {
                                j + 1
                            };
                            assert(entries1[j] == entries0[j0]);
                        }
                    }
                }
                Subscriber { channel, cursor }
            },
            None => {
                proof {
                    lemma_room_map_contains(entries0, channel@);
                    assert(!m0.contains_key(channel@));
                }
                let mut room = RoomState::new();
                room.insert_user(username);
                let cursor: usize = 0;
                let sub = Subscriber { channel: channel.clone(), cursor };
                self.rooms.push((channel, room));
                proof {
                    let entries1 = self.rooms@;
                    assert(entries1.drop_last() =~= entries0);
                    assert(self@ == m0.insert(entries1.last().0@, room@));
                    assert(room@.log =~= Seq::<Seq<char>>::empty());
                    assert(room@.users == Set::<Seq<char>>::empty().insert(username@));
                    lemma_push_keeps_no_duplicates(chans0, entries1.last().0@);
                    assert(entry_channels(entries1) =~= chans0.push(entries1.last().0@));
                    assert forall|j: int|
                        0 <= j < entries1.len() implies (#[trigger] entries1[j].1).wf()
                        && entries1[j].1.spec_user_count() > 0 by {
                        if j < entries1.len() - 1 {
                            assert(entries1[j] == entries0[j]);
                        }
                    }
                }
                sub
            },
        }
    }

    /// Leaves a channel: removes the username from the room's set and, when
    /// that set becomes empty, removes the room itself, atomically with any
    /// concurrent join to the same channel.
    pub fn leave(&mut self, channel: &String, username: &String)
        requires
            old(self).inv(),
        ensures
            final(self).inv(),
            final(self)@ == map_after_leave(old(self)@, channel@, username@),
    {
        broadcast use vstd::seq_lib::seq_to_set_is_finite;

        let ghost m0 = self@;
        let ghost entries0 = self.rooms@;
        let ghost chans0 = entry_channels(entries0);
        match self.find_room(channel) {
            Some(i) => {
                proof {
                    lemma_room_map_index(entries0, i as int);
                    lemma_room_map_remove(entries0, i as int);
                    assert(chans0[i as int] == channel@);
                    assert(chans0.contains(channel@));
                    lemma_room_map_contains(entries0, channel@);
                }
                let mut entry = self.rooms.remove(i);
                entry.1.remove_user(username);
                proof {
                    assert(entry.1@.users == m0[channel@].users.remove(username@));
                }
                if entry.1.user_count() == 0 {
                    proof {
                        assert(entry.1@.users.len() == 0);
                        assert(entry.1@.users.finite());
                        entry.1@.users.lemma_len0_is_empty();
                        assert(entry.1@.users =~= Set::<Seq<char>>::empty());
                        assert(self.rooms@ =~= entries0.remove(i as int));
                        assert(self@ == m0.remove(channel@));
                        lemma_remove_keeps_no_duplicates(chans0, i as int);
                        assert(entry_channels(self.rooms@) =~= chans0.remove(i as int));
                        assert forall|j: int|
                            0 <= j < self.rooms@.len() implies (#[trigger] self.rooms@[j].1).wf()
                            && self.rooms@[j].1.spec_user_count() > 0 by {
                            let j0 = if j < i as int {
                                j
                            } else {
                                j + 1
                            };
                            assert(self.rooms@[j] == entries0[j0]);
                        }
                    }
                } else {
                    self.rooms.push(entry);
                    proof {
                        let entries1 = self.rooms@;
                        assert(entries1.drop_last() =~= entries0.remove(i as int));
                        assert(self@ == m0.remove(channel@).insert(channel@, entry.1@));
                        assert(entry.1@.users.len() > 0);
                        assert(Set::<Seq<char>>::empty().len() == 0);
                        assert(entry.1@.users != Set::<Seq<char>>::empty());
                        assert(m0.remove(channel@).insert(channel@, entry.1@) =~= m0.insert(
                            channel@,
                            RoomV {
                                users: m0[channel@].users.remove(username@),
                                log: m0[channel@].log,
                            },
                        ));
                        lemma_remove_keeps_no_duplicates(chans0, i as int);
                        lemma_remove_not_contains(chans0, i as int);
                        assert(entry_channels(entries0.remove(i as int)) =~= chans0.remove(
                            i as int,
                        ));
                        lemma_push_keeps_no_duplicates(chans0.remove(i as int), channel@);
                        assert(entry_channels(entries1) =~= chans0.remove(i as int).push(
                            channel@,
                        ));
                        assert forall|j: int|
                            0 <= j < entries1.len() implies (#[trigger] entries1[j].1).wf()
                            && entries1[j].1.spec_user_count() > 0 by {
                            if j < entries1.len() - 1 {
                                let j0 = if j < i as int {
                                    j
                                } else {
                                    j + 1
                                };
                                assert(entries1[j] == entries0[j0]);
                            }
                        }
                    }
                }
            },
            None => {
                proof {
                    lemma_room_map_contains(entries0, channel@);
                }
            },
        }
    }

    /// Publishes a message to a channel's broadcast group; a no-op when no
    /// room is live for the channel (no buffering for empty rooms).
    pub fn publish(&mut self, channel: &String, message: String)
        requires
            old(self).inv(),
        ensures
            final(self).inv(),
            final(self)@ == map_after_publish(old(self)@, channel@, message@),
    {
        let ghost m0 = self@;
        let ghost entries0 = self.rooms@;
        let ghost chans0 = entry_channels(entries0);
        match self.find_room(channel) {
            Some(i) => {
                proof {
                    lemma_room_map_index(entries0, i as int);
                    lemma_room_map_remove(entries0, i as int);
                    assert(chans0[i as int] == channel@);
                    assert(chans0.contains(channel@));
                    lemma_room_map_contains(entries0, channel@);
                }
                let mut entry = self.rooms.remove(i);
                entry.1.push_log(message);
                self.rooms.push(entry);
                proof {
                    let entries1 = self.rooms@;
                    assert(entries1.drop_last() =~= entries0.remove(i as int));
                    assert(self@ == m0.remove(channel@).insert(channel@, entry.1@));
                    assert(m0.remove(channel@).insert(channel@, entry.1@) =~= m0.insert(
                        channel@,
                        RoomV { users: m0[channel@].users, log: m0[channel@].log.push(message@) },
                    ));
                    lemma_remove_keeps_no_duplicates(chans0, i as int);
                    lemma_remove_not_contains(chans0, i as int);
                    assert(entry_channels(entries0.remove(i as int)) =~= chans0.remove(i as int));
                    lemma_push_keeps_no_duplicates(chans0.remove(i as int), channel@);
                    assert(entry_channels(entries1) =~= chans0.remove(i as int).push(channel@));
                    assert forall|j: int|
                        0 <= j < entries1.len() implies (#[trigger] entries1[j].1).wf()
                        && entries1[j].1.spec_user_count() > 0 by {
                        if j < entries1.len() - 1 {
                            let j0 = if j < i as int {
                                j
                            } else {
                                j + 1
                            };
                            assert(entries1[j] == entries0[j0]);
                        }
                    }
                }
            },
            None => {
                proof {
                    lemma_room_map_contains(entries0, channel@);
                }
            },
        }
    }

    /// While the invariant holds, a room that exists in the registry has at
    /// least one user: no room ever sits in the registry with an empty set.
    pub proof fn lemma_no_empty_room(&self, ch: Seq<char>)
        requires
            self.inv(),
            self@.contains_key(ch),
        ensures
            self@[ch].users.len() > 0,
    {
        lemma_room_map_contains(self.rooms@, ch);
        let chans = entry_channels(self.rooms@);
        let i = choose|i: int| 0 <= i < chans.len() && chans[i] == ch;
        lemma_room_map_index(self.rooms@, i);
        self.rooms@[i].1.lemma_user_count();
    }

    /// While the invariant holds, the registry holds exactly one room per
    /// live channel name: its physical room count equals the number of
    /// channels in its view.
    pub proof fn lemma_one_room_per_channel(&self)
        requires
            self.inv(),
        ensures
            self.spec_room_count() == self@.dom().len(),
    {
        lemma_room_map_dom(self.rooms@);
        entry_channels(self.rooms@).unique_seq_to_set();
    }
}

/// Mathematical view of a subscription: its channel and its position in the
/// room's publish log.
pub struct SubscriberV {
    pub channel: Seq<char>,
    pub cursor: int,
}

/// A live subscription to a room's broadcast group.
pub struct Subscriber {
    channel: String,
    cursor: usize,
}

impl View for Subscriber {
    type V = SubscriberV;

    closed spec fn view(&self) -> SubscriberV {
        SubscriberV { channel: self.channel@, cursor: self.cursor as int }
    }
}

/// What one receive step hands a subscriber.
pub enum RecvOutcome {
    /// The next message, in publish order.
    Message(String),
    /// The subscriber fell more than the buffer capacity behind; it skips
    /// forward and resumes. Non-fatal.
    Lagged,
    /// Nothing new yet.
    Pending,
    /// The room is gone, or the subscription no longer matches it.
    Closed,
}

impl Subscriber {
    /// The channel this subscription belongs to.
    pub fn channel_name(&self) -> (r: &String)
        ensures
            r@ == self@.channel,
    {
        &self.channel
    }

    /// One receive step against the current registry: hands out the next
    /// message in publish order, or skips forward over messages lost to the
    /// bounded buffer, or reports that nothing is available.
    pub fn recv(&mut self, reg: &RoomRegistry) -> (r: RecvOutcome)
        requires
            reg.inv(),
        ensures
            final(self)@.channel == old(self)@.channel,
            ({
                let ch = old(self)@.channel;
                let cur = old(self)@.cursor;
                if !reg@.contains_key(ch) {
                    r is Closed && final(self)@.cursor == cur
                } else {
                    let log = reg@[ch].log;
                    if cur > log.len() {
                        r is Closed && final(self)@.cursor == cur
                    } else if cur == log.len() {
                        r is Pending && final(self)@.cursor == cur
                    } else if log.len() - cur > BROADCAST_CAPACITY as int {
                        r is Lagged && final(self)@.cursor == log.len()
                            - BROADCAST_CAPACITY as int
                    } else {
                        &&& r matches RecvOutcome::Message(m)
                        &&& m@ == log[cur]
                        &&& final(self)@.cursor == cur + 1
                    }
                }
            }),
    {
        proof {
            lemma_room_map_contains(reg.rooms@, self.channel@);
        }
        match reg.find_room(&self.channel) {
            None => RecvOutcome::Closed,
            Some(i) => {
                proof {
                    assert(entry_channels(reg.rooms@)[i as int] == self.channel@);
                    assert(entry_channels(reg.rooms@).contains(self.channel@));
                    lemma_room_map_index(reg.rooms@, i as int);
                }
                let room = &reg.rooms[i].1;
                let len = room.log_len();
                if self.cursor > len {
                    RecvOutcome::Closed
                } else if self.cursor == len {
                    RecvOutcome::Pending
                } else if len - self.cursor > BROADCAST_CAPACITY {
                    self.cursor = len - BROADCAST_CAPACITY;
                    RecvOutcome::Lagged
                } else {
                    let m = room.log_at(self.cursor).clone();
                    self.cursor = self.cursor + 1;
                    RecvOutcome::Message(m)
                }
            },
        }
    }
}

/// Everything a subscriber at `cursor` will still be handed if the log stays
/// as it is: the whole remainder in publish order, except that a subscriber
/// further behind than the buffer capacity loses the oldest messages first.
pub open spec fn delivered_from(log: Seq<Seq<char>>, cursor: int) -> Seq<Seq<char>> {
    if cursor > log.len() {
        Seq::empty()
    } else if log.len() - cursor > BROADCAST_CAPACITY as int {
        log.subrange(log.len() - BROADCAST_CAPACITY as int, log.len() as int)
    } else {
        log.subrange(cursor, log.len() as int)
    }
}

/// One step of draining: within the buffer bound, the next receive hands out
/// exactly the entry at the cursor, and the rest follows unchanged.
pub proof fn lemma_delivered_step(log: Seq<Seq<char>>, cursor: int)
    requires
        0 <= cursor < log.len(),
        log.len() - cursor <= BROADCAST_CAPACITY as int,
    ensures
        delivered_from(log, cursor) == seq![log[cursor]] + delivered_from(log, cursor + 1),
{
    assert(delivered_from(log, cursor) =~= seq![log[cursor]] + delivered_from(log, cursor + 1));
}

/// Order and completeness of delivery: a subscriber that joined at position
/// `joined_at` of a room's log — before `msgs` were published — is handed
/// everything published since it joined, in publish order, with all of
/// `msgs` as the final stretch, as long as it stays within the buffer bound.
/// Two sessions in one channel therefore each receive every message the
/// other publishes, in the order published.
pub proof fn lemma_subscriber_receives_all_in_order(
    log0: Seq<Seq<char>>,
    msgs: Seq<Seq<char>>,
    joined_at: int,
)
    requires
        0 <= joined_at <= log0.len(),
        log0.len() + msgs.len() - joined_at <= BROADCAST_CAPACITY as int,
    ensures
        delivered_from(log0 + msgs, joined_at) == log0.subrange(joined_at, log0.len() as int)
            + msgs,
{
    let log = log0 + msgs;
    assert(delivered_from(log, joined_at) =~= log0.subrange(joined_at, log0.len() as int) + msgs);
}

/// Removing the element at `i` of a duplicate-free sequence leaves no copy
/// of it behind.
proof fn lemma_remove_not_contains<A>(s: Seq<A>, i: int)
    requires
        s.no_duplicates(),
        0 <= i < s.len(),
    ensures
        !s.remove(i).contains(s[i]),
{
    if s.remove(i).contains(s[i]) {
        let j = choose|j: int| 0 <= j < s.remove(i).len() && s.remove(i)[j] == s[i];
        let j0 = if j < i {
            j
        } else {
            j + 1
        };
        assert(s[j0] == s[i]);
    }
}

/// Pushing a fresh element keeps a sequence duplicate-free.
proof fn lemma_push_keeps_no_duplicates<A>(s: Seq<A>, a: A)
    requires
        s.no_duplicates(),
        !s.contains(a),
    ensures
        s.push(a).no_duplicates(),
{
    assert forall|p: int, q: int|
        0 <= p < s.push(a).len() && 0 <= q < s.push(a).len() && p != q implies s.push(a)[p]
        != s.push(a)[q] by {
        if p < s.len() && q < s.len() {
        } else if p < s.len() {
            assert(s[p] == s.push(a)[p]);
            if s.push(a)[p] == a {
                assert(s.contains(a));
            }
        } else if q < s.len() {
            assert(s[q] == s.push(a)[q]);
            if s.push(a)[q] == a {
                assert(s.contains(a));
            }
        }
    }
}


} // verus!

