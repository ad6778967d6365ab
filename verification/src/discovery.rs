//! Sessions that are announced. Of those that others announce: under which keys
//! they are kept, and which of them are outdated. Of our own: which of them are
//! announced now.

use crate::descriptor::{lemma_session_text_identifies, session_id_text, session_text};
use crate::network::IpAddress;
use crate::session::{texts, SessionInfo};
use crate::text::{decimal, lemma_decimal_value, same_text};
use crate::topic::{below, below_number, under, under_number};
use vstd::prelude::*;

verus! {

/// A session that was discovered.
#[derive(Debug, Clone, Copy, PartialEq, Eq, Structural)]
pub struct Session {
    pub ip: IpAddress,
    pub id: u64,
    pub version: u64,
}

/// How one session relates to another.
#[derive(Debug, Clone, Copy, PartialEq, Eq, Structural)]
pub enum SessionComp {
    Unrelated,
    Same,
    Newer,
    Older,
}

impl Session {
    /// Whether two sessions have the same origin and the same number.
    pub open spec fn related(self, other: Session) -> bool {
        self.ip == other.ip && self.id == other.id
    }

    /// The session that a session description announces, given the address of
    /// its origin. There is none where either could not be read.
    pub fn announced(session: &Result<SessionInfo, String>, ip: Option<IpAddress>) -> (announced:
        Option<Session>)
        ensures
            announced == (match (*session, ip) {
                (Ok(session), Some(ip)) => Some(
                    Session { ip, id: session.id, version: session.version },
                ),
                _ => None,
            }),
    {
        match session {
            Ok(session) => match ip {
                Some(ip) => Some(Session { ip, id: session.id, version: session.version }),
                None => None,
            },
            Err(_) => None,
        }
    }

    /// Compares two sessions: those that are related are the same, whichever
    /// versions they have.
    pub fn compare(&self, other: &Session) -> (comp: SessionComp)
        ensures
            comp == (if self.related(*other) {
                SessionComp::Same
            } else {
                SessionComp::Unrelated
            }),
    {
        if self.ip != other.ip || self.id != other.id {
            SessionComp::Unrelated
        } else if self.id > other.id {
            SessionComp::Newer
        } else if self.id < other.id {
            SessionComp::Older
        } else {
            SessionComp::Same
        }
    }
}

/// The sessions that a list holds under their keys.
pub open spec fn sessions_in(entries: Seq<(String, Session)>) -> Map<Seq<char>, Session>
    decreases entries.len(),
{
    if entries.len() == 0 {
        Map::empty()
    } else {
        sessions_in(entries.drop_last()).insert(entries.last().0@, entries.last().1)
    }
}

/// Whether no key occurs twice.
pub open spec fn distinct_keys(entries: Seq<(String, Session)>) -> bool {
    forall|i: int, j: int|
        0 <= i < j < entries.len() ==> (#[trigger] entries[i]).0@ != (#[trigger] entries[j]).0@
}

/// The sessions that are known.
#[derive(Debug)]
pub struct KnownSessions {
    entries: Vec<(String, Session)>,
}

impl View for KnownSessions {
    type V = Map<Seq<char>, Session>;

    closed spec fn view(&self) -> Map<Seq<char>, Session> {
        sessions_in(self.entries@)
    }
}

/// A key and a session that it stands for.
spec fn entry_at(entries: Seq<(String, Session)>, i: int, key: Seq<char>) -> bool {
    0 <= i < entries.len() && entries[i].0@ == key
}

proof fn lemma_entry(entries: Seq<(String, Session)>, i: int)
    requires
        distinct_keys(entries),
        0 <= i < entries.len(),
    ensures
        sessions_in(entries).contains_key(entries[i].0@),
        sessions_in(entries)[entries[i].0@] == entries[i].1,
    decreases entries.len(),
{
    if i < entries.len() - 1 {
        let rest = entries.drop_last();
        assert(distinct_keys(rest)) by {
            assert forall|a: int, b: int| 0 <= a < b < rest.len() implies (
            #[trigger] rest[a]).0@ != (#[trigger] rest[b]).0@ by {
                assert(entries[a].0@ != entries[b].0@);
            }
        }
        lemma_entry(rest, i);
        assert(entries[i].0@ != entries[entries.len() - 1].0@);
    }
}

proof fn lemma_key(entries: Seq<(String, Session)>, key: Seq<char>)
    ensures
        sessions_in(entries).contains_key(key) <==> exists|i: int| entry_at(entries, i, key),
    decreases entries.len(),
{
    if entries.len() > 0 {
        let rest = entries.drop_last();
        lemma_key(rest, key);
        if exists|i: int| entry_at(rest, i, key) {
            let i = choose|i: int| entry_at(rest, i, key);
            assert(entry_at(entries, i, key));
        }
        if entries.last().0@ == key {
            assert(entry_at(entries, entries.len() - 1, key));
        }
        if exists|i: int| entry_at(entries, i, key) && entries.last().0@ != key {
            let i = choose|i: int| entry_at(entries, i, key);
            assert(entry_at(rest, i, key));
        }
    }
}

/// Two lists hold the same sessions where each entry of one is in the other.
proof fn lemma_same_sessions(
    entries: Seq<(String, Session)>,
    sessions: Map<Seq<char>, Session>,
)
    requires
        distinct_keys(entries),
        forall|i: int|
            0 <= i < entries.len() ==> sessions.contains_key((#[trigger] entries[i]).0@)
                && sessions[entries[i].0@] == entries[i].1,
        forall|key: Seq<char>| #[trigger]
            sessions.contains_key(key) ==> exists|i: int| entry_at(entries, i, key),
    ensures
        sessions_in(entries) == sessions,
{
    assert forall|key: Seq<char>| #[trigger]
        sessions_in(entries).contains_key(key) <==> sessions.contains_key(key) by {
        lemma_key(entries, key);
        if sessions_in(entries).contains_key(key) {
            let i = choose|i: int| entry_at(entries, i, key);
            assert(sessions.contains_key(entries[i].0@));
        }
    }
    assert forall|key: Seq<char>| sessions.contains_key(key) implies sessions_in(entries)[key]
        == sessions[key] by {
        let i = choose|i: int| entry_at(entries, i, key);
        lemma_entry(entries, i);
        assert(sessions[entries[i].0@] == entries[i].1);
    }
    assert(sessions_in(entries) =~= sessions);
}

impl KnownSessions {
    /// No key is listed twice.
    pub closed spec fn wf(&self) -> bool {
        distinct_keys(self.entries@)
    }

    /// No session is known yet.
    pub fn new() -> (known: KnownSessions)
        ensures
            known.wf(),
            known@ == Map::<Seq<char>, Session>::empty(),
    {
        KnownSessions { entries: Vec::new() }
    }

    fn position(&self, key: &str) -> (position: Option<usize>)
        requires
            self.wf(),
        ensures
            position matches Some(i) ==> i < self.entries@.len() && self.entries@[i as int].0@
                == key@,
            position is None ==> !self@.contains_key(key@),
    {
        let len = self.entries.len();
        let mut i: usize = 0;
        while i < len
            invariant
                i <= len,
                len == self.entries@.len(),
                forall|k: int| 0 <= k < i ==> (#[trigger] self.entries@[k]).0@ != key@,
            decreases len - i,
        {
            if same_text(self.entries[i].0.as_str(), key) {
                return Some(i);
            }
            i = i + 1;
        }
        proof {
            lemma_key(self.entries@, key@);
        }
        None
    }

    fn remember(&mut self, key: String, session: Session)
        requires
            old(self).wf(),
        ensures
            final(self).wf(),
            final(self)@ == old(self)@.insert(key@, session),
    {
        let ghost before = self.entries@;
        match self.position(key.as_str()) {
            Some(i) => {
                self.entries.set(i, (key, session));
                proof {
                    let after = self.entries@;
                    assert forall|k: int| 0 <= k < after.len() implies (#[trigger] after[k]).0@
                        == before[k].0@ by {}
                    assert(distinct_keys(after)) by {
                        assert forall|a: int, b: int| 0 <= a < b < after.len() implies (
                        #[trigger] after[a]).0@ != (#[trigger] after[b]).0@ by {
                            assert(before[a].0@ != before[b].0@);
                        }
                    }
                    let wanted = sessions_in(before).insert(key@, session);
                    assert forall|k: int| 0 <= k < after.len() implies wanted.contains_key(
                        (#[trigger] after[k]).0@,
                    ) && wanted[after[k].0@] == after[k].1 by {
                        lemma_entry(before, k);
                        if k < i {
                            assert(before[k].0@ != before[i as int].0@);
                        } else if k > i {
                            assert(before[i as int].0@ != before[k].0@);
                        }
                    }
                    assert forall|q: Seq<char>| #[trigger]
                        wanted.contains_key(q) implies exists|k: int| entry_at(after, k, q) by {
                        lemma_key(before, q);
                        if q == key@ {
                            assert(entry_at(after, i as int, q));
                        } else {
                            let k = choose|k: int| entry_at(before, k, q);
                            assert(entry_at(after, k, q));
                        }
                    }
                    lemma_same_sessions(after, wanted);
                }
            },
            None => {
                self.entries.push((key, session));
                proof {
                    let after = self.entries@;
                    assert(after.drop_last() =~= before);
                    assert forall|a: int, b: int| 0 <= a < b < after.len() implies (
                    #[trigger] after[a]).0@ != (#[trigger] after[b]).0@ by {
                        if b < before.len() {
                            assert(before[a].0@ != before[b].0@);
                        } else {
                            lemma_entry(before, a);
                        }
                    }
                }
            },
        }
    }

    fn forget(&mut self, key: &str)
        requires
            old(self).wf(),
        ensures
            final(self).wf(),
            final(self)@ == old(self)@.remove(key@),
    {
        let ghost before = self.entries@;
        match self.position(key) {
            Some(i) => {
                let _removed = self.entries.remove(i);
                proof {
                    let after = self.entries@;
                    let from = |k: int| if k < i { k } else { k + 1 };
                    assert forall|k: int| 0 <= k < after.len() implies #[trigger] after[k]
                        == before[from(k)] by {}
                    assert forall|a: int, b: int| 0 <= a < b < after.len() implies (
                    #[trigger] after[a]).0@ != (#[trigger] after[b]).0@ by {
                        assert(before[from(a)].0@ != before[from(b)].0@);
                    }
                    let wanted = sessions_in(before).remove(key@);
                    assert forall|k: int| 0 <= k < after.len() implies wanted.contains_key(
                        (#[trigger] after[k]).0@,
                    ) && wanted[after[k].0@] == after[k].1 by {
                        lemma_entry(before, from(k));
                        if from(k) < i {
                            assert(before[from(k)].0@ != before[i as int].0@);
                        } else {
                            assert(before[i as int].0@ != before[from(k)].0@);
                        }
                    }
                    assert forall|q: Seq<char>| #[trigger]
                        wanted.contains_key(q) implies exists|k: int| entry_at(after, k, q) by {
                        lemma_key(before, q);
                        let k = choose|k: int| entry_at(before, k, q);
                        assert(k != i);
                        if k < i {
                            assert(entry_at(after, k, q));
                        } else {
                            assert(entry_at(after, k - 1, q));
                        }
                    }
                    lemma_same_sessions(after, wanted);
                }
            },
            None => {
                assert(self@ =~= old(self)@.remove(key@));
            },
        }
    }

    /// A session was announced under a key. Gives the keys of the sessions
    /// that it replaces, which are to be deleted.
    pub fn announced(&mut self, key: String, session: Option<Session>) -> (outdated: Vec<String>)
        requires
            old(self).wf(),
        ensures
            final(self).wf(),
            final(self)@ == (match session {
                Some(session) => old(self)@.insert(key@, session),
                None => old(self)@,
            }),
            forall|i: int, j: int|
                0 <= i < j < outdated@.len() ==> (#[trigger] outdated@[i])@ != (
                #[trigger] outdated@[j])@,
            forall|i: int|
                0 <= i < outdated@.len() ==> old(self)@.contains_key((#[trigger] outdated@[i])@)
                    && (session matches Some(s) && s.related(old(self)@[outdated@[i]@])),
            forall|k: Seq<char>| #[trigger]
                old(self)@.contains_key(k) && (session matches Some(s) && s.related(old(self)@[k]))
                    ==> exists|i: int| 0 <= i < outdated@.len() && (#[trigger] outdated@[i])@ == k,
    {
        let mut outdated: Vec<String> = Vec::new();
        let session = match session {
            Some(session) => session,
            None => {
                return outdated;
            },
        };
        let ghost known = self@;
        let ghost mut places: Seq<int> = Seq::empty();
        let len = self.entries.len();
        let mut i: usize = 0;
        while i < len
            invariant
                i <= len,
                len == self.entries@.len(),
                self.wf(),
                known == self@,
                *self == *old(self),
                places.len() == outdated@.len(),
                forall|a: int|
                    0 <= a < places.len() ==> {
                        &&& 0 <= #[trigger] places[a] < i
                        &&& self.entries@[places[a]].0@ == outdated@[a]@
                        &&& session.related(self.entries@[places[a]].1)
                    },
                forall|a: int, b: int|
                    0 <= a < b < places.len() ==> #[trigger] places[a] < #[trigger] places[b],
                forall|k: int|
                    0 <= k < i && session.related((#[trigger] self.entries@[k]).1)
                        ==> exists|a: int| 0 <= a < places.len() && #[trigger] places[a] == k,
            decreases len - i,
        {
            let ghost listed = places;
            match session.compare(&self.entries[i].1) {
                SessionComp::Unrelated => {},
                SessionComp::Same | SessionComp::Older | SessionComp::Newer => {
                    outdated.push(self.entries[i].0.clone());
                    proof {
                        places = places.push(i as int);
                        assert(places[listed.len() as int] == i);
                    }
                },
            }
            proof {
                assert forall|k: int|
                    0 <= k < i + 1 && session.related((#[trigger] self.entries@[k]).1) implies
                    exists|a: int| 0 <= a < places.len() && #[trigger] places[a] == k by {
                    if k < i {
                        let a = choose|a: int| 0 <= a < listed.len() && #[trigger] listed[a] == k;
                        assert(places[a] == k);
                    } else {
                        assert(places[listed.len() as int] == k);
                    }
                }
            }
            i = i + 1;
        }
        proof {
            let entries = self.entries@;
            assert forall|a: int| 0 <= a < outdated@.len() implies known.contains_key(
                (#[trigger] outdated@[a])@,
            ) && session.related(known[outdated@[a]@]) by {
                lemma_entry(entries, places[a]);
            }
            assert forall|a: int, b: int| 0 <= a < b < outdated@.len() implies (
            #[trigger] outdated@[a])@ != (#[trigger] outdated@[b])@ by {
                assert(entries[places[a]].0@ != entries[places[b]].0@);
            }
            assert forall|k: Seq<char>| #[trigger]
                known.contains_key(k) && session.related(known[k]) implies exists|a: int|
                0 <= a < outdated@.len() && (#[trigger] outdated@[a])@ == k by {
                lemma_key(entries, k);
                let e = choose|e: int| entry_at(entries, e, k);
                lemma_entry(entries, e);
                let a = choose|a: int| 0 <= a < places.len() && #[trigger] places[a] == e;
                assert(outdated@[a]@ == k);
            }
        }
        self.remember(key, session);
        outdated
    }

    /// What was announced under a key was deleted.
    pub fn deleted(&mut self, key: &str)
        requires
            old(self).wf(),
        ensures
            final(self).wf(),
            final(self)@ == old(self)@.remove(key@),
    {
        self.forget(key);
    }
}

/// The sessions that are announced to others, by the texts that identify them.
#[derive(Debug)]
pub struct AnnouncedSessions {
    ids: Vec<String>,
}

impl View for AnnouncedSessions {
    type V = Set<Seq<char>>;

    closed spec fn view(&self) -> Set<Seq<char>> {
        texts(self.ids@).to_set()
    }
}

impl AnnouncedSessions {
    /// No session is listed twice.
    pub closed spec fn wf(&self) -> bool {
        texts(self.ids@).no_duplicates()
    }

    /// Nothing is announced yet.
    pub fn new() -> (announced: AnnouncedSessions)
        ensures
            announced.wf(),
            announced@ == Set::<Seq<char>>::empty(),
    {
        let announced = AnnouncedSessions { ids: Vec::new() };
        proof {
            assert(texts(announced.ids@) =~= Seq::empty());
            assert(announced@ =~= Set::<Seq<char>>::empty());
        }
        announced
    }

    fn position(&self, id: &str) -> (position: Option<usize>)
        ensures
            position matches Some(i) ==> i < self.ids@.len() && self.ids@[i as int]@ == id@,
            position is Some <==> self@.contains(id@),
    {
        let len = self.ids.len();
        let mut i: usize = 0;
        while i < len
            invariant
                i <= len,
                len == self.ids@.len(),
                forall|k: int| 0 <= k < i ==> #[trigger] texts(self.ids@)[k] != id@,
            decreases len - i,
        {
            assert(texts(self.ids@)[i as int] == self.ids@[i as int]@);
            if same_text(self.ids[i].as_str(), id) {
                assert(texts(self.ids@).contains(id@));
                return Some(i);
            }
            i = i + 1;
        }
        None
    }

    /// A session was to be announced. It is where what announces it could be
    /// opened.
    pub fn added(&mut self, id: String, opened: bool)
        requires
            old(self).wf(),
        ensures
            final(self).wf(),
            final(self)@ == (if opened {
                old(self)@.insert(id@)
            } else {
                old(self)@
            }),
    {
        if !opened {
            return;
        }
        let ghost before = texts(self.ids@);
        match self.position(id.as_str()) {
            Some(_) => {
                assert(self@ =~= old(self)@.insert(id@));
            },
            None => {
                self.ids.push(id);
                proof {
                    let after = texts(self.ids@);
                    assert(after =~= before.push(id@));
                    assert forall|t: Seq<char>| #[trigger]
                        after.contains(t) <==> (before.contains(t) || t == id@) by {
                        if before.contains(t) {
                            let k = before.index_of(t);
                            assert(after[k] == t);
                        }
                        assert(after[before.len() as int] == id@);
                    }
                    assert(self@ =~= old(self)@.insert(id@));
                }
            },
        }
    }

    /// A session is not to be announced any more. Tells whether it was, so that
    /// what announces it has to stop.
    pub fn removed(&mut self, id: &str) -> (was_announced: bool)
        requires
            old(self).wf(),
        ensures
            final(self).wf(),
            was_announced == old(self)@.contains(id@),
            final(self)@ == old(self)@.remove(id@),
    {
        let ghost before = texts(self.ids@);
        match self.position(id) {
            Some(i) => {
                let _removed = self.ids.remove(i);
                proof {
                    let after = texts(self.ids@);
                    let at = i as int;
                    assert(before[at] == id@);
                    assert(after =~= before.remove(at));
                    assert forall|t: Seq<char>| #[trigger]
                        after.contains(t) <==> (before.contains(t) && t != id@) by {
                        if after.contains(t) {
                            let k = after.index_of(t);
                            let from = if k < at { k } else { k + 1 };
                            assert(before[from] == t);
                            assert(before[from] != before[at]);
                        }
                        if before.contains(t) && t != id@ {
                            let k = before.index_of(t);
                            assert(after[if k < at { k } else { k - 1 }] == t);
                        }
                    }
                    assert(self@ =~= old(self)@.remove(id@));
                }
                true
            },
            None => {
                assert(self@ =~= old(self)@.remove(id@));
                false
            },
        }
    }
}

/// The text under which a session is looked up when it is not announced any
/// more: the one that identifies it.
pub fn removal_id(sdp: &SessionInfo) -> (id: String)
    ensures
        id@ == session_text(sdp.id, sdp.version),
{
    session_id_text(sdp.id, sdp.version)
}

/// A session that was announced is found when it is removed, and then only the
/// others are announced still, which are left as they were.
pub proof fn lemma_removal_undoes_announcement(
    announced: Set<Seq<char>>,
    id: u64,
    version: u64,
    other: u64,
    other_version: u64,
)
    ensures
        ({
            let text = session_text(id, version);
            let added = announced.insert(text);
            let removed = added.remove(text);
            &&& added.contains(text)
            &&& !removed.contains(text)
            &&& !announced.contains(text) ==> removed == announced
            &&& (other != id || other_version != version) ==> {
                let unrelated = session_text(other, other_version);
                &&& added.contains(unrelated) == announced.contains(unrelated)
                &&& removed.contains(unrelated) == announced.contains(unrelated)
            }
        }),
{
    let text = session_text(id, version);
    if session_text(other, other_version) == text {
        lemma_session_text_identifies(other, other_version, id, version);
    }
    if !announced.contains(text) {
        assert(announced.insert(text).remove(text) =~= announced);
    }
}

/// The key of a session that was discovered.
pub open spec fn discovery_key(root: Seq<char>, source: Seq<char>, hash: u16) -> Seq<char> {
    under(under_number(under(under(root, "discovery/sap"@), source), hash as nat), "sdp"@)
}

/// What is done for an announcement.
#[derive(Debug)]
pub enum DiscoveryAction {
    /// A session description is stored under a key.
    Store(String, String),
    /// What is stored under a key is removed.
    Delete(String),
}

/// The mathematical value of a `DiscoveryAction`.
pub enum DiscoveryActionModel {
    Store(Seq<char>, Seq<char>),
    Delete(Seq<char>),
}

impl View for DiscoveryAction {
    type V = DiscoveryActionModel;

    open spec fn view(&self) -> DiscoveryActionModel {
        match self {
            DiscoveryAction::Store(key, sdp) => DiscoveryActionModel::Store(key@, sdp@),
            DiscoveryAction::Delete(key) => DiscoveryActionModel::Delete(key@),
        }
    }
}

/// Decides what is done for an announcement of a source.
pub fn discovery_action(
    root_key: &str,
    source: &str,
    hash: u16,
    deletion: bool,
    sdp: String,
) -> (action: DiscoveryAction)
    ensures
        action@ == (if deletion {
            DiscoveryActionModel::Delete(discovery_key(root_key@, source@, hash))
        } else {
            DiscoveryActionModel::Store(discovery_key(root_key@, source@, hash), sdp@)
        }),
{
    let parent = below(below(root_key.to_owned(), "discovery/sap"), source);
    let key = below(below_number(parent, hash as u64), "sdp");
    if deletion {
        DiscoveryAction::Delete(key)
    } else {
        DiscoveryAction::Store(key, sdp)
    }
}

/// A key of a discovered session, given its three parts that vary.
pub open spec fn discovery_place(
    root: Seq<char>,
    protocol: Seq<char>,
    source: Seq<char>,
    number: Seq<char>,
) -> Seq<char> {
    under(under(under(under(under(root, "discovery"@), protocol), source), number), "sdp"@)
}

/// The pattern of the keys under which sessions are discovered.
pub fn discovery_pattern(root_key: &str) -> (pattern: String)
    ensures
        pattern@ == discovery_place(root_key@, "?"@, "?"@, "?"@),
{
    let parent = below(below(root_key.to_owned(), "discovery"), "?");
    below(below(below(parent, "?"), "?"), "sdp")
}

/// What is stored of an announcement is found by the pattern: the key has a
/// part of its own wherever the pattern has a wildcard, and is like the
/// pattern elsewhere.
pub proof fn lemma_announcements_are_found(root: Seq<char>, source: Seq<char>, hash: u16)
    ensures
        discovery_key(root, source, hash) == discovery_place(
            root,
            "sap"@,
            source,
            decimal(hash as nat),
        ),
{
    reveal_strlit("discovery/sap");
    reveal_strlit("discovery");
    reveal_strlit("sap");
    reveal_strlit("/");
    assert("discovery/sap"@ =~= under("discovery"@, "sap"@));
    assert(under(root, under("discovery"@, "sap"@)) =~= under(under(root, "discovery"@), "sap"@));
}

/// No two announcements are stored under the same key: where the keys are the
/// same, so are the sources and the numbers. The text of a source is that of an
/// address, which holds no slash.
pub proof fn lemma_announcements_are_apart(
    root: Seq<char>,
    source: Seq<char>,
    hash: u16,
    other: Seq<char>,
    other_hash: u16,
)
    requires
        !source.contains('/'),
        !other.contains('/'),
        discovery_key(root, source, hash) == discovery_key(root, other, other_hash),
    ensures
        source == other,
        hash == other_hash,
{
    reveal_strlit("/");
    reveal_strlit("sdp");
    let head = under(root, "discovery/sap"@) + "/"@;
    let n = head.len() as int;
    let a = discovery_key(root, source, hash);
    let b = discovery_key(root, other, other_hash);
    let x = decimal(hash as nat);
    let y = decimal(other_hash as nat);
    let i = source.len() as int;
    let j = other.len() as int;
    assert forall|k: int| 0 <= k < i implies a[n + k] == source[k] by {}
    assert forall|k: int| 0 <= k < j implies b[n + k] == other[k] by {}
    assert(a[n + i] == '/');
    assert(b[n + j] == '/');
    if i < j {
        assert(other.contains(other[i]));
    }
    if j < i {
        assert(source.contains(source[j]));
    }
    assert(source =~= other);
    assert forall|k: int| 0 <= k < x.len() implies a[n + i + 1 + k] == x[k] by {}
    assert forall|k: int| 0 <= k < y.len() implies b[n + j + 1 + k] == y[k] by {}
    assert(a.len() == n + i + 1 + x.len() + 4);
    assert(b.len() == n + j + 1 + y.len() + 4);
    assert(x =~= y);
    lemma_decimal_value(hash as nat);
    lemma_decimal_value(other_hash as nat);
}

/// Sessions are related where they have the same origin and the same number,
/// whichever versions they have: another version of a session is related to it,
/// one of another origin is not, nor is one with another number. It does not
/// matter which of the two is asked.
pub proof fn lemma_versions_are_related(session: Session, version: u64, ip: IpAddress, id: u64)
    ensures
        session.related(Session { version, ..session }),
        session.related(Session { ip, version, ..session }) <==> ip == session.ip,
        session.related(Session { id, version, ..session }) <==> id == session.id,
        session.related(Session { ip, id, version }) == (Session { ip, id, version }).related(
            session,
        ),
{
}

/// The key of a discovered session: below the root stand how it was discovered,
/// who has announced it, and its number.
pub proof fn lemma_key_of_a_discovered_session(root: Seq<char>, source: Seq<char>, hash: u16)
    ensures
        discovery_key(root, source, hash) == root + "/discovery/sap/"@ + source + "/"@ + decimal(
            hash as nat,
        ) + "/sdp"@,
{
    reveal_strlit("/discovery/sap/");
    reveal_strlit("discovery/sap");
    reveal_strlit("/");
    reveal_strlit("/sdp");
    reveal_strlit("sdp");
    assert("/discovery/sap/"@ =~= "/"@ + "discovery/sap"@ + "/"@);
    assert("/sdp"@ =~= "/"@ + "sdp"@);
    assert(discovery_key(root, source, hash) =~= root + "/discovery/sap/"@ + source + "/"@
        + decimal(hash as nat) + "/sdp"@);
}

} // verus!
