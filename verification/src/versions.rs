//! Collecting the versions of a title: the copies of a movie or an episode on
//! other backends become versions that can be chosen, each labelled with the
//! name of its backend.
//!
//! A collection says which [`VersionStep`] is to be performed for which of the
//! user's sessions; the caller performs it and hands back a [`VersionReply`],
//! until no step is left.
use vstd::prelude::*;
use vstd::string::*;

use crate::items;
use crate::items::{ItemKind, VersionIdentity, VersionIdentityView};
use crate::json;
use crate::json::Json;
use crate::match_key;
use crate::match_key::{MatchKey, MatchKeyView};

verus! {

/// What is to be done next.
#[derive(Debug, Clone, Copy, PartialEq, Eq, Structural)]
pub enum VersionStep {
    /// Look up the id that the item has on its own backend.
    HomeMapping,
    /// Build a client for the item's own backend.
    HomeClient,
    /// Ask the item's own backend for the key of the item.
    HomeKey,
    /// Build a client with the session's token.
    Client,
    /// Look the title up.
    Search,
    /// Read the media sources of the title.
    Sources,
    /// Process each of the sources.
    Collect,
}

/// What performing the pending step takes. A session is given by its place.
#[derive(Debug)]
pub enum VersionAction {
    /// Look up the id that the item has on its own backend.
    HomeMapping { item: String },
    /// Build a client for the item's own backend, with the session's token.
    HomeClient { session: usize },
    /// Ask there for the key of the item with this id.
    HomeKey { session: usize, item: String },
    /// Build a client with the session's token.
    Client { session: usize },
    /// Look the title up by the key.
    Search { session: usize, key: MatchKey },
    /// Read the media sources of the item with this id.
    Sources { session: usize, item: String },
    /// Process each of the sources under this name.
    Collect { session: usize, name: String },
}

/// The data in a [`VersionAction`].
pub enum VersionActionView {
    HomeMapping { item: Seq<char> },
    HomeClient { session: int },
    HomeKey { session: int, item: Seq<char> },
    Client { session: int },
    Search { session: int, key: MatchKeyView },
    Sources { session: int, item: Seq<char> },
    Collect { session: int, name: Seq<char> },
}

impl View for VersionAction {
    type V = VersionActionView;

    open spec fn view(&self) -> VersionActionView {
        match *self {
            VersionAction::HomeMapping { item } => VersionActionView::HomeMapping { item: item@ },
            VersionAction::HomeClient { session } => VersionActionView::HomeClient {
                session: session as int,
            },
            VersionAction::HomeKey { session, item } => VersionActionView::HomeKey {
                session: session as int,
                item: item@,
            },
            VersionAction::Client { session } => VersionActionView::Client {
                session: session as int,
            },
            VersionAction::Search { session, key } => VersionActionView::Search {
                session: session as int,
                key: key@,
            },
            VersionAction::Sources { session, item } => VersionActionView::Sources {
                session: session as int,
                item: item@,
            },
            VersionAction::Collect { session, name } => VersionActionView::Collect {
                session: session as int,
                name: name@,
            },
        }
    }
}

/// What performing a step gave.
#[derive(Debug)]
pub enum VersionReply {
    /// It worked.
    Done,
    /// It failed, or what was asked for is not there.
    Failed,
    /// The id of the item on the backend that was asked.
    Item(String),
    /// The key of the item.
    Key(MatchKey),
    /// The sources: where the caller keeps each, if it could be processed.
    Collected(Vec<Option<usize>>),
}

/// The data in a [`VersionReply`].
pub enum VersionReplyView {
    Done,
    Failed,
    Item(Seq<char>),
    Key(MatchKeyView),
    Collected(Seq<Option<usize>>),
}

/// The data in a reply.
pub open spec fn version_reply_view(r: VersionReply) -> VersionReplyView {
    match r {
        VersionReply::Done => VersionReplyView::Done,
        VersionReply::Failed => VersionReplyView::Failed,
        VersionReply::Item(id) => VersionReplyView::Item(id@),
        VersionReply::Key(k) => VersionReplyView::Key(k@),
        VersionReply::Collected(s) => VersionReplyView::Collected(s@),
    }
}

/// A collection of versions in progress.
pub struct Versions {
    item_id: String,
    home: i64,
    sessions: Vec<(i64, String)>,
    key: Option<MatchKey>,
    item: Option<String>,
    position: usize,
    step: Option<VersionStep>,
    added: Vec<(usize, String)>,
}

/// The state of a collection: the item's id, its own server, the sessions by
/// the id and the name of their servers, the key by which the title is found,
/// the id of the title on the backend at hand, the session at hand, the step to
/// be performed for it, and the sources that were added, each with its label.
pub struct VersionsView {
    pub item_id: Seq<char>,
    pub home: i64,
    pub sessions: Seq<(i64, Seq<char>)>,
    pub key: Option<MatchKeyView>,
    pub item: Option<Seq<char>>,
    pub position: int,
    pub step: Option<VersionStep>,
    pub added: Seq<(usize, Seq<char>)>,
}

/// Pairs with a text.
pub open spec fn numbered_texts<N>(v: Seq<(N, String)>) -> Seq<(N, Seq<char>)> {
    v.map_values(|p: (N, String)| (p.0, p.1@))
}

/// Where a source of the finished item stands.
#[derive(Debug, Clone, Copy, PartialEq, Eq, Structural)]
pub enum SourcePlace {
    /// Among the item's own sources.
    Own(usize),
    /// Where the caller keeps the added ones.
    Added(usize),
}

/// Sources with their labels.
pub open spec fn source_views(v: Seq<(SourcePlace, String)>) -> Seq<(SourcePlace, Seq<char>)> {
    numbered_texts(v)
}

/// The item's own sources, in order, each with the label.
pub open spec fn own_sources(own: usize, label: Seq<char>) -> Seq<(SourcePlace, Seq<char>)> {
    Seq::new(own as nat, |i: int| (SourcePlace::Own(i as usize), label))
}

/// The added sources with their labels.
pub open spec fn added_sources(added: Seq<(usize, Seq<char>)>) -> Seq<(SourcePlace, Seq<char>)> {
    added.map_values(|p: (usize, Seq<char>)| (SourcePlace::Added(p.0), p.1))
}

/// The data in an optional key.
pub open spec fn key_view(key: Option<MatchKey>) -> Option<MatchKeyView> {
    match key {
        Some(k) => Some(k@),
        None => None,
    }
}

impl View for Versions {
    type V = VersionsView;

    closed spec fn view(&self) -> VersionsView {
        VersionsView {
            item_id: self.item_id@,
            home: self.home,
            sessions: numbered_texts(self.sessions@),
            key: key_view(self.key),
            item: json::opt_text(self.item),
            position: self.position as int,
            step: self.step,
            added: numbered_texts(self.added@),
        }
    }
}

/// The first session from `i` on that is not on the item's own backend.
pub open spec fn next_peer(sessions: Seq<(i64, Seq<char>)>, home: i64, i: int) -> int
    decreases sessions.len() - i,
{
    if i < 0 || i >= sessions.len() || sessions[i].0 != home {
        i
    } else {
        next_peer(sessions, home, i + 1)
    }
}

/// The first session on the item's own backend.
pub open spec fn home_session(sessions: Seq<(i64, Seq<char>)>, home: i64, i: int) -> int
    decreases sessions.len() - i,
{
    if i < 0 || i >= sessions.len() || sessions[i].0 == home {
        i
    } else {
        home_session(sessions, home, i + 1)
    }
}

/// The collection with the next backend from session `i` on at hand.
pub open spec fn moved_on(v: VersionsView, i: int) -> VersionsView {
    let position = next_peer(v.sessions, v.home, i);
    VersionsView {
        position,
        item: None,
        step: if position < v.sessions.len() {
            Some(VersionStep::Client)
        } else {
            None
        },
        ..v
    }
}

/// The collection when nothing is left to do.
pub open spec fn stopped(v: VersionsView) -> VersionsView {
    VersionsView { step: None, ..v }
}

/// A collection that has not begun.
pub open spec fn versions_start(
    item_id: Seq<char>,
    identity: VersionIdentityView,
    home: i64,
    sessions: Seq<(i64, Seq<char>)>,
) -> VersionsView {
    let v = VersionsView {
        item_id,
        home,
        sessions,
        key: None,
        item: None,
        position: 0,
        step: None,
        added: Seq::empty(),
    };
    match identity {
        VersionIdentityView::Known(key) => moved_on(VersionsView { key: Some(key), ..v }, 0),
        VersionIdentityView::AskHome => VersionsView { step: Some(VersionStep::HomeMapping), ..v },
        VersionIdentityView::Unversioned => v,
    }
}

/// The sources that could be processed, each with the label.
pub open spec fn labelled(sources: Seq<Option<usize>>, label: Seq<char>) -> Seq<(usize, Seq<char>)>
    decreases sources.len(),
{
    if sources.len() == 0 {
        Seq::empty()
    } else {
        match sources.last() {
            Some(s) => labelled(sources.drop_last(), label).push((s, label)),
            None => labelled(sources.drop_last(), label),
        }
    }
}

/// The collection after a step worked that has another one behind it.
pub open spec fn on_to(v: VersionsView, worked: bool, next: VersionStep) -> VersionsView {
    if worked {
        VersionsView { step: Some(next), ..v }
    } else {
        moved_on(v, v.position + 1)
    }
}

/// What performing the pending step takes, while there is one.
pub open spec fn version_task(v: VersionsView) -> VersionActionView {
    let session = v.position;
    match v.step->0 {
        VersionStep::HomeMapping => VersionActionView::HomeMapping { item: v.item_id },
        VersionStep::HomeClient => VersionActionView::HomeClient { session },
        VersionStep::HomeKey => VersionActionView::HomeKey { session, item: v.item->0 },
        VersionStep::Client => VersionActionView::Client { session },
        VersionStep::Search => VersionActionView::Search { session, key: v.key->0 },
        VersionStep::Sources => VersionActionView::Sources { session, item: v.item->0 },
        VersionStep::Collect => VersionActionView::Collect { session, name: v.sessions[session].1 },
    }
}

/// Whether a step is about a title whose id on the backend at hand is known.
pub open spec fn needs_item(step: VersionStep) -> bool {
    match step {
        VersionStep::HomeClient => true,
        VersionStep::HomeKey => true,
        VersionStep::Sources => true,
        VersionStep::Collect => true,
        _ => false,
    }
}

/// The collection after a reply.
pub open spec fn versions_advanced(v: VersionsView, reply: VersionReplyView) -> VersionsView {
    let worked = !(reply is Failed);
    match v.step {
        None => v,
        Some(VersionStep::HomeMapping) => {
            let at = home_session(v.sessions, v.home, 0);
            match reply {
                VersionReplyView::Item(id) if at < v.sessions.len() => VersionsView {
                    position: at,
                    item: Some(id),
                    step: Some(VersionStep::HomeClient),
                    ..v
                },
                _ => stopped(v),
            }
        },
        Some(VersionStep::HomeClient) => if worked {
            VersionsView { step: Some(VersionStep::HomeKey), ..v }
        } else {
            stopped(v)
        },
        Some(VersionStep::HomeKey) => match reply {
            VersionReplyView::Key(key) => if match_key::unmatchable(key) {
                stopped(v)
            } else {
                moved_on(VersionsView { key: Some(key), ..v }, 0)
            },
            _ => stopped(v),
        },
        Some(VersionStep::Client) => on_to(v, worked, VersionStep::Search),
        Some(VersionStep::Search) => match reply {
            VersionReplyView::Item(id) => VersionsView {
                item: Some(id),
                step: Some(VersionStep::Sources),
                ..v
            },
            _ => moved_on(v, v.position + 1),
        },
        Some(VersionStep::Sources) => on_to(v, worked, VersionStep::Collect),
        Some(VersionStep::Collect) => {
            let after = match reply {
                VersionReplyView::Collected(sources) => VersionsView {
                    added: v.added + labelled(sources, v.sessions[v.position].1),
                    ..v
                },
                _ => v,
            };
            moved_on(after, v.position + 1)
        },
    }
}

proof fn next_peer_is_elsewhere(sessions: Seq<(i64, Seq<char>)>, home: i64, i: int)
    requires
        0 <= i <= sessions.len(),
    ensures
        i <= next_peer(sessions, home, i) <= sessions.len(),
        next_peer(sessions, home, i) < sessions.len() ==> sessions[next_peer(
            sessions,
            home,
            i,
        )].0 != home,
        forall|k: int| i <= k < next_peer(sessions, home, i) ==> (#[trigger] sessions[k]).0 == home,
    decreases sessions.len() - i,
{
    if i < sessions.len() && sessions[i].0 == home {
        next_peer_is_elsewhere(sessions, home, i + 1);
    }
}

proof fn home_session_is_at_home(sessions: Seq<(i64, Seq<char>)>, home: i64, i: int)
    requires
        0 <= i <= sessions.len(),
    ensures
        i <= home_session(sessions, home, i) <= sessions.len(),
        home_session(sessions, home, i) < sessions.len() ==> sessions[home_session(
            sessions,
            home,
            i,
        )].0 == home,
    decreases sessions.len() - i,
{
    if i < sessions.len() && sessions[i].0 != home {
        home_session_is_at_home(sessions, home, i + 1);
    }
}

/// What holds of a collection at all times: the session at hand exists, it is
/// on another backend when a title is looked up there, and nothing is looked
/// up or added without a key.
pub open spec fn orderly(v: VersionsView) -> bool {
    &&& v.step is Some ==> 0 <= v.position
    &&& v.step matches Some(s) ==> (s == VersionStep::HomeMapping || v.position < v.sessions.len())
    &&& v.step matches Some(s) ==> if asks_home(s) {
        v.key is None && (s != VersionStep::HomeMapping ==> v.sessions[v.position].0 == v.home)
    } else {
        v.key is Some && v.sessions[v.position].0 != v.home
    }
    &&& v.step matches Some(s) ==> needs_item(s) ==> v.item is Some
    &&& v.added.len() > 0 ==> v.key is Some
    &&& v.key matches Some(key) ==> !match_key::unmatchable(key)
    &&& forall|k: int|
        0 <= k < v.added.len() ==> names_peer(v, (#[trigger] v.added[k]).1)
}

/// Whether a step is performed on the item's own backend.
pub open spec fn asks_home(step: VersionStep) -> bool {
    step == VersionStep::HomeMapping || step == VersionStep::HomeClient || step
        == VersionStep::HomeKey
}

/// Whether a label is the name of a backend other than the item's own.
pub open spec fn names_peer(v: VersionsView, label: Seq<char>) -> bool {
    exists|i: int|
        0 <= i < v.sessions.len() && (#[trigger] v.sessions[i]).0 != v.home && v.sessions[i].1
            == label
}

impl Versions {
    fn move_on(&mut self, i: usize)
        requires
            i <= old(self).sessions.len(),
        ensures
            final(self)@ == moved_on(old(self)@, i as int),
    {
        let ghost before = self@;
        let mut position: usize = i;
        while position < self.sessions.len() && self.sessions[position].0 == self.home
            invariant
                self@ == before,
                before.sessions == numbered_texts(self.sessions@),
                before.home == self.home,
                i <= position <= self.sessions.len(),
                next_peer(before.sessions, before.home, i as int) == next_peer(
                    before.sessions,
                    before.home,
                    position as int,
                ),
            decreases self.sessions.len() - position,
        {
            assert(before.sessions[position as int].0 == self.sessions[position as int].0);
            position = position + 1;
        }
        assert(position < self.sessions.len() ==> before.sessions[position as int].0
            == self.sessions[position as int].0);
        self.position = position;
        self.item = None;
        self.step = if position < self.sessions.len() {
            Some(VersionStep::Client)
        } else {
            None
        };
    }

    /// The place of the session at hand and the step to perform for it; `None`
    /// when the collection is done.
    pub fn pending(&self) -> (r: Option<(usize, VersionStep)>)
        ensures
            match r {
                Some((at, step)) => self@.step == Some(step) && at == self@.position,
                None => self@.step is None,
            },
    {
        match self.step {
            Some(step) => Some((self.position, step)),
            None => None,
        }
    }

    /// What is to be done next; `None` when the collection is done.
    pub fn action(&self) -> (r: Option<VersionAction>)
        requires
            orderly(self@),
        ensures
            match r {
                Some(action) => self@.step is Some && action@ == version_task(self@),
                None => self@.step is None,
            },
    {
        let Some(step) = self.step else {
            return None;
        };
        let session: usize = self.position;
        assert(session < self.sessions.len() ==> self@.sessions[session as int]
            == (self.sessions[session as int].0, self.sessions[session as int].1@));
        Some(
            match step {
                VersionStep::HomeMapping => VersionAction::HomeMapping {
                    item: self.item_id.clone(),
                },
                VersionStep::HomeClient => VersionAction::HomeClient { session },
                VersionStep::HomeKey => VersionAction::HomeKey {
                    session,
                    item: self.item.as_ref().unwrap().clone(),
                },
                VersionStep::Client => VersionAction::Client { session },
                VersionStep::Search => VersionAction::Search {
                    session,
                    key: self.key.as_ref().unwrap().copy(),
                },
                VersionStep::Sources => VersionAction::Sources {
                    session,
                    item: self.item.as_ref().unwrap().clone(),
                },
                VersionStep::Collect => VersionAction::Collect {
                    session,
                    name: self.sessions[session].1.clone(),
                },
            },
        )
    }

    /// The key by which the title is found. Without one the item has no
    /// versions, and its own sources stay without a label.
    pub fn key(&self) -> (r: Option<&MatchKey>)
        ensures
            (match r {
                Some(k) => Some(k@),
                None => None,
            }) == self@.key,
    {
        self.key.as_ref()
    }

    /// Takes the reply to the pending step.
    pub fn reply(&mut self, reply: VersionReply)
        requires
            orderly(old(self)@),
        ensures
            orderly(final(self)@),
            final(self)@ == versions_advanced(old(self)@, version_reply_view(reply)),
    {
        let ghost before = self@;
        let ghost told = version_reply_view(reply);
        proof {
            replies_keep_it_orderly(before, told);
        }
        let worked = !matches!(reply, VersionReply::Failed);
        let Some(step) = self.step else {
            return ;
        };
        match step {
            VersionStep::HomeMapping => {
                let at = self.find_home();
                match reply {
                    VersionReply::Item(id) if at < self.sessions.len() => {
                        self.position = at;
                        self.item = Some(id);
                        self.step = Some(VersionStep::HomeClient);
                    },
                    _ => {
                        self.step = None;
                    },
                }
            },
            VersionStep::HomeClient => {
                self.step = if worked {
                    Some(VersionStep::HomeKey)
                } else {
                    None
                };
            },
            VersionStep::HomeKey => {
                match reply {
                    VersionReply::Key(key) => {
                        if key.is_empty() {
                            self.step = None;
                        } else {
                            self.key = Some(key);
                            self.move_on(0);
                        }
                    },
                    _ => {
                        self.step = None;
                    },
                }
            },
            VersionStep::Client => {
                self.go(worked, VersionStep::Search);
            },
            VersionStep::Search => {
                match reply {
                    VersionReply::Item(id) => {
                        self.item = Some(id);
                        self.step = Some(VersionStep::Sources);
                    },
                    _ => {
                        assert(self.position < self.sessions.len());
                        let next: usize = self.position + 1;
                        self.move_on(next);
                    },
                }
            },
            VersionStep::Sources => {
                self.go(worked, VersionStep::Collect);
            },
            VersionStep::Collect => {
                assert(self.position < self.sessions.len());
                if let VersionReply::Collected(sources) = reply {
                    self.add(&sources);
                }
                let next: usize = self.position + 1;
                self.move_on(next);
            },
        }
    }

    fn find_home(&self) -> (r: usize)
        ensures
            r as int == home_session(self@.sessions, self@.home, 0),
            r <= self.sessions.len(),
    {
        let mut at: usize = 0;
        while at < self.sessions.len() && self.sessions[at].0 != self.home
            invariant
                at <= self.sessions.len(),
                home_session(self@.sessions, self@.home, 0) == home_session(
                    self@.sessions,
                    self@.home,
                    at as int,
                ),
            decreases self.sessions.len() - at,
        {
            assert(self@.sessions[at as int].0 == self.sessions[at as int].0);
            at = at + 1;
        }
        assert(at < self.sessions.len() ==> self@.sessions[at as int].0
            == self.sessions[at as int].0);
        at
    }

    fn go(&mut self, worked: bool, next: VersionStep)
        requires
            old(self).position < old(self).sessions.len(),
        ensures
            final(self)@ == on_to(old(self)@, worked, next),
    {
        if worked {
            self.step = Some(next);
        } else {
            let at: usize = self.position + 1;
            self.move_on(at);
        }
    }

    fn add(&mut self, sources: &Vec<Option<usize>>)
        requires
            old(self).position < old(self).sessions.len(),
        ensures
            final(self)@ == (VersionsView {
                added: old(self)@.added + labelled(
                    sources@,
                    old(self)@.sessions[old(self)@.position].1,
                ),
                ..old(self)@
            }),
            final(self).sessions == old(self).sessions,
            final(self).position == old(self).position,
    {
        let ghost before = self@;
        let ghost label = before.sessions[before.position].1;
        let ghost given = *self;
        assert(labelled(sources@.take(0), label) =~= Seq::<(usize, Seq<char>)>::empty());
        assert(before.added =~= before.added + labelled(sources@.take(0), label));
        for i in 0..sources.len()
            invariant
                self.position < self.sessions.len(),
                self.sessions == given.sessions,
                self.position == given.position,
                self.home == given.home,
                self.key == given.key,
                self.step == given.step,
                self.item == given.item,
                self.item_id == given.item_id,
                label == self.sessions[self.position as int].1@,
                numbered_texts(self.added@) == before.added + labelled(
                    sources@.take(i as int),
                    label,
                ),
        {
            assert(sources@.take(i + 1).drop_last() =~= sources@.take(i as int));
            assert(sources@.take(i + 1).last() == sources[i as int]);
            let ghost so_far = numbered_texts(self.added@);
            if let Some(source) = sources[i] {
                let name = self.sessions[self.position].1.clone();
                self.added.push((source, name));
                assert(numbered_texts(self.added@) =~= so_far.push((source, label)));
            }
            assert(numbered_texts(self.added@) =~= before.added + labelled(
                sources@.take(i + 1),
                label,
            ));
        }
        assert(sources@.take(sources.len() as int) =~= sources@);
    }

    /// The sources that the item ends with, each with its label: its own ones
    /// first and in order, labelled with the name of its own backend, then
    /// those that were added, in the order of the sessions. An item without a
    /// key is left as it is. `own` is the number of the item's own sources.
    pub fn labelled_sources(self, own: usize, home_name: &str) -> (r: Option<
        Vec<(SourcePlace, String)>,
    >)
        ensures
            r is None <==> self@.key is None,
            r matches Some(v) ==> source_views(v@) == own_sources(own, home_name@)
                + added_sources(self@.added),
    {
        if self.key.is_none() {
            return None;
        }
        let mut out: Vec<(SourcePlace, String)> = Vec::new();
        assert(source_views(out@) =~= own_sources(0, home_name@));
        for i in 0..own
            invariant
                source_views(out@) == own_sources(i, home_name@),
        {
            let ghost before = source_views(out@);
            out.push((SourcePlace::Own(i), home_name.to_owned()));
            assert(source_views(out@) =~= before.push((SourcePlace::Own(i), home_name@)));
            assert(source_views(out@) =~= own_sources((i + 1) as usize, home_name@));
        }
        let ghost own_ones = own_sources(own, home_name@);
        let ghost all = added_sources(self@.added);
        assert(own_ones =~= own_ones + all.take(0));
        for i in 0..self.added.len()
            invariant
                all == added_sources(numbered_texts(self.added@)),
                source_views(out@) == own_ones + all.take(i as int),
        {
            let ghost before = source_views(out@);
            let place: usize = self.added[i].0;
            let label = self.added[i].1.clone();
            out.push((SourcePlace::Added(place), label));
            assert(source_views(out@) =~= before.push((SourcePlace::Added(place), label@)));
            assert(numbered_texts(self.added@)[i as int] == (place, label@));
            assert(all[i as int] == (SourcePlace::Added(place), label@));
            assert(source_views(out@) =~= own_ones + all.take(i + 1));
        }
        assert(all.take(self.added.len() as int) =~= all);
        Some(out)
    }
}

/// Starts collecting the versions of an item. A session is given by the id and
/// the name of its server.
pub fn aggregate_versions(
    item_id: String,
    kind: ItemKind,
    provider_ids: Option<&Json>,
    home: i64,
    sessions: Vec<(i64, String)>,
) -> (r: Versions)
    ensures
        orderly(r@),
        r@ == versions_start(
            item_id@,
            items::version_identity_of(kind, json::opt_contents(provider_ids)),
            home,
            numbered_texts(sessions@),
        ),
{
    proof {
        next_peer_is_elsewhere(numbered_texts(sessions@), home, 0);
    }
    let mut r = Versions {
        item_id,
        home,
        sessions,
        key: None,
        item: None,
        position: 0,
        step: None,
        added: Vec::new(),
    };
    assert(r@.added =~= Seq::<(usize, Seq<char>)>::empty());
    match items::version_identity(kind, provider_ids) {
        VersionIdentity::Known(key) => {
            r.key = Some(key);
            r.move_on(0);
        },
        VersionIdentity::AskHome => {
            r.step = Some(VersionStep::HomeMapping);
        },
        VersionIdentity::Unversioned => {},
    }
    r
}

proof fn labelled_is_labelled(sources: Seq<Option<usize>>, label: Seq<char>)
    ensures
        forall|k: int|
            0 <= k < labelled(sources, label).len() ==> (#[trigger] labelled(sources, label)[k]).1
                == label,
    decreases sources.len(),
{
    if sources.len() > 0 {
        labelled_is_labelled(sources.drop_last(), label);
        let before = labelled(sources.drop_last(), label);
        assert forall|k: int| 0 <= k < labelled(sources, label).len() implies (
        #[trigger] labelled(sources, label)[k]).1 == label by {
            if k < before.len() {
                assert(labelled(sources, label)[k] == before[k]);
            }
        }
    }
}

/// A reply keeps what holds of a collection at all times.
pub proof fn replies_keep_it_orderly(v: VersionsView, reply: VersionReplyView)
    requires
        orderly(v),
    ensures
        orderly(versions_advanced(v, reply)),
{
    home_session_is_at_home(v.sessions, v.home, 0);
    next_peer_is_elsewhere(v.sessions, v.home, 0);
    if v.step matches Some(s) && s != VersionStep::HomeMapping {
        next_peer_is_elsewhere(v.sessions, v.home, v.position + 1);
    }
    let after = versions_advanced(v, reply);
    assert forall|k: int| 0 <= k < after.added.len() implies names_peer(
        after,
        (#[trigger] after.added[k]).1,
    ) by {
        if k < v.added.len() {
            assert(after.added[k] == v.added[k]);
            assert(names_peer(v, v.added[k].1));
            let i = choose|i: int|
                0 <= i < v.sessions.len() && (#[trigger] v.sessions[i]).0 != v.home
                    && v.sessions[i].1 == v.added[k].1;
            assert(after.sessions[i].0 != after.home);
        } else {
            let sources = reply->Collected_0;
            let label = v.sessions[v.position].1;
            labelled_is_labelled(sources, label);
            assert(after.added[k] == labelled(sources, label)[k - v.added.len()]);
            assert(after.sessions[v.position].0 != after.home);
        }
    }
}

/// The collection after a list of replies.
pub open spec fn versions_after(v: VersionsView, replies: Seq<VersionReplyView>) -> VersionsView
    decreases replies.len(),
{
    if replies.len() == 0 {
        v
    } else {
        versions_advanced(versions_after(v, replies.drop_last()), replies.last())
    }
}

/// However the steps turn out, a title is looked up on other backends only and
/// by an identifying key only, and what is added is labelled with the name of
/// such a backend.
pub proof fn versions_come_from_elsewhere(
    item_id: Seq<char>,
    identity: VersionIdentityView,
    home: i64,
    sessions: Seq<(i64, Seq<char>)>,
    replies: Seq<VersionReplyView>,
)
    requires
        identity matches VersionIdentityView::Known(key) ==> !match_key::unmatchable(key),
    ensures
        orderly(versions_after(versions_start(item_id, identity, home, sessions), replies)),
        versions_after(versions_start(item_id, identity, home, sessions), replies).sessions == sessions,
        versions_after(versions_start(item_id, identity, home, sessions), replies).home == home,
    decreases replies.len(),
{
    if replies.len() == 0 {
        next_peer_is_elsewhere(sessions, home, 0);
    } else {
        versions_come_from_elsewhere(item_id, identity, home, sessions, replies.drop_last());
        replies_keep_it_orderly(
            versions_after(versions_start(item_id, identity, home, sessions), replies.drop_last()),
            replies.last(),
        );
    }
}

/// An item without a key has no versions: nothing is asked and nothing added.
pub proof fn unversioned_items_stay_as_they_are(
    item_id: Seq<char>,
    home: i64,
    sessions: Seq<(i64, Seq<char>)>,
    replies: Seq<VersionReplyView>,
)
    ensures
        ({
            let v = versions_after(
                versions_start(item_id, VersionIdentityView::Unversioned, home, sessions),
                replies,
            );
            v.step is None && v.key is None && v.added.len() == 0
        }),
    decreases replies.len(),
{
    if replies.len() > 0 {
        unversioned_items_stay_as_they_are(item_id, home, sessions, replies.drop_last());
    }
}

/// The sources that are read on a backend are those of the title that was just
/// looked up there by the key, and each is processed under the name of that
/// backend. The key of an episode is that of the id that its own backend was
/// just said to know it by.
pub proof fn sources_are_those_of_the_title(v: VersionsView, reply: VersionReplyView)
    requires
        orderly(v),
        v.step is Some,
        versions_advanced(v, reply).step is Some,
    ensures
        ({
            let after = versions_advanced(v, reply);
            match version_task(after) {
                VersionActionView::Sources { session, item } => {
                    &&& reply == VersionReplyView::Item(item)
                    &&& v.key matches Some(key) && version_task(v) == (VersionActionView::Search {
                        session,
                        key,
                    })
                },
                VersionActionView::Collect { session, name } => {
                    &&& version_task(v) matches VersionActionView::Sources { session: at, .. } && at
                        == session
                    &&& name == v.sessions[session].1
                },
                VersionActionView::HomeKey { session, item } => {
                    &&& version_task(v) == (VersionActionView::HomeClient { session })
                    &&& v.item == Some(item)
                },
                VersionActionView::HomeClient { .. } => {
                    &&& version_task(v) == (VersionActionView::HomeMapping { item: v.item_id })
                    &&& after.item matches Some(id) && reply == VersionReplyView::Item(id)
                },
                _ => true,
            }
        }),
{
}

/// How many replies the session at hand may still take, at most.
pub open spec fn replies_left(step: VersionStep) -> int {
    match step {
        VersionStep::HomeMapping => 3,
        VersionStep::HomeClient => 2,
        VersionStep::HomeKey => 1,
        VersionStep::Client => 4,
        VersionStep::Search => 3,
        VersionStep::Sources => 2,
        VersionStep::Collect => 1,
    }
}

/// Every reply makes progress: it ends the collection, ends the questions to
/// the item's own backend, brings the session at hand nearer to its end, or
/// moves on to a later session. Sources that were added stay.
pub proof fn version_replies_make_progress(v: VersionsView, reply: VersionReplyView)
    requires
        orderly(v),
        v.step is Some,
    ensures
        ({
            let after = versions_advanced(v, reply);
            &&& v.added.len() <= after.added.len()
            &&& after.added.take(v.added.len() as int) == v.added
            &&& match after.step {
                None => true,
                Some(s) => if asks_home(v.step->0) {
                    !asks_home(s) || replies_left(s) < replies_left(v.step->0)
                } else {
                    !asks_home(s) && (after.position > v.position || (after.position == v.position
                        && replies_left(s) < replies_left(v.step->0)))
                },
            }
        }),
{
    let after = versions_advanced(v, reply);
    if v.step != Some(VersionStep::HomeMapping) {
        next_peer_is_elsewhere(v.sessions, v.home, v.position + 1);
    }
    assert(after.added.take(v.added.len() as int) =~= v.added);
}

/// The sources that are added are those that could be processed, in their
/// order and each with the label.
pub proof fn processed_sources_are_added(sources: Seq<Option<usize>>, label: Seq<char>)
    ensures
        labelled(sources, label) == sources.filter(|s: Option<usize>| s is Some).map_values(
            |s: Option<usize>| (s->0, label),
        ),
    decreases sources.len(),
{
    reveal(Seq::filter);
    let keep = |s: Option<usize>| s is Some;
    let name = |s: Option<usize>| (s->0, label);
    if sources.len() > 0 {
        let head = sources.drop_last();
        processed_sources_are_added(head, label);
        if sources.last() is Some {
            assert(head.filter(keep).push(sources.last()).map_values(name) =~= head.filter(
                keep,
            ).map_values(name).push(name(sources.last())));
        }
    } else {
        assert(labelled(sources, label) =~= sources.filter(keep).map_values(name));
    }
}

/// No other backend is passed over: a collection begins with the first session
/// that is on one, and goes on to the next such session, whatever came of the
/// one at hand; it is over when there is none left.
pub proof fn no_other_backend_is_passed_over(v: VersionsView, reply: VersionReplyView)
    requires
        orderly(v),
        v.step is Some,
        !asks_home(v.step->0),
    ensures
        ({
            let after = versions_advanced(v, reply);
            &&& after.sessions == v.sessions && after.home == v.home && after.key == v.key
            &&& after.position >= v.position
            &&& forall|k: int|
                v.position < k < after.position && k < v.sessions.len() ==> (
                #[trigger] v.sessions[k]).0 == v.home
            &&& after.step is None ==> after.position >= v.sessions.len()
            &&& after.position > v.position && after.step is Some ==> after.step == Some(
                VersionStep::Client,
            )
        }),
{
    next_peer_is_elsewhere(v.sessions, v.home, v.position + 1);
}

/// Where a collection begins: a known title with the first session on another
/// backend, an episode with a question to its own backend, and anything else
/// not at all.
pub proof fn collections_begin_by_identity(
    item_id: Seq<char>,
    key: MatchKeyView,
    home: i64,
    sessions: Seq<(i64, Seq<char>)>,
)
    ensures
        ({
            let known = versions_start(item_id, VersionIdentityView::Known(key), home, sessions);
            &&& known.key == Some(key)
            &&& known.added.len() == 0
            &&& 0 <= known.position <= sessions.len()
            &&& forall|k: int|
                0 <= k < known.position ==> (#[trigger] sessions[k]).0 == home
            &&& known.step is Some ==> known.step == Some(VersionStep::Client)
                && sessions[known.position].0 != home
            &&& known.step is None ==> known.position == sessions.len()
        }),
        ({
            let asking = versions_start(item_id, VersionIdentityView::AskHome, home, sessions);
            asking.step == Some(VersionStep::HomeMapping) && asking.key is None
                && asking.added.len() == 0 && asking.item_id == item_id
        }),
        versions_start(item_id, VersionIdentityView::Unversioned, home, sessions).step is None,
{
    next_peer_is_elsewhere(sessions, home, 0);
}

/// What a session of another backend is taken through: a client, the search,
/// the sources of the title that was found, and their collection. The first of
/// these that fails ends it, and nothing is added but what was collected.
pub proof fn sessions_are_taken_step_by_step(v: VersionsView, reply: VersionReplyView)
    requires
        orderly(v),
        v.step is Some,
        !asks_home(v.step->0),
    ensures
        ({
            let after = versions_advanced(v, reply);
            let failed = reply is Failed;
            let stays = |step: VersionStep|
                after.step == Some(step) && after.position == v.position;
            &&& match v.step->0 {
                VersionStep::Client => stays(VersionStep::Search) <==> !failed,
                VersionStep::Search => stays(VersionStep::Sources) <==> reply is Item,
                VersionStep::Sources => stays(VersionStep::Collect) <==> !failed,
                _ => true,
            }
            &&& !(stays(VersionStep::Search) || stays(VersionStep::Sources) || stays(
                VersionStep::Collect,
            )) ==> after.position > v.position && after.item is None
            &&& v.step == Some(VersionStep::Search) && reply is Item ==> after.item == Some(
                reply->Item_0,
            )
            &&& v.step == Some(VersionStep::Collect) && reply is Collected ==> after.added == v.added
                + reply->Collected_0.filter(|s: Option<usize>| s is Some).map_values(
                |s: Option<usize>| (s->0, v.sessions[v.position].1),
            )
            &&& !(v.step == Some(VersionStep::Collect) && reply is Collected) ==> after.added
                == v.added
        }),
{
    next_peer_is_elsewhere(v.sessions, v.home, v.position + 1);
    if let VersionReplyView::Collected(sources) = reply {
        processed_sources_are_added(sources, v.sessions[v.position].1);
    }
}

/// The questions to the item's own backend: the id it has there, a client for
/// the first session there, and the key. The first that is not answered ends
/// the collection without a key; a key that cannot be matched does so too, and
/// any other is the one by which the other backends are asked from the first
/// session on.
pub proof fn the_own_backend_gives_the_key(v: VersionsView, reply: VersionReplyView)
    requires
        orderly(v),
        v.step is Some,
        asks_home(v.step->0),
    ensures
        ({
            let after = versions_advanced(v, reply);
            &&& after.added == v.added
            &&& match v.step->0 {
                VersionStep::HomeMapping => if reply is Item && exists|k: int|
                    0 <= k < v.sessions.len() && (#[trigger] v.sessions[k]).0 == v.home {
                    &&& after.step == Some(VersionStep::HomeClient)
                    &&& after.item == Some(reply->Item_0)
                    &&& 0 <= after.position < v.sessions.len()
                    &&& v.sessions[after.position].0 == v.home
                    &&& forall|k: int|
                        0 <= k < after.position ==> (#[trigger] v.sessions[k]).0 != v.home
                } else {
                    after.step is None && after.key is None
                },
                VersionStep::HomeClient => after.step == if reply is Failed {
                    None
                } else {
                    Some(VersionStep::HomeKey)
                } && after.key is None && after.item == v.item && after.position == v.position,
                _ => if reply is Key && !match_key::unmatchable(reply->Key_0) {
                    &&& after.key == Some(reply->Key_0)
                    &&& forall|k: int|
                        0 <= k < after.position && k < v.sessions.len() ==> (
                        #[trigger] v.sessions[k]).0 == v.home
                    &&& after.step is Some ==> after.step == Some(VersionStep::Client)
                    &&& after.step is None ==> after.position >= v.sessions.len()
                } else {
                    after.step is None && after.key is None
                },
            }
        }),
{
    home_session_is_first(v.sessions, v.home, 0);
    next_peer_is_elsewhere(v.sessions, v.home, 0);
}

proof fn home_session_is_first(sessions: Seq<(i64, Seq<char>)>, home: i64, i: int)
    requires
        0 <= i <= sessions.len(),
    ensures
        i <= home_session(sessions, home, i) <= sessions.len(),
        home_session(sessions, home, i) < sessions.len() ==> sessions[home_session(
            sessions,
            home,
            i,
        )].0 == home,
        forall|k: int|
            i <= k < home_session(sessions, home, i) ==> (#[trigger] sessions[k]).0 != home,
    decreases sessions.len() - i,
{
    if i < sessions.len() && sessions[i].0 != home {
        home_session_is_first(sessions, home, i + 1);
    }
}

/// The item's own sources stand first, in their order and under the label of its
/// own backend, and the added ones behind them as they were added.
pub proof fn own_sources_stand_first(
    own: usize,
    home_name: Seq<char>,
    added: Seq<(usize, Seq<char>)>,
)
    ensures
        ({
            let all = own_sources(own, home_name) + added_sources(added);
            &&& all.len() == own + added.len()
            &&& forall|i: int|
                0 <= i < own ==> #[trigger] all[i] == (SourcePlace::Own(i as usize), home_name)
            &&& forall|i: int|
                0 <= i < added.len() ==> #[trigger] all[own + i] == (
                    SourcePlace::Added(added[i].0),
                    added[i].1,
                )
        }),
{
}

}
