//! Whole runs of the playback-state sync: carrying one change to every other
//! backend, and draining the retry queue.
//!
//! A run says what is to be done; the caller does it and hands back a reply,
//! until nothing is left. What a run has read it keeps, and hands it out with
//! each action that needs it.
use vstd::prelude::*;
use vstd::string::*;

use crate::json;
use crate::match_key;
use crate::match_key::{ItemUserData, MatchKey, MatchKeyView, UserDataView};
use crate::sync_queue;
use crate::sync_queue::{EntryView, QueueEntry};
use crate::watched_sync;
use crate::watched_sync::{
    DrainStep, FanOut, PeerOutcome, PeerProgress, PeerReply, PeerStep, QueueAction, UserSessions,
};

verus! {

/// A change of a title's state: the key under which the title is remembered,
/// how to find it on a peer, and the state.
#[derive(Debug)]
pub struct Change {
    pub title: String,
    pub key: MatchKey,
    pub user_data: ItemUserData,
}

/// The data in a [`Change`].
pub struct ChangeView {
    pub title: Seq<char>,
    pub key: MatchKeyView,
    pub user_data: UserDataView,
}

impl View for Change {
    type V = ChangeView;

    open spec fn view(&self) -> ChangeView {
        ChangeView { title: self.title@, key: self.key@, user_data: self.user_data@ }
    }
}

/// The data in a change, where there is one.
pub open spec fn change_view(c: Option<Change>) -> Option<ChangeView> {
    match c {
        Some(c) => Some(c@),
        None => None,
    }
}

/// What a step for a peer takes.
#[derive(Debug)]
pub enum PeerAction {
    /// Build a client with the session's token.
    Client,
    /// Ask the match cache what the peer's item of the title is.
    AskCache { title: String },
    /// Look the title up on the peer.
    Search { key: MatchKey },
    /// Put the peer's item of the title into the match cache.
    Remember { title: String, item: Option<String> },
    /// Apply the state to the peer's item.
    Apply { item: String, user_data: ItemUserData },
}

/// The data in a [`PeerAction`].
pub enum PeerActionView {
    Client,
    AskCache { title: Seq<char> },
    Search { key: MatchKeyView },
    Remember { title: Seq<char>, item: Option<Seq<char>> },
    Apply { item: Seq<char>, user_data: UserDataView },
}

impl View for PeerAction {
    type V = PeerActionView;

    open spec fn view(&self) -> PeerActionView {
        match *self {
            PeerAction::Client => PeerActionView::Client,
            PeerAction::AskCache { title } => PeerActionView::AskCache { title: title@ },
            PeerAction::Search { key } => PeerActionView::Search { key: key@ },
            PeerAction::Remember { title, item } => PeerActionView::Remember {
                title: title@,
                item: json::opt_text(item),
            },
            PeerAction::Apply { item, user_data } => PeerActionView::Apply {
                item: item@,
                user_data: user_data@,
            },
        }
    }
}

/// What a step for a peer gave.
#[derive(Debug, Clone)]
pub enum PeerAnswer {
    /// It worked.
    Done,
    /// It failed.
    Failed,
    /// The cache holds nothing of the title.
    Unknown,
    /// The peer's item of the title, or that there is none.
    Title(Option<String>),
}

/// The data in a [`PeerAnswer`].
pub enum PeerAnswerView {
    Done,
    Failed,
    Unknown,
    Title(Option<Seq<char>>),
}

impl View for PeerAnswer {
    type V = PeerAnswerView;

    open spec fn view(&self) -> PeerAnswerView {
        match *self {
            PeerAnswer::Done => PeerAnswerView::Done,
            PeerAnswer::Failed => PeerAnswerView::Failed,
            PeerAnswer::Unknown => PeerAnswerView::Unknown,
            PeerAnswer::Title(item) => PeerAnswerView::Title(json::opt_text(item)),
        }
    }
}

/// What an answer means for where the peer goes on.
pub open spec fn reply_in(answer: PeerAnswerView) -> PeerReply {
    match answer {
        PeerAnswerView::Done => PeerReply::Done,
        PeerAnswerView::Failed => PeerReply::Failed,
        PeerAnswerView::Unknown => PeerReply::Unknown,
        PeerAnswerView::Title(item) => PeerReply::Title { present: item is Some },
    }
}

fn reply_of(answer: &PeerAnswer) -> (r: PeerReply)
    ensures
        r == reply_in(answer@),
{
    match answer {
        PeerAnswer::Done => PeerReply::Done,
        PeerAnswer::Failed => PeerReply::Failed,
        PeerAnswer::Unknown => PeerReply::Unknown,
        PeerAnswer::Title(item) => PeerReply::Title { present: item.is_some() },
    }
}

/// The peer's item of the title, as far as it is known after an answer: the
/// cache and the lookup tell it.
pub open spec fn item_after(
    step: PeerStep,
    answer: PeerAnswerView,
    before: Option<Seq<char>>,
) -> Option<Seq<char>> {
    match (step, answer) {
        (PeerStep::AskCache, PeerAnswerView::Title(item)) => item,
        (PeerStep::Search, PeerAnswerView::Title(item)) => item,
        _ => before,
    }
}

fn item_told(step: PeerStep, answer: PeerAnswer, before: Option<String>) -> (r: Option<String>)
    ensures
        json::opt_text(r) == item_after(step, answer@, json::opt_text(before)),
{
    match (step, answer) {
        (PeerStep::AskCache, PeerAnswer::Title(item)) => item,
        (PeerStep::Search, PeerAnswer::Title(item)) => item,
        _ => before,
    }
}

/// Whether what a step for a peer needs of the item is known: the item that
/// the state is applied to, and that what is remembered was looked up.
pub open spec fn item_known(step: PeerStep, item: Option<Seq<char>>) -> bool {
    match step {
        PeerStep::Remember { present } => present == item is Some,
        PeerStep::Apply => item is Some,
        _ => true,
    }
}

/// What a step for a peer takes, for a change and the peer's item.
pub open spec fn peer_task(
    step: PeerStep,
    change: ChangeView,
    item: Option<Seq<char>>,
) -> PeerActionView {
    match step {
        PeerStep::Client => PeerActionView::Client,
        PeerStep::AskCache => PeerActionView::AskCache { title: change.title },
        PeerStep::Search => PeerActionView::Search { key: change.key },
        PeerStep::Remember { .. } => PeerActionView::Remember { title: change.title, item },
        PeerStep::Apply => PeerActionView::Apply {
            item: item->0,
            user_data: change.user_data,
        },
    }
}

fn peer_action(
    step: PeerStep,
    title: &String,
    key: &MatchKey,
    user_data: &ItemUserData,
    item: &Option<String>,
) -> (r: PeerAction)
    requires
        item_known(step, json::opt_text(*item)),
    ensures
        r@ == peer_task(
            step,
            ChangeView { title: title@, key: key@, user_data: user_data@ },
            json::opt_text(*item),
        ),
{
    match step {
        PeerStep::Client => PeerAction::Client,
        PeerStep::AskCache => PeerAction::AskCache { title: title.clone() },
        PeerStep::Search => PeerAction::Search { key: key.copy() },
        PeerStep::Remember { .. } => PeerAction::Remember {
            title: title.clone(),
            item: match item {
                Some(id) => Some(id.clone()),
                None => None,
            },
        },
        PeerStep::Apply => PeerAction::Apply {
            item: item.as_ref().unwrap().clone(),
            user_data: user_data.copy(),
        },
    }
}

/// What is to be done next to carry a change to the other backends.
#[derive(Clone, Copy, PartialEq, Eq, Debug, Structural)]
pub enum FanOutStep {
    /// Build a client for the backend that owns the item.
    SourceClient,
    /// Read the key and the state of the item there.
    ReadSource,
    /// Perform this step for the peer.
    Peer(PeerStep),
    /// Do this to the queued sync of the peer.
    Queue(QueueAction),
}

/// What carrying a change takes next. A session is given by its place.
#[derive(Debug)]
pub enum FanOutAction {
    /// Build a client for the backend that owns the item.
    SourceClient { session: usize },
    /// Read the key and the state of the item there.
    ReadSource { session: usize, item: String },
    /// Perform this for the peer.
    Peer { session: usize, server_id: i64, action: PeerAction },
    /// Remove the queued sync of the title for the peer.
    Remove { session: usize, server_id: i64, title: String },
    /// Queue the change for the peer.
    Enqueue { session: usize, server_id: i64, change: Change },
}

/// The data in a [`FanOutAction`].
pub enum FanOutActionView {
    SourceClient { session: int },
    ReadSource { session: int, item: Seq<char> },
    Peer { session: int, server_id: i64, action: PeerActionView },
    Remove { session: int, server_id: i64, title: Seq<char> },
    Enqueue { session: int, server_id: i64, change: ChangeView },
}

impl View for FanOutAction {
    type V = FanOutActionView;

    open spec fn view(&self) -> FanOutActionView {
        match *self {
            FanOutAction::SourceClient { session } => FanOutActionView::SourceClient {
                session: session as int,
            },
            FanOutAction::ReadSource { session, item } => FanOutActionView::ReadSource {
                session: session as int,
                item: item@,
            },
            FanOutAction::Peer { session, server_id, action } => FanOutActionView::Peer {
                session: session as int,
                server_id,
                action: action@,
            },
            FanOutAction::Remove { session, server_id, title } => FanOutActionView::Remove {
                session: session as int,
                server_id,
                title: title@,
            },
            FanOutAction::Enqueue { session, server_id, change } => FanOutActionView::Enqueue {
                session: session as int,
                server_id,
                change: change@,
            },
        }
    }
}

/// What performing a step gave.
#[derive(Debug)]
pub enum FanOutReply {
    /// It worked.
    Done,
    /// It failed.
    Failed,
    /// The key and the state of the item.
    Source { key: MatchKey, user_data: ItemUserData },
    /// What the step for the peer gave.
    Peer(PeerAnswer),
    /// The time for the peer is over.
    TimedOut,
}

/// The data in a [`FanOutReply`].
pub enum FanOutReplyView {
    Done,
    Failed,
    Source { key: MatchKeyView, user_data: UserDataView },
    Peer(PeerAnswerView),
    TimedOut,
}

/// The data in a reply.
pub open spec fn fan_out_reply_view(r: FanOutReply) -> FanOutReplyView {
    match r {
        FanOutReply::Done => FanOutReplyView::Done,
        FanOutReply::Failed => FanOutReplyView::Failed,
        FanOutReply::Source { key, user_data } => FanOutReplyView::Source {
            key: key@,
            user_data: user_data@,
        },
        FanOutReply::Peer(answer) => FanOutReplyView::Peer(answer@),
        FanOutReply::TimedOut => FanOutReplyView::TimedOut,
    }
}

/// A change on its way to the other backends.
pub struct FanOutRun {
    servers: Vec<i64>,
    source: i64,
    source_item: String,
    plan: FanOut,
    change: Option<Change>,
    item: Option<String>,
    position: usize,
    step: Option<FanOutStep>,
    settled: Vec<(usize, QueueAction)>,
}

/// The state of a fan-out: the servers of the user's sessions, the one that
/// owns the item, the item there, the change that was read, the peer at hand,
/// its item of the title, the step to be performed, and what was done to the
/// queued sync of each peer, by its session. The places of the source and of
/// the peers follow from the servers.
pub struct FanOutView {
    pub servers: Seq<i64>,
    pub source: i64,
    pub source_item: Seq<char>,
    pub change: Option<ChangeView>,
    pub item: Option<Seq<char>>,
    pub position: int,
    pub step: Option<FanOutStep>,
    pub settled: Seq<(int, QueueAction)>,
}

/// The session on the backend that owns the item.
pub open spec fn source_of(v: FanOutView) -> int {
    watched_sync::session_on(v.servers, v.source)->0
}

/// The sessions that stand for the peers.
pub open spec fn peers_of(v: FanOutView) -> Seq<int> {
    watched_sync::peers_below(v.servers, v.source, v.servers.len())
}

/// The settled peers with mathematical places.
pub open spec fn settled_views(s: Seq<(usize, QueueAction)>) -> Seq<(int, QueueAction)> {
    s.map_values(|p: (usize, QueueAction)| (p.0 as int, p.1))
}

impl View for FanOutRun {
    type V = FanOutView;

    closed spec fn view(&self) -> FanOutView {
        FanOutView {
            servers: self.servers@,
            source: self.source,
            source_item: self.source_item@,
            change: change_view(self.change),
            item: json::opt_text(self.item),
            position: self.position as int,
            step: self.step,
            settled: settled_views(self.settled@),
        }
    }
}

/// A fan-out that has not begun. There is nothing to do without a session on
/// the backend that owns the item, or without peers.
pub open spec fn fan_out_start(
    servers: Seq<i64>,
    source: i64,
    source_item: Seq<char>,
) -> FanOutView {
    FanOutView {
        servers,
        source,
        source_item,
        change: None,
        item: None,
        position: 0,
        step: if servers.contains(source) && watched_sync::peers_below(
            servers,
            source,
            servers.len(),
        ).len() > 0 {
            Some(FanOutStep::SourceClient)
        } else {
            None
        },
        settled: Seq::empty(),
    }
}

/// What carrying the change takes next, while there is a step.
pub open spec fn fan_out_task(v: FanOutView) -> FanOutActionView {
    let session = peers_of(v)[v.position];
    let server_id = v.servers[session];
    match v.step->0 {
        FanOutStep::SourceClient => FanOutActionView::SourceClient { session: source_of(v) },
        FanOutStep::ReadSource => FanOutActionView::ReadSource {
            session: source_of(v),
            item: v.source_item,
        },
        FanOutStep::Peer(step) => FanOutActionView::Peer {
            session,
            server_id,
            action: peer_task(step, v.change->0, v.item),
        },
        FanOutStep::Queue(QueueAction::Enqueue) => FanOutActionView::Enqueue {
            session,
            server_id,
            change: v.change->0,
        },
        FanOutStep::Queue(_) => FanOutActionView::Remove {
            session,
            server_id,
            title: v.change->0.title,
        },
    }
}

/// The fan-out with the peer at a position at hand, of which nothing is known.
pub open spec fn at_peer(v: FanOutView, position: int) -> FanOutView {
    FanOutView {
        position,
        item: None,
        step: if position < peers_of(v).len() {
            Some(FanOutStep::Peer(PeerStep::Client))
        } else {
            None
        },
        ..v
    }
}

/// What a reply says of the step for a peer; anything else counts as a failure.
pub open spec fn told_of_peer(reply: FanOutReplyView) -> PeerAnswerView {
    match reply {
        FanOutReplyView::Peer(a) => a,
        _ => PeerAnswerView::Failed,
    }
}

/// What a step for a peer leads to.
pub open spec fn after_peer_step(step: PeerStep, reply: FanOutReplyView) -> FanOutStep {
    match reply {
        FanOutReplyView::TimedOut => FanOutStep::Queue(
            watched_sync::fan_out_action(PeerOutcome::Failed),
        ),
        _ => match watched_sync::peer_progress(step, reply_in(told_of_peer(reply))) {
            PeerProgress::Go(next) => FanOutStep::Peer(next),
            PeerProgress::End(outcome) => FanOutStep::Queue(watched_sync::fan_out_action(outcome)),
        },
    }
}

/// The fan-out after a reply.
pub open spec fn fan_out_advanced(v: FanOutView, reply: FanOutReplyView) -> FanOutView {
    match v.step {
        None => v,
        Some(FanOutStep::SourceClient) => FanOutView {
            step: if reply is Failed {
                None
            } else {
                Some(FanOutStep::ReadSource)
            },
            ..v
        },
        Some(FanOutStep::ReadSource) => match reply {
            FanOutReplyView::Source { key, user_data } => if match_key::unmatchable(key) {
                FanOutView { step: None, ..v }
            } else {
                let change = ChangeView { title: match_key::cache_text(key), key, user_data };
                at_peer(FanOutView { change: Some(change), ..v }, 0)
            },
            _ => FanOutView { step: None, ..v },
        },
        Some(FanOutStep::Peer(step)) => FanOutView {
            step: Some(after_peer_step(step, reply)),
            item: item_after(step, told_of_peer(reply), v.item),
            ..v
        },
        Some(FanOutStep::Queue(action)) => at_peer(
            FanOutView { settled: v.settled.push((peers_of(v)[v.position], action)), ..v },
            v.position + 1,
        ),
    }
}

/// What holds of a fan-out at all times: a peer is at hand while one is dealt
/// with, the peers before it were settled in their order, none is dealt with
/// before the change is known, and the title is that of the change's key.
pub open spec fn fan_out_in_order(v: FanOutView) -> bool {
    &&& v.step matches Some(s) ==> if s == FanOutStep::SourceClient || s == FanOutStep::ReadSource {
        v.change is None && v.settled.len() == 0 && v.servers.contains(v.source)
    } else {
        v.change is Some && 0 <= v.position < peers_of(v).len() && v.settled.len() == v.position
    }
    &&& v.step matches Some(FanOutStep::Peer(step)) ==> item_known(step, v.item)
    &&& v.step matches Some(FanOutStep::Queue(action)) ==> action == QueueAction::Remove || action
        == QueueAction::Enqueue
    &&& v.change matches Some(c) ==> c.title == match_key::cache_text(c.key)
        && !match_key::unmatchable(c.key)
    &&& v.change is None ==> v.settled.len() == 0
    &&& v.change is Some && v.step is None ==> v.settled.len() == peers_of(v).len()
    &&& v.settled.len() <= peers_of(v).len()
    &&& forall|k: int| 0 <= k < v.settled.len() ==> (#[trigger] v.settled[k]).0 == peers_of(v)[k]
}

impl FanOutRun {
    /// The plan is the one for the sessions, where there is anything to do.
    pub closed spec fn well_formed(self) -> bool {
        &&& fan_out_in_order(self@)
        &&& self.step is Some ==> self.planned()
    }

    spec fn planned(self) -> bool {
        &&& self.plan.peers@.map_values(|i: usize| i as int) == peers_of(self@)
        &&& self.plan.source == source_of(self@)
    }

    /// The place of the session at hand and the step to perform for it; `None`
    /// when the fan-out is over.
    pub fn pending(&self) -> (r: Option<(usize, FanOutStep)>)
        requires
            self.well_formed(),
        ensures
            match r {
                Some((at, step)) => self@.step == Some(step) && at as int == (if step
                    == FanOutStep::SourceClient || step == FanOutStep::ReadSource {
                    source_of(self@)
                } else {
                    peers_of(self@)[self@.position]
                }),
                None => self@.step is None,
            },
    {
        match self.step {
            None => None,
            Some(FanOutStep::SourceClient) => Some((self.plan.source, FanOutStep::SourceClient)),
            Some(FanOutStep::ReadSource) => Some((self.plan.source, FanOutStep::ReadSource)),
            Some(step) => Some((self.peer_at_hand(), step)),
        }
    }

    /// The session of the peer at hand.
    fn peer_at_hand(&self) -> (r: usize)
        requires
            self.planned(),
            0 <= self@.position < peers_of(self@).len(),
        ensures
            r as int == peers_of(self@)[self@.position],
            r < self.servers.len(),
            self.position < usize::MAX,
    {
        proof {
            watched_sync::every_other_server_is_a_peer_once(
                self.servers@,
                self.source,
                self.servers@.len(),
            );
        }
        let ghost places = self.plan.peers@.map_values(|i: usize| i as int);
        assert(places.len() == self.plan.peers.len());
        assert(places[self.position as int] == self.plan.peers[self.position as int]);
        self.plan.peers[self.position]
    }

    /// What is to be done next; `None` when the fan-out is over.
    pub fn action(&self) -> (r: Option<FanOutAction>)
        requires
            self.well_formed(),
        ensures
            match r {
                Some(action) => self@.step is Some && action@ == fan_out_task(self@),
                None => self@.step is None,
            },
    {
        let Some(step) = self.step else {
            return None;
        };
        if step == FanOutStep::SourceClient {
            return Some(FanOutAction::SourceClient { session: self.plan.source });
        }
        if step == FanOutStep::ReadSource {
            return Some(
                FanOutAction::ReadSource {
                    session: self.plan.source,
                    item: self.source_item.clone(),
                },
            );
        }
        let session = self.peer_at_hand();
        let server_id: i64 = self.servers[session];
        let Change { title, key, user_data } = self.change.as_ref().unwrap();
        match step {
            FanOutStep::Peer(step) => Some(
                FanOutAction::Peer {
                    session,
                    server_id,
                    action: peer_action(step, title, key, user_data, &self.item),
                },
            ),
            FanOutStep::Queue(QueueAction::Enqueue) => Some(
                FanOutAction::Enqueue {
                    session,
                    server_id,
                    change: Change {
                        title: title.clone(),
                        key: key.copy(),
                        user_data: user_data.copy(),
                    },
                },
            ),
            _ => Some(FanOutAction::Remove { session, server_id, title: title.clone() }),
        }
    }

    fn to_peer(&mut self, position: usize)
        requires
            old(self).planned(),
        ensures
            final(self)@ == at_peer(old(self)@, position as int),
            final(self).planned(),
    {
        assert(peers_of(self@).len() == self.plan.peers.len());
        self.position = position;
        self.item = None;
        self.step = if position < self.plan.peers.len() {
            Some(FanOutStep::Peer(PeerStep::Client))
        } else {
            None
        };
    }

    /// Takes the reply to the pending step.
    pub fn reply(&mut self, reply: FanOutReply)
        requires
            old(self).well_formed(),
        ensures
            final(self).well_formed(),
            final(self)@ == fan_out_advanced(old(self)@, fan_out_reply_view(reply)),
    {
        let ghost before = self@;
        proof {
            fan_outs_stay_in_order(before, fan_out_reply_view(reply));
        }
        let Some(step) = self.step else {
            return ;
        };
        match step {
            FanOutStep::SourceClient => {
                self.step = match reply {
                    FanOutReply::Failed => None,
                    _ => Some(FanOutStep::ReadSource),
                };
            },
            FanOutStep::ReadSource => {
                let change = match reply {
                    FanOutReply::Source { key, user_data } => match watched_sync::sync_title(&key) {
                        Some(title) => Some(Change { title, key, user_data }),
                        None => None,
                    },
                    _ => None,
                };
                if change.is_some() {
                    self.change = change;
                    self.to_peer(0);
                } else {
                    self.step = None;
                }
            },
            FanOutStep::Peer(step) => {
                let (late, answer) = match reply {
                    FanOutReply::TimedOut => (true, PeerAnswer::Failed),
                    FanOutReply::Peer(a) => (false, a),
                    _ => (false, PeerAnswer::Failed),
                };
                let next = if late {
                    PeerProgress::End(PeerOutcome::Failed)
                } else {
                    watched_sync::sync_one_peer(step, reply_of(&answer))
                };
                let known = self.item.take();
                self.item = item_told(step, answer, known);
                self.step = match next {
                    PeerProgress::Go(next) => Some(FanOutStep::Peer(next)),
                    PeerProgress::End(outcome) => Some(
                        FanOutStep::Queue(watched_sync::after_fan_out(outcome)),
                    ),
                };
            },
            FanOutStep::Queue(action) => {
                let session = self.peer_at_hand();
                let ghost so_far = settled_views(self.settled@);
                self.settled.push((session, action));
                assert(settled_views(self.settled@) =~= so_far.push(
                    (peers_of(before)[before.position], action),
                ));
                let next: usize = self.position + 1;
                self.to_peer(next);
            },
        }
    }
}

/// Starts carrying the change of an item to every other backend of the user,
/// whose sessions are given by their server ids. All sessions take part, those
/// of ejected backends too, so that a peer that is down gets queued.
pub fn start_fan_out(servers: Vec<i64>, source_server_id: i64, source_item: String) -> (r:
    FanOutRun)
    ensures
        r.well_formed(),
        r@ == fan_out_start(servers@, source_server_id, source_item@),
{
    let found = watched_sync::fan_out(&servers, source_server_id);
    let (plan, step) = match found {
        Some(plan) => (plan, Some(FanOutStep::SourceClient)),
        None => (FanOut { source: 0, peers: Vec::new() }, None),
    };
    let r = FanOutRun {
        servers,
        source: source_server_id,
        source_item,
        plan,
        change: None,
        item: None,
        position: 0,
        step,
        settled: Vec::new(),
    };
    assert(r@.settled =~= Seq::<(int, QueueAction)>::empty());
    proof {
        if r.step is Some {
            assert(servers@[r.plan.source as int] == source_server_id);
            watched_sync::first_session_is_found(servers@, r.plan.source as int);
        }
    }
    r
}

/// A reply keeps what holds of a fan-out at all times.
pub proof fn fan_outs_stay_in_order(v: FanOutView, reply: FanOutReplyView)
    requires
        fan_out_in_order(v),
    ensures
        fan_out_in_order(fan_out_advanced(v, reply)),
{
    let after = fan_out_advanced(v, reply);
    assert(peers_of(after) == peers_of(v));
    assert forall|k: int| 0 <= k < after.settled.len() implies (#[trigger] after.settled[k]).0
        == peers_of(after)[k] by {
        if k < v.settled.len() {
            assert(after.settled[k] == v.settled[k]);
        }
    }
}

/// The fan-out after a list of replies.
pub open spec fn fan_out_after(v: FanOutView, replies: Seq<FanOutReplyView>) -> FanOutView
    decreases replies.len(),
{
    if replies.len() == 0 {
        v
    } else {
        fan_out_advanced(fan_out_after(v, replies.drop_last()), replies.last())
    }
}

/// No peer is forgotten: whatever the replies are, a fan-out whose change is
/// known ends with every peer settled once, in the order of the sessions.
pub proof fn every_peer_is_settled(
    servers: Seq<i64>,
    source: i64,
    source_item: Seq<char>,
    replies: Seq<FanOutReplyView>,
)
    ensures
        ({
            let v = fan_out_after(fan_out_start(servers, source, source_item), replies);
            &&& fan_out_in_order(v)
            &&& v.servers == servers && v.source == source && v.source_item == source_item
            &&& v.change is Some && v.step is None ==> v.settled.map_values(
                |p: (int, QueueAction)| p.0,
            ) == watched_sync::peers_below(servers, source, servers.len())
        }),
    decreases replies.len(),
{
    let start = fan_out_start(servers, source, source_item);
    let v = fan_out_after(start, replies);
    if replies.len() > 0 {
        every_peer_is_settled(servers, source, source_item, replies.drop_last());
        fan_outs_stay_in_order(fan_out_after(start, replies.drop_last()), replies.last());
    }
    if v.change is Some && v.step is None {
        assert(v.settled.map_values(|p: (int, QueueAction)| p.0)
            =~= watched_sync::peers_below(servers, source, servers.len()));
    }
}

/// What is carried is what the source was read to have: the second reply, to
/// the reading of the item. It never changes after that.
pub proof fn the_change_was_read(
    servers: Seq<i64>,
    source: i64,
    source_item: Seq<char>,
    replies: Seq<FanOutReplyView>,
)
    ensures
        ({
            let v = fan_out_after(fan_out_start(servers, source, source_item), replies);
            &&& v.step == Some(FanOutStep::SourceClient) ==> replies.len() == 0
            &&& v.step == Some(FanOutStep::ReadSource) ==> replies.len() == 1
            &&& v.change matches Some(c) ==> replies.len() >= 2 && replies[1] == (
            FanOutReplyView::Source { key: c.key, user_data: c.user_data }) && c.title
                == match_key::cache_text(c.key)
        }),
    decreases replies.len(),
{
    if replies.len() > 0 {
        let before = replies.drop_last();
        the_change_was_read(servers, source, source_item, before);
        every_peer_is_settled(servers, source, source_item, before);
        assert(replies.len() > 2 ==> before[1] == replies[1]);
    }
}

/// Whether what is done for a peer carries this change.
pub open spec fn carries(action: PeerActionView, change: ChangeView) -> bool {
    match action {
        PeerActionView::Client => true,
        PeerActionView::AskCache { title } => title == change.title,
        PeerActionView::Search { key } => key == change.key,
        PeerActionView::Remember { title, .. } => title == change.title,
        PeerActionView::Apply { user_data, .. } => user_data == change.user_data,
    }
}

/// Every peer and every queued sync gets the key and the state that the source
/// was read to have, and the source itself is never written: whatever comes
/// after the reading is done through a session on another backend.
pub proof fn peers_get_the_state_of_the_source(
    servers: Seq<i64>,
    source: i64,
    source_item: Seq<char>,
    replies: Seq<FanOutReplyView>,
)
    ensures
        ({
            let v = fan_out_after(fan_out_start(servers, source, source_item), replies);
            v.step is Some ==> match fan_out_task(v) {
                FanOutActionView::SourceClient { session } => servers[session] == source,
                FanOutActionView::ReadSource { session, item } => servers[session] == source
                    && item == source_item,
                FanOutActionView::Peer { session, server_id, action } => {
                    &&& server_id == servers[session] && server_id != source
                    &&& replies.len() >= 2
                    &&& replies[1] matches FanOutReplyView::Source { key, user_data } && carries(
                        action,
                        ChangeView { title: match_key::cache_text(key), key, user_data },
                    )
                },
                FanOutActionView::Remove { session, server_id, title } => {
                    &&& server_id == servers[session] && server_id != source
                    &&& replies.len() >= 2
                    &&& replies[1] matches FanOutReplyView::Source { key, .. } && title
                        == match_key::cache_text(key)
                },
                FanOutActionView::Enqueue { session, server_id, change } => {
                    &&& server_id == servers[session] && server_id != source
                    &&& replies.len() >= 2
                    &&& replies[1] matches FanOutReplyView::Source { key, user_data } && change == (
                    ChangeView { title: match_key::cache_text(key), key, user_data })
                },
            }
        }),
{
    every_peer_is_settled(servers, source, source_item, replies);
    the_change_was_read(servers, source, source_item, replies);
    watched_sync::every_other_server_is_a_peer_once(servers, source, servers.len());
    watched_sync::sessions_are_found(servers, source);
}

/// The state is applied to the item that the cache or the lookup named for this
/// peer, and what is remembered is what the lookup just told.
pub proof fn items_are_those_of_the_peer(v: FanOutView, reply: FanOutReplyView)
    requires
        fan_out_in_order(v),
    ensures
        ({
            let after = fan_out_advanced(v, reply);
            &&& after.step == Some(FanOutStep::Peer(PeerStep::Apply)) ==> {
                ||| v.step == Some(FanOutStep::Peer(PeerStep::AskCache)) && reply
                    == FanOutReplyView::Peer(PeerAnswerView::Title(after.item))
                ||| v.step == Some(FanOutStep::Peer(PeerStep::Remember { present: true })) && v.item
                    == after.item
            }
            &&& after.step matches Some(FanOutStep::Peer(PeerStep::Remember { .. })) ==> v.step
                == Some(FanOutStep::Peer(PeerStep::Search)) && reply == FanOutReplyView::Peer(
                PeerAnswerView::Title(after.item),
            )
            &&& after.step == Some(FanOutStep::Peer(PeerStep::Client)) ==> after.item is None
        }),
{
}

/// A peer that could not be synced is queued: its queued sync is removed only
/// if the state was applied or the peer is known not to have the title.
pub proof fn failed_peers_are_queued(v: FanOutView, reply: FanOutReplyView, step: PeerStep)
    requires
        v.step == Some(FanOutStep::Peer(step)),
    ensures
        fan_out_advanced(v, reply).step matches Some(FanOutStep::Queue(action)) ==> if action
            == QueueAction::Remove {
            let told = reply_in(told_of_peer(reply));
            reply !is TimedOut && (watched_sync::peer_progress(step, told) == PeerProgress::End(
                PeerOutcome::Synced,
            ) || watched_sync::peer_progress(step, told) == PeerProgress::End(PeerOutcome::NoMatch))
        } else {
            action == QueueAction::Enqueue
        },
{
}

/// What is to be done next about a queued sync.
#[derive(Clone, Copy, PartialEq, Eq, Debug, Structural)]
pub enum DrainRunStep {
    /// Ask whether the backend is ejected.
    Health,
    /// Look up the sessions of the user.
    Sessions,
    /// Perform this step for the backend, through the session at this place.
    Peer { session: usize, step: PeerStep },
    /// Do this to the queued sync.
    Act(QueueAction),
}

/// What a queued sync takes next.
#[derive(Debug)]
pub enum DrainAction {
    /// Ask whether the backend is ejected.
    Health { server_id: i64 },
    /// Look up the sessions of the user.
    Sessions { user_id: String },
    /// Perform this for the backend, through the session at this place.
    Peer { session: usize, server_id: i64, action: PeerAction },
    /// Do this to the queued sync.
    Act { id: i64, action: QueueAction },
}

/// The data in a [`DrainAction`].
pub enum DrainActionView {
    Health { server_id: i64 },
    Sessions { user_id: Seq<char> },
    Peer { session: int, server_id: i64, action: PeerActionView },
    Act { id: i64, action: QueueAction },
}

impl View for DrainAction {
    type V = DrainActionView;

    open spec fn view(&self) -> DrainActionView {
        match *self {
            DrainAction::Health { server_id } => DrainActionView::Health { server_id },
            DrainAction::Sessions { user_id } => DrainActionView::Sessions { user_id: user_id@ },
            DrainAction::Peer { session, server_id, action } => DrainActionView::Peer {
                session: session as int,
                server_id,
                action: action@,
            },
            DrainAction::Act { id, action } => DrainActionView::Act { id, action },
        }
    }
}

/// What performing a step gave.
#[derive(Debug)]
pub enum DrainReply {
    Ejected(bool),
    Sessions(UserSessions),
    Peer(PeerAnswer),
    Done,
}

/// A drain of queued syncs.
pub struct DrainRun {
    entries: Vec<QueueEntry>,
    item: Option<String>,
    position: usize,
    step: Option<DrainRunStep>,
    verdicts: Vec<QueueAction>,
}

/// The state of a drain: the queued syncs, the sync at hand, the backend's item
/// of its title, the step to be performed, and what was done about each sync so
/// far.
pub struct DrainView {
    pub entries: Seq<EntryView>,
    pub item: Option<Seq<char>>,
    pub position: int,
    pub step: Option<DrainRunStep>,
    pub verdicts: Seq<QueueAction>,
}

impl View for DrainRun {
    type V = DrainView;

    closed spec fn view(&self) -> DrainView {
        DrainView {
            entries: sync_queue::entries(self.entries@),
            item: json::opt_text(self.item),
            position: self.position as int,
            step: self.step,
            verdicts: self.verdicts@,
        }
    }
}

/// The change that a queued sync carries.
pub open spec fn change_in(e: EntryView) -> ChangeView {
    ChangeView { title: e.title_key, key: e.match_key, user_data: e.user_data }
}

/// What the drain takes next, while there is a step.
pub open spec fn drain_task(v: DrainView) -> DrainActionView {
    let e = v.entries[v.position];
    match v.step->0 {
        DrainRunStep::Health => DrainActionView::Health { server_id: e.server_id },
        DrainRunStep::Sessions => DrainActionView::Sessions { user_id: e.user_id },
        DrainRunStep::Peer { session, step } => DrainActionView::Peer {
            session: session as int,
            server_id: e.server_id,
            action: peer_task(step, change_in(e), v.item),
        },
        DrainRunStep::Act(action) => DrainActionView::Act { id: e.id, action },
    }
}

/// The drain with the sync at a position at hand.
pub open spec fn at_entry(v: DrainView, position: int) -> DrainView {
    DrainView {
        position,
        item: None,
        step: if position < v.entries.len() {
            Some(DrainRunStep::Health)
        } else {
            None
        },
        ..v
    }
}

/// A drain that has not begun.
pub open spec fn drain_start(entries: Seq<EntryView>) -> DrainView {
    at_entry(
        DrainView { entries, item: None, position: 0, step: None, verdicts: Seq::empty() },
        0,
    )
}

/// The drain after the sync at hand was settled.
pub open spec fn settled_entry(v: DrainView, action: QueueAction) -> DrainView {
    at_entry(DrainView { verdicts: v.verdicts.push(action), ..v }, v.position + 1)
}

/// What a reply says of the step for a backend; anything else counts as a
/// failure.
pub open spec fn told_of_entry(reply: DrainReply) -> PeerAnswerView {
    match reply {
        DrainReply::Peer(a) => a@,
        _ => PeerAnswerView::Failed,
    }
}

/// The drain after a reply.
pub open spec fn drain_advanced(v: DrainView, reply: DrainReply) -> DrainView {
    match v.step {
        None => v,
        Some(DrainRunStep::Health) => match reply {
            DrainReply::Ejected(false) => DrainView { step: Some(DrainRunStep::Sessions), ..v },
            _ => settled_entry(v, QueueAction::Keep),
        },
        Some(DrainRunStep::Sessions) => match reply {
            DrainReply::Sessions(sessions) => match watched_sync::drain_decision(
                false,
                sessions,
                v.entries[v.position].server_id,
            ) {
                DrainStep::Settle(QueueAction::Keep) => settled_entry(v, QueueAction::Keep),
                DrainStep::Settle(action) => DrainView {
                    step: Some(DrainRunStep::Act(action)),
                    ..v
                },
                DrainStep::Try(session) => DrainView {
                    step: Some(DrainRunStep::Peer { session, step: PeerStep::Client }),
                    ..v
                },
            },
            _ => settled_entry(v, QueueAction::Keep),
        },
        Some(DrainRunStep::Peer { session, step }) => DrainView {
            step: match watched_sync::peer_progress(step, reply_in(told_of_entry(reply))) {
                PeerProgress::Go(next) => Some(DrainRunStep::Peer { session, step: next }),
                PeerProgress::End(outcome) => Some(
                    DrainRunStep::Act(watched_sync::drain_action(outcome)),
                ),
            },
            item: item_after(step, told_of_entry(reply), v.item),
            ..v
        },
        Some(DrainRunStep::Act(action)) => settled_entry(v, action),
    }
}

/// What holds of a drain at all times: a sync is at hand while there is a
/// step, the syncs before it were settled, and the state is applied only to a
/// known item.
pub open spec fn drain_in_order(v: DrainView) -> bool {
    &&& v.verdicts.len() == v.position
    &&& v.step is Some ==> v.position < v.entries.len()
    &&& v.step is None ==> v.position == v.entries.len()
    &&& v.step matches Some(DrainRunStep::Peer { step, .. }) ==> item_known(step, v.item)
}

impl DrainRun {
    /// What holds of a drain at all times.
    pub open spec fn well_formed(self) -> bool {
        drain_in_order(self@)
    }

    /// The place of the sync at hand and the step to perform; `None` when the
    /// drain is over.
    pub fn pending(&self) -> (r: Option<(usize, DrainRunStep)>)
        ensures
            match r {
                Some((at, step)) => self@.step == Some(step) && at == self@.position,
                None => self@.step is None,
            },
    {
        match self.step {
            Some(step) => Some((self.position, step)),
            None => None,
        }
    }

    /// The place of the sync at hand and what is to be done about it; `None`
    /// when the drain is over.
    pub fn action(&self) -> (r: Option<(usize, DrainAction)>)
        requires
            self.well_formed(),
        ensures
            match r {
                Some((at, action)) => self@.step is Some && at == self@.position && action@
                    == drain_task(self@),
                None => self@.step is None,
            },
    {
        let Some(step) = self.step else {
            return None;
        };
        assert(sync_queue::entries(self.entries@)[self.position as int]
            == self.entries[self.position as int]@);
        let e = &self.entries[self.position];
        let action = match step {
            DrainRunStep::Health => DrainAction::Health { server_id: e.server_id },
            DrainRunStep::Sessions => DrainAction::Sessions { user_id: e.user_id.clone() },
            DrainRunStep::Peer { session, step } => DrainAction::Peer {
                session,
                server_id: e.server_id,
                action: peer_action(step, &e.title_key, &e.match_key, &e.user_data, &self.item),
            },
            DrainRunStep::Act(action) => DrainAction::Act { id: e.id, action },
        };
        Some((self.position, action))
    }

    fn settle(&mut self, action: QueueAction)
        requires
            old(self).position < old(self).entries.len(),
        ensures
            final(self)@ == settled_entry(old(self)@, action),
    {
        self.verdicts.push(action);
        self.position = self.position + 1;
        self.item = None;
        self.step = if self.position < self.entries.len() {
            Some(DrainRunStep::Health)
        } else {
            None
        };
    }

    /// Takes the reply to the pending step.
    pub fn reply(&mut self, reply: DrainReply)
        requires
            old(self).well_formed(),
        ensures
            final(self).well_formed(),
            final(self)@ == drain_advanced(old(self)@, reply),
    {
        let Some(step) = self.step else {
            return ;
        };
        match step {
            DrainRunStep::Health => {
                if let DrainReply::Ejected(false) = reply {
                    self.step = Some(DrainRunStep::Sessions);
                } else {
                    self.settle(QueueAction::Keep);
                }
            },
            DrainRunStep::Sessions => {
                if let DrainReply::Sessions(sessions) = reply {
                    assert(sync_queue::entries(self.entries@)[self.position as int]
                        == self.entries[self.position as int]@);
                    let server_id: i64 = self.entries[self.position].server_id;
                    match watched_sync::drain_queue(false, &sessions, server_id) {
                        DrainStep::Settle(QueueAction::Keep) => {
                            self.settle(QueueAction::Keep);
                        },
                        DrainStep::Settle(action) => {
                            self.step = Some(DrainRunStep::Act(action));
                        },
                        DrainStep::Try(session) => {
                            self.step = Some(
                                DrainRunStep::Peer { session, step: PeerStep::Client },
                            );
                        },
                    }
                } else {
                    self.settle(QueueAction::Keep);
                }
            },
            DrainRunStep::Peer { session, step } => {
                let answer = match reply {
                    DrainReply::Peer(a) => a,
                    _ => PeerAnswer::Failed,
                };
                self.step = match watched_sync::sync_one_peer(step, reply_of(&answer)) {
                    PeerProgress::Go(next) => Some(DrainRunStep::Peer { session, step: next }),
                    PeerProgress::End(outcome) => Some(
                        DrainRunStep::Act(watched_sync::after_drain(outcome)),
                    ),
                };
                let known = self.item.take();
                self.item = item_told(step, answer, known);
            },
            DrainRunStep::Act(action) => {
                self.settle(action);
            },
        }
    }
}

/// Starts a drain of queued syncs.
pub fn start_drain(entries: Vec<QueueEntry>) -> (r: DrainRun)
    ensures
        r.well_formed(),
        r@ == drain_start(sync_queue::entries(entries@)),
{
    let step = if entries.len() > 0 {
        Some(DrainRunStep::Health)
    } else {
        None
    };
    DrainRun { entries, item: None, position: 0, step, verdicts: Vec::new() }
}

/// The drain after a list of replies.
pub open spec fn drain_after(v: DrainView, replies: Seq<DrainReply>) -> DrainView
    decreases replies.len(),
{
    if replies.len() == 0 {
        v
    } else {
        drain_advanced(drain_after(v, replies.drop_last()), replies.last())
    }
}

/// A drain deals with every queued sync once, in their order: when it is over,
/// each has its verdict. The queued syncs stay as they were given, so that each
/// backend gets the key and the state that were queued for it.
pub proof fn every_entry_is_dealt_with(entries: Seq<EntryView>, replies: Seq<DrainReply>)
    ensures
        ({
            let v = drain_after(drain_start(entries), replies);
            &&& drain_in_order(v)
            &&& v.entries == entries
            &&& v.step is None ==> v.verdicts.len() == entries.len()
            &&& v.step is Some ==> match drain_task(v) {
                DrainActionView::Peer { server_id, action, .. } => server_id
                    == entries[v.position].server_id && carries(
                    action,
                    change_in(entries[v.position]),
                ),
                DrainActionView::Act { id, .. } => id == entries[v.position].id,
                _ => true,
            }
        }),
    decreases replies.len(),
{
    if replies.len() > 0 {
        every_entry_is_dealt_with(entries, replies.drop_last());
    }
}

/// A queued sync is left alone while its backend is ejected, and leaves the
/// queue only if the user is gone, the state was applied, or the backend is
/// known not to have the title.
pub proof fn entries_leave_for_a_reason(v: DrainView, reply: DrainReply)
    requires
        drain_in_order(v),
    ensures
        v.step == Some(DrainRunStep::Health) && reply != DrainReply::Ejected(false) ==> {
            &&& drain_advanced(v, reply).verdicts == v.verdicts.push(QueueAction::Keep)
            &&& drain_advanced(v, reply).position == v.position + 1
        },
        v.step !is None && !(v.step matches Some(DrainRunStep::Act(_))) && drain_advanced(
            v,
            reply,
        ).step == Some(DrainRunStep::Act(QueueAction::Remove)) ==> match v.step {
            Some(DrainRunStep::Sessions) => reply matches DrainReply::Sessions(
                UserSessions::Gone,
            ),
            Some(DrainRunStep::Peer { step, .. }) => {
                let end = watched_sync::peer_progress(step, reply_in(told_of_entry(reply)));
                end == PeerProgress::End(PeerOutcome::Synced) || end == PeerProgress::End(
                    PeerOutcome::NoMatch,
                )
            },
            _ => false,
        },
{
}

/// What the answer to a step leads to: the queued sync of a peer is removed
/// exactly where the state was applied or the peer is known not to have the
/// title, and the change is queued exactly where the peer failed or its time
/// was over; otherwise the same peer goes on with the next step.
pub proof fn peers_are_settled_by_their_outcome(
    v: FanOutView,
    answer: PeerAnswerView,
    step: PeerStep,
)
    requires
        v.step == Some(FanOutStep::Peer(step)),
    ensures
        fan_out_advanced(v, FanOutReplyView::TimedOut).step == Some(
            FanOutStep::Queue(QueueAction::Enqueue),
        ),
        ({
            let after = fan_out_advanced(v, FanOutReplyView::Peer(answer));
            let missing = answer == PeerAnswerView::Title(None);
            &&& after.step == Some(FanOutStep::Queue(QueueAction::Remove)) <==> {
                ||| step == PeerStep::Apply && answer is Done
                ||| step == PeerStep::AskCache && missing
                ||| step == (PeerStep::Remember { present: false })
            }
            &&& after.step == Some(FanOutStep::Queue(QueueAction::Enqueue)) <==> {
                ||| step == PeerStep::Client && answer is Failed
                ||| step == PeerStep::Search && !(answer is Title)
                ||| step == PeerStep::Apply && !(answer is Done)
            }
            &&& after.position == v.position && after.change == v.change && after.settled
                == v.settled
        }),
{
}

/// What the steps of a peer come after: the cache after the client, the search
/// where the cache knows nothing, the remembering after an answer to the search,
/// and the applying once the title is known to be there.
pub proof fn peer_steps_follow_each_other(
    v: FanOutView,
    answer: PeerAnswerView,
    step: PeerStep,
    next: PeerStep,
)
    requires
        v.step == Some(FanOutStep::Peer(step)),
    ensures
        fan_out_advanced(v, FanOutReplyView::Peer(answer)).step == Some(FanOutStep::Peer(next))
            <==> match next {
            PeerStep::Client => false,
            PeerStep::AskCache => step == PeerStep::Client && !(answer is Failed),
            PeerStep::Search => step == PeerStep::AskCache && !(answer is Title),
            PeerStep::Remember { present } => step == PeerStep::Search && answer is Title && present
                == answer->Title_0 is Some,
            PeerStep::Apply => (step == PeerStep::AskCache && answer is Title
                && answer->Title_0 is Some) || step == (PeerStep::Remember { present: true }),
        },
{
}

/// How a fan-out begins: with a client for the source exactly where there is a
/// session on it and one on another backend. The source is read once there is a
/// client, and the first peer is dealt with once the source gave a key that can
/// be matched; anything else ends it with nothing done.
pub proof fn fan_outs_begin_with_the_source(
    servers: Seq<i64>,
    source: i64,
    item: Seq<char>,
    v: FanOutView,
    reply: FanOutReplyView,
)
    ensures
        fan_out_start(servers, source, item).step == if servers.contains(source) && exists|i: int|
            0 <= i < servers.len() && #[trigger] servers[i] != source {
            Some(FanOutStep::SourceClient)
        } else {
            None
        },
        fan_out_start(servers, source, item).settled.len() == 0,
        v.step == Some(FanOutStep::SourceClient) ==> fan_out_advanced(v, reply).step == if reply
            is Failed {
            None
        } else {
            Some(FanOutStep::ReadSource)
        },
        v.step == Some(FanOutStep::ReadSource) ==> {
            let after = fan_out_advanced(v, reply);
            if reply is Source && !match_key::unmatchable(reply->key) {
                &&& after.change == Some(
                    ChangeView {
                        title: match_key::cache_text(reply->key),
                        key: reply->key,
                        user_data: reply->user_data,
                    },
                )
                &&& after.position == 0
                &&& peers_of(v).len() > 0 ==> after.step == Some(FanOutStep::Peer(PeerStep::Client))
            } else {
                after.step is None && after.change == v.change
            }
        },
{
    watched_sync::every_other_server_is_a_peer_once(servers, source, servers.len());
    let peers = watched_sync::peers_below(servers, source, servers.len());
    if exists|i: int| 0 <= i < servers.len() && #[trigger] servers[i] != source {
        let i = choose|i: int| 0 <= i < servers.len() && #[trigger] servers[i] != source;
        let k = choose|k: int| 0 <= k < peers.len() && servers[#[trigger] peers[k]] == servers[i];
        assert(peers.len() > 0);
    } else if peers.len() > 0 {
        assert(servers[peers[0]] != source);
    }
}

/// Once a peer is settled the next one begins with a client, and after the last
/// the fan-out is over; what was done to the queued sync is put on record with
/// the peer's session.
pub proof fn settled_peers_make_room_for_the_next(
    v: FanOutView,
    reply: FanOutReplyView,
    action: QueueAction,
)
    requires
        v.step == Some(FanOutStep::Queue(action)),
    ensures
        ({
            let after = fan_out_advanced(v, reply);
            &&& after.settled == v.settled.push((peers_of(v)[v.position], action))
            &&& after.position == v.position + 1
            &&& after.item is None
            &&& after.step == if v.position + 1 < peers_of(v).len() {
                Some(FanOutStep::Peer(PeerStep::Client))
            } else {
                None
            }
            &&& after.change == v.change
        }),
{
}

/// How a queued sync goes: the health of its backend first, then the sessions of
/// its user, then the peer's steps through the first session on the backend, and
/// what comes of them is done to the row: removed where the user is gone, the
/// state was applied or the title is known not to be there, one attempt more
/// where there is no session or the peer failed, and nothing otherwise.
pub proof fn queued_syncs_are_settled_by_their_outcome(
    v: DrainView,
    reply: DrainReply,
    session: usize,
    step: PeerStep,
)
    ensures
        v.step == Some(DrainRunStep::Health) && reply == DrainReply::Ejected(false)
            ==> drain_advanced(v, reply).step == Some(DrainRunStep::Sessions) && drain_advanced(
            v,
            reply,
        ).position == v.position,
        v.step == Some(DrainRunStep::Sessions) ==> {
            let after = drain_advanced(v, reply);
            let server_id = v.entries[v.position].server_id;
            match reply {
                DrainReply::Sessions(UserSessions::Gone) => after.step == Some(
                    DrainRunStep::Act(QueueAction::Remove),
                ) && after.position == v.position,
                DrainReply::Sessions(UserSessions::Servers(servers)) => if servers@.contains(
                    server_id,
                ) {
                    after.step matches Some(DrainRunStep::Peer { session: at, step: first })
                        && first == PeerStep::Client && at < servers@.len() && servers@[at as int]
                        == server_id && forall|j: int| 0 <= j < at ==> servers@[j] != server_id
                } else {
                    after.step == Some(DrainRunStep::Act(QueueAction::Bump))
                },
                _ => after.verdicts == v.verdicts.push(QueueAction::Keep) && after.position
                    == v.position + 1,
            }
        },
        v.step == Some(DrainRunStep::Peer { session, step }) ==> {
            let after = drain_advanced(v, reply);
            let answer = told_of_entry(reply);
            &&& after.step == Some(DrainRunStep::Act(QueueAction::Remove)) <==> {
                ||| step == PeerStep::Apply && answer is Done
                ||| step == PeerStep::AskCache && answer == PeerAnswerView::Title(None)
                ||| step == (PeerStep::Remember { present: false })
            }
            &&& after.step == Some(DrainRunStep::Act(QueueAction::Bump)) <==> {
                ||| step == PeerStep::Client && answer is Failed
                ||| step == PeerStep::Search && !(answer is Title)
                ||| step == PeerStep::Apply && !(answer is Done)
            }
            &&& after.step matches Some(DrainRunStep::Peer { session: at, .. }) ==> at == session
            &&& after.position == v.position && after.verdicts == v.verdicts
        },
        v.step matches Some(DrainRunStep::Act(action)) ==> drain_advanced(v, reply).verdicts
            == v.verdicts.push(action) && drain_advanced(v, reply).position == v.position + 1,
{
    if v.step == Some(DrainRunStep::Sessions) {
        if let DrainReply::Sessions(UserSessions::Servers(servers)) = reply {
            let server_id = v.entries[v.position].server_id;
            watched_sync::sessions_are_found(servers@, server_id);
            if servers@.contains(server_id) {
                first_session_exists(servers@, server_id);
                let i = choose|i: int|
                    0 <= i < servers@.len() && servers@[i] == server_id
                        && watched_sync::first_on_server(servers@, i);
                watched_sync::first_session_is_found(servers@, i);
                assert(servers@.len() == servers.len());
                assert((i as usize) as int == i);
                assert forall|j: int| 0 <= j < i implies servers@[j] != server_id by {}
            } else if watched_sync::session_on(servers@, server_id) is Some {
                assert(servers@.contains(
                    servers@[watched_sync::session_on(servers@, server_id)->0],
                ));
            }
        }
    }
}

proof fn first_session_exists(servers: Seq<i64>, server_id: i64)
    requires
        servers.contains(server_id),
    ensures
        exists|i: int|
            0 <= i < servers.len() && servers[i] == server_id && watched_sync::first_on_server(
                servers,
                i,
            ),
{
    let i = servers.index_of_first(server_id)->0;
    servers.index_of_first_ensures(server_id);
    assert(watched_sync::first_on_server(servers, i));
}

/// The item that a peer's state is applied to, or that is remembered, is what
/// the cache or the search just told of the title; no other answer changes it.
pub proof fn only_titles_tell_the_item(
    step: PeerStep,
    answer: PeerAnswerView,
    before: Option<Seq<char>>,
)
    ensures
        answer matches PeerAnswerView::Title(item) ==> (step == PeerStep::AskCache || step
            == PeerStep::Search) ==> item_after(step, answer, before) == item,
        !(answer is Title) || !(step == PeerStep::AskCache || step == PeerStep::Search)
            ==> item_after(step, answer, before) == before,
{
}

/// Once a queued sync is settled the next one begins with its backend's health,
/// and after the last the drain is over; a drain begins with the first, and
/// whatever is not told of a healthy backend keeps the sync in the queue.
pub proof fn settled_syncs_make_room_for_the_next(
    v: DrainView,
    reply: DrainReply,
    entries: Seq<EntryView>,
)
    ensures
        ({
            let begun = drain_start(entries);
            &&& begun.entries == entries
            &&& begun.position == 0
            &&& begun.verdicts.len() == 0
            &&& begun.item is None
            &&& begun.step == if entries.len() > 0 {
                Some(DrainRunStep::Health)
            } else {
                None
            }
        }),
        ({
            let after = drain_advanced(v, reply);
            &&& v.step == Some(DrainRunStep::Health) && reply != DrainReply::Ejected(false)
                ==> after.verdicts == v.verdicts.push(QueueAction::Keep) && after.position
                == v.position + 1
            &&& after.position != v.position ==> {
                &&& after.position == v.position + 1
                &&& after.item is None
                &&& after.step == if v.position + 1 < v.entries.len() {
                    Some(DrainRunStep::Health)
                } else {
                    None
                }
            }
            &&& after.entries == v.entries
            &&& v.step is None ==> after == v
        }),
{
}

}
