//! Cross-server playback-state sync.
//!
//! When a user's per-item state changes on one backend, it is propagated to
//! the same title on their other backends. The fan-out is best effort: peers
//! that cannot be reached are queued (see [`crate::sync_queue`]) and drained
//! once they recover.
use vstd::prelude::*;
use vstd::string::*;

use crate::json;
use crate::match_key;
use crate::match_key::MatchKey;
use crate::text;

verus! {

/// Whether `path` is `/Users/{user}/{segment}/{item}`, the user and the item
/// without slashes and the item not empty.
pub open spec fn is_action_path(
    path: Seq<char>,
    user: Seq<char>,
    segment: Seq<char>,
    item: Seq<char>,
) -> bool {
    &&& path == "/Users/"@ + user + "/"@ + segment + "/"@ + item
    &&& !user.contains('/')
    &&& !item.contains('/')
    &&& item.len() > 0
}

/// Whether `path` is an action path of the item, for some user.
pub open spec fn names_item(path: Seq<char>, segment: Seq<char>, item: Seq<char>) -> bool {
    exists|user: Seq<char>| #[trigger] is_action_path(path, user, segment, item)
}

proof fn literals()
    ensures
        "/Users/"@ == seq!['/', 'U', 's', 'e', 'r', 's', '/'],
        "/"@ == seq!['/'],
{
    reveal_strlit("/Users/");
    reveal_strlit("/");
    assert("/Users/"@ =~= seq!['/', 'U', 's', 'e', 'r', 's', '/']);
    assert("/"@ =~= seq!['/']);
}

/// Where the parts of an action path stand.
proof fn action_path_places(
    path: Seq<char>,
    user: Seq<char>,
    segment: Seq<char>,
    item: Seq<char>,
)
    requires
        is_action_path(path, user, segment, item),
    ensures
        path.len() == 9 + user.len() + segment.len() + item.len(),
        text::occurs_at(path, "/Users/"@, 0),
        forall|k: int| 7 <= k < 7 + user.len() ==> #[trigger] path[k] != '/',
        path[7 + user.len() as int] == '/',
        text::occurs_at(path, segment, 8int + user.len()),
        path[8int + user.len() + segment.len()] == '/',
        path.subrange(9int + user.len() + segment.len(), path.len() as int) == item,
{
    literals();
    assert(path.subrange(0, 7) =~= "/Users/"@);
    assert forall|k: int| 7 <= k < 7 + user.len() implies #[trigger] path[k] != '/' by {
        assert(path[k] == user[k - 7]);
        assert(user.contains(user[k - 7]));
    }
    assert(path.subrange(8 + user.len() as int, 8int + user.len() + segment.len()) =~= segment);
    assert(path.subrange(9int + user.len() + segment.len(), path.len() as int) =~= item);
}

/// An action path names one item only.
pub proof fn action_path_has_one_item(
    path: Seq<char>,
    segment: Seq<char>,
    user1: Seq<char>,
    item1: Seq<char>,
    user2: Seq<char>,
    item2: Seq<char>,
)
    requires
        is_action_path(path, user1, segment, item1),
        is_action_path(path, user2, segment, item2),
    ensures
        user1 == user2,
        item1 == item2,
{
    action_path_places(path, user1, segment, item1);
    action_path_places(path, user2, segment, item2);
    if user1.len() < user2.len() {
        assert(path[7 + user1.len() as int] != '/');
    }
    if user2.len() < user1.len() {
        assert(path[7 + user2.len() as int] != '/');
    }
    literals();
    assert(user1 =~= path.subrange(7, 7int + user1.len()));
    assert(user2 =~= path.subrange(7, 7int + user2.len()));
}

/// Parses `/Users/{user_id}/{segment}/{item_id}` into the item id, for a given
/// action segment (such as `PlayedItems`). `None` for any other path.
pub fn user_action_item_id<'a>(path: &'a str, segment: &str) -> (r: Option<&'a str>)
    ensures
        match r {
            Some(item) => names_item(path@, segment@, item@),
            None => forall|item: Seq<char>| !#[trigger] names_item(path@, segment@, item),
        },
{
    let p = text::chars_of(path);
    let head = text::chars_of("/Users/");
    let seg = text::chars_of(segment);
    proof {
        literals();
        assert forall|user: Seq<char>, item: Seq<char>| #[trigger]
            is_action_path(path@, user, segment@, item) implies text::occurs_at(
            path@,
            "/Users/"@,
            0,
        ) && path@.len() >= 10 by {
            action_path_places(path@, user, segment@, item);
        }
    }
    if !text::found_at(&p, &head, 0) {
        return None;
    }
    let mut slash: usize = 7;
    while slash < p.len() && p[slash] != '/'
        invariant
            p@ == path@,
            7 <= slash <= p.len(),
            forall|k: int| 7 <= k < slash ==> #[trigger] p[k] != '/',
        decreases p.len() - slash,
    {
        slash = slash + 1;
    }
    proof {
        assert forall|user: Seq<char>, item: Seq<char>| #[trigger]
            is_action_path(path@, user, segment@, item) implies user.len() == slash - 7 && slash
            < p.len() && text::occurs_at(path@, segment@, slash + 1) && slash + 1 + segment@.len()
            < p.len() && p[slash + 1 + segment@.len()] == '/' && item == path@.subrange(
            slash + 2 + segment@.len(),
            path@.len() as int,
        ) by {
            action_path_places(path@, user, segment@, item);
            if user.len() < slash - 7 {
                assert(p[7 + user.len() as int] != '/');
            }
        }
    }
    if slash >= p.len() || !text::found_at(&p, &seg, slash + 1) {
        return None;
    }
    let end: usize = slash + 1 + seg.len();
    if end >= p.len() || p[end] != '/' {
        return None;
    }
    let from: usize = end + 1;
    for k in from..p.len()
        invariant
            p@ == path@,
            from <= p.len(),
            from == slash + 2 + segment@.len(),
            forall|j: int| from <= j < k ==> #[trigger] p[j] != '/',
            forall|user: Seq<char>, item: Seq<char>| #[trigger]
                is_action_path(path@, user, segment@, item) ==> item == path@.subrange(
                    slash + 2 + segment@.len(),
                    path@.len() as int,
                ),
    {
        if p[k] == '/' {
            proof {
                assert forall|user: Seq<char>, item: Seq<char>|
                    !#[trigger] is_action_path(path@, user, segment@, item) by {
                    if is_action_path(path@, user, segment@, item) {
                        assert(item[k - from] == '/');
                        assert(item.contains('/'));
                    }
                }
            }
            return None;
        }
    }
    if from >= p.len() {
        return None;
    }
    let item = path.substring_char(from, p.len());
    proof {
        let user = path@.subrange(7, slash as int);
        assert(!user.contains('/')) by {
            assert forall|k: int| 0 <= k < user.len() implies user[k] != '/' by {
                assert(p[k + 7] != '/');
            }
        }
        assert(!item@.contains('/')) by {
            assert forall|k: int| 0 <= k < item@.len() implies item@[k] != '/' by {
                assert(p[k + from] != '/');
            }
        }
        assert(path@.subrange(0, 7) == "/Users/"@);
        assert(path@.subrange(slash + 1, slash + 1 + segment@.len()) == segment@);
        assert(path@ =~= "/Users/"@ + user + "/"@ + segment@ + "/"@ + item@) by {
            assert(path@ =~= path@.subrange(0, 7) + user + path@.subrange(
                slash as int,
                slash + 1,
            ) + path@.subrange(slash + 1, end as int) + path@.subrange(end as int, end + 1)
                + item@);
            assert(path@.subrange(slash as int, slash + 1) =~= "/"@);
            assert(path@.subrange(end as int, end + 1) =~= "/"@);
        }
        assert(is_action_path(path@, user, segment@, item@));
        assert(names_item(path@, segment@, item@));
    }
    Some(item)
}

/// `/Users/{id}/PlayedItems/{itemId}` gives the item id.
pub fn played_item_id_from_path(path: &str) -> (r: Option<&str>)
    ensures
        match r {
            Some(item) => names_item(path@, "PlayedItems"@, item@),
            None => forall|item: Seq<char>| !#[trigger] names_item(path@, "PlayedItems"@, item),
        },
{
    user_action_item_id(path, "PlayedItems")
}

/// `/Users/{id}/FavoriteItems/{itemId}` gives the item id.
pub fn favorite_item_id_from_path(path: &str) -> (r: Option<&str>)
    ensures
        match r {
            Some(item) => names_item(path@, "FavoriteItems"@, item@),
            None => forall|item: Seq<char>| !#[trigger] names_item(path@, "FavoriteItems"@, item),
        },
{
    user_action_item_id(path, "FavoriteItems")
}

/// Whether a path is a playback report whose body carries the played item's
/// id: the start, progress or stop report, slashes at the end aside.
pub fn is_playing_report_path(path: &str) -> (r: bool)
    ensures
        r == ({
            let p = text::without_trailing(path@, '/');
            p == "/Sessions/Playing"@ || p == "/Sessions/Playing/Progress"@ || p
                == "/Sessions/Playing/Stopped"@
        }),
{
    let p = text::trim_end_char(path, '/');
    text::str_eq(p.as_str(), "/Sessions/Playing") || text::str_eq(
        p.as_str(),
        "/Sessions/Playing/Progress",
    ) || text::str_eq(p.as_str(), "/Sessions/Playing/Stopped")
}

/// Whether the session at `i` is the first one on its server.
pub open spec fn first_on_server(servers: Seq<i64>, i: int) -> bool {
    forall|j: int| 0 <= j < i ==> #[trigger] servers[j] != servers[i]
}

/// Whether the session at `i` is the one that stands for a peer.
pub open spec fn is_peer(servers: Seq<i64>, source: i64, i: int) -> bool {
    servers[i] != source && first_on_server(servers, i)
}

/// The sessions that stand for the peers among the first `n`, in order.
pub open spec fn peers_below(servers: Seq<i64>, source: i64, n: nat) -> Seq<int>
    decreases n,
{
    if n == 0 {
        Seq::empty()
    } else {
        let before = peers_below(servers, source, (n - 1) as nat);
        if is_peer(servers, source, n - 1) {
            before.push(n - 1)
        } else {
            before
        }
    }
}

/// The sessions of a fan-out, by their places: the one on the backend that
/// owns the item, and one for each other backend.
#[derive(Debug)]
pub struct FanOut {
    pub source: usize,
    pub peers: Vec<usize>,
}

/// Splits the user's sessions, given by their server ids, into the source and
/// its peers, one session per server. `None` when there is no session on the
/// source backend or nothing to sync to. All sessions take part, those of
/// ejected backends too, so that a peer that is down gets queued.
pub fn fan_out(servers: &Vec<i64>, source_server_id: i64) -> (r: Option<FanOut>)
    ensures
        match r {
            Some(f) => {
                &&& f.source < servers.len()
                &&& servers[f.source as int] == source_server_id
                &&& first_on_server(servers@, f.source as int)
                &&& f.peers.len() > 0
                &&& f.peers@.map_values(|i: usize| i as int) == peers_below(
                    servers@,
                    source_server_id,
                    servers@.len(),
                )
            },
            None => !servers@.contains(source_server_id) || peers_below(
                servers@,
                source_server_id,
                servers@.len(),
            ).len() == 0,
        },
{
    let mut source: Option<usize> = None;
    let mut peers: Vec<usize> = Vec::new();
    assert(peers@.map_values(|i: usize| i as int) =~= peers_below(servers@, source_server_id, 0));
    for i in 0..servers.len()
        invariant
            match source {
                Some(s) => s < i && servers[s as int] == source_server_id && first_on_server(
                    servers@,
                    s as int,
                ),
                None => forall|j: int| 0 <= j < i ==> servers[j] != source_server_id,
            },
            peers@.map_values(|k: usize| k as int) == peers_below(
                servers@,
                source_server_id,
                i as nat,
            ),
    {
        let mut seen = false;
        for j in 0..i
            invariant
                i < servers.len(),
                seen == exists|k: int| 0 <= k < j && servers[k] == servers[i as int],
        {
            if servers[j] == servers[i] {
                seen = true;
            }
        }
        assert(seen == !first_on_server(servers@, i as int));
        let ghost before = peers@.map_values(|k: usize| k as int);
        if !seen {
            if servers[i] == source_server_id {
                source = Some(i);
            } else {
                peers.push(i);
                assert(peers@.map_values(|k: usize| k as int) =~= before.push(i as int));
            }
        }
    }
    if let Some(s) = source {
        if peers.len() > 0 {
            return Some(FanOut { source: s, peers });
        }
    }
    None
}

/// A fan-out reaches every backend but the source, each through exactly one
/// session: every peer place is one of a distinct other server, and every
/// other server has a peer place.
pub proof fn every_other_server_is_a_peer_once(servers: Seq<i64>, source: i64, n: nat)
    requires
        n <= servers.len(),
    ensures
        ({
            let peers = peers_below(servers, source, n);
            &&& forall|k: int|
                0 <= k < peers.len() ==> 0 <= #[trigger] peers[k] < n && servers[peers[k]] != source
            &&& forall|j: int, k: int|
                0 <= j < k < peers.len() ==> servers[#[trigger] peers[j]] != servers[#[trigger] peers[k]]
            &&& forall|i: int|
                0 <= i < n && #[trigger] servers[i] != source ==> exists|k: int|
                    0 <= k < peers.len() && servers[#[trigger] peers[k]] == servers[i]
        }),
    decreases n,
{
    if n > 0 {
        let m = (n - 1) as nat;
        every_other_server_is_a_peer_once(servers, source, m);
        let before = peers_below(servers, source, m);
        let peers = peers_below(servers, source, n);
        assert forall|i: int| 0 <= i < n && #[trigger] servers[i] != source implies exists|k: int|
            0 <= k < peers.len() && servers[#[trigger] peers[k]] == servers[i] by {
            if i < m {
                let k = choose|k: int|
                    0 <= k < before.len() && servers[#[trigger] before[k]] == servers[i];
                assert(peers[k] == before[k]);
            } else if first_on_server(servers, i) {
                assert(peers[before.len() as int] == i);
            } else {
                let j = choose|j: int| 0 <= j < i && servers[j] == servers[i];
                let k = choose|k: int|
                    0 <= k < before.len() && servers[#[trigger] before[k]] == servers[j];
                assert(peers[k] == before[k]);
            }
        }
    }
}

/// The title key under which a source item is synced; `None` where the item
/// has no identifying ids, so that there is nothing to match on.
pub fn sync_title(key: &MatchKey) -> (r: Option<String>)
    ensures
        json::opt_text(r) == (if match_key::unmatchable(key@) {
            None
        } else {
            Some(match_key::cache_text(key@))
        }),
{
    if key.is_empty() {
        None
    } else {
        Some(key.cache_key())
    }
}

/// Outcome of trying to sync one peer.
#[derive(Clone, Copy, PartialEq, Eq, Debug, Structural)]
pub enum PeerOutcome {
    /// The state was applied on the peer.
    Synced,
    /// The peer does not have this title: nothing to do.
    NoMatch,
    /// A transient failure, worth retrying later.
    Failed,
}

/// What is to be done next to sync one peer.
#[derive(Clone, Copy, PartialEq, Eq, Debug, Structural)]
pub enum PeerStep {
    /// Build a client with the session's token.
    Client,
    /// Ask the match cache for the peer's item.
    AskCache,
    /// Look the title up on the peer.
    Search,
    /// Put the result of the lookup into the match cache.
    Remember { present: bool },
    /// Apply the state to the peer's item.
    Apply,
}

/// What performing a step gave.
#[derive(Clone, Copy, PartialEq, Eq, Debug, Structural)]
pub enum PeerReply {
    /// It worked.
    Done,
    /// It failed.
    Failed,
    /// The cache holds nothing of the title.
    Unknown,
    /// The title was looked up: it is there or not.
    Title { present: bool },
}

/// Where a reply leads.
#[derive(Clone, Copy, PartialEq, Eq, Debug, Structural)]
pub enum PeerProgress {
    Go(PeerStep),
    End(PeerOutcome),
}

/// Where a known title leads: on to applying the state, or to the end.
pub open spec fn with_title(present: bool) -> PeerProgress {
    if present {
        PeerProgress::Go(PeerStep::Apply)
    } else {
        PeerProgress::End(PeerOutcome::NoMatch)
    }
}

/// Where a reply to a step leads.
pub open spec fn peer_progress(step: PeerStep, reply: PeerReply) -> PeerProgress {
    match step {
        PeerStep::Client => if reply == PeerReply::Failed {
            PeerProgress::End(PeerOutcome::Failed)
        } else {
            PeerProgress::Go(PeerStep::AskCache)
        },
        PeerStep::AskCache => match reply {
            PeerReply::Title { present } => with_title(present),
            _ => PeerProgress::Go(PeerStep::Search),
        },
        PeerStep::Search => match reply {
            PeerReply::Title { present } => PeerProgress::Go(PeerStep::Remember { present }),
            _ => PeerProgress::End(PeerOutcome::Failed),
        },
        PeerStep::Remember { present } => with_title(present),
        PeerStep::Apply => if reply == PeerReply::Done {
            PeerProgress::End(PeerOutcome::Synced)
        } else {
            PeerProgress::End(PeerOutcome::Failed)
        },
    }
}

fn after_title(present: bool) -> (r: PeerProgress)
    ensures
        r == with_title(present),
{
    if present {
        PeerProgress::Go(PeerStep::Apply)
    } else {
        PeerProgress::End(PeerOutcome::NoMatch)
    }
}

/// Decides where a reply leads, from [`PeerStep::Client`] on.
pub fn sync_one_peer(step: PeerStep, reply: PeerReply) -> (r: PeerProgress)
    ensures
        r == peer_progress(step, reply),
{
    match step {
        PeerStep::Client => match reply {
            PeerReply::Failed => PeerProgress::End(PeerOutcome::Failed),
            _ => PeerProgress::Go(PeerStep::AskCache),
        },
        PeerStep::AskCache => match reply {
            PeerReply::Title { present } => after_title(present),
            _ => PeerProgress::Go(PeerStep::Search),
        },
        PeerStep::Search => match reply {
            PeerReply::Title { present } => PeerProgress::Go(PeerStep::Remember { present }),
            _ => PeerProgress::End(PeerOutcome::Failed),
        },
        PeerStep::Remember { present } => after_title(present),
        PeerStep::Apply => match reply {
            PeerReply::Done => PeerProgress::End(PeerOutcome::Synced),
            _ => PeerProgress::End(PeerOutcome::Failed),
        },
    }
}

/// Where the replies, from the first on, lead.
pub open spec fn peer_after(replies: Seq<PeerReply>) -> PeerProgress
    decreases replies.len(),
{
    if replies.len() == 0 {
        PeerProgress::Go(PeerStep::Client)
    } else {
        match peer_after(replies.drop_last()) {
            PeerProgress::Go(step) => peer_progress(step, replies.last()),
            end => end,
        }
    }
}

/// Only successful lookups are cached: the cache is written just after the
/// peer answered the search, with that answer, and a failed search ends as a
/// failure that is retried. So a peer that is down cannot leave a false "no
/// match" behind.
pub proof fn only_answers_are_cached(replies: Seq<PeerReply>, present: bool)
    requires
        peer_after(replies) == PeerProgress::Go(PeerStep::Remember { present }),
    ensures
        replies.len() == 3,
        peer_after(replies.drop_last()) == PeerProgress::Go(PeerStep::Search),
        replies.last() == (PeerReply::Title { present }),
{
    let before = replies.drop_last();
    assert(peer_after(before) == PeerProgress::Go(PeerStep::Search));
    assert(peer_after(before.drop_last()) == PeerProgress::Go(PeerStep::AskCache));
    assert(peer_after(before.drop_last().drop_last()) == PeerProgress::Go(PeerStep::Client));
    let first = before.drop_last().drop_last();
    if first.len() > 0 {
        assert(peer_after(first.drop_last()) is Go);
    }
}

/// A peer counts as done only if the state was applied or the peer is known
/// not to have the title; everything else is a failure.
pub proof fn peer_outcomes(step: PeerStep, reply: PeerReply)
    ensures
        peer_progress(step, reply) == PeerProgress::End(PeerOutcome::Synced) <==> step
            == PeerStep::Apply && reply == PeerReply::Done,
        peer_progress(step, reply) == PeerProgress::End(PeerOutcome::NoMatch) <==> (step
            == PeerStep::AskCache && reply == (PeerReply::Title { present: false })) || step == (
        PeerStep::Remember { present: false }),
{
}

/// What becomes of the queued sync of a peer.
#[derive(Clone, Copy, PartialEq, Eq, Debug, Structural)]
pub enum QueueAction {
    /// Leave it as it is.
    Keep,
    /// Remove it.
    Remove,
    /// Queue it, or refresh what is queued.
    Enqueue,
    /// Count an attempt.
    Bump,
}

/// What the fan-out does about the queue after one peer: a peer that is done
/// clears a stale entry, a failed one is queued.
pub open spec fn fan_out_action(outcome: PeerOutcome) -> QueueAction {
    if outcome == PeerOutcome::Failed {
        QueueAction::Enqueue
    } else {
        QueueAction::Remove
    }
}

/// Decides what the fan-out does about the queue after one peer.
pub fn after_fan_out(outcome: PeerOutcome) -> (r: QueueAction)
    ensures
        r == fan_out_action(outcome),
{
    match outcome {
        PeerOutcome::Failed => QueueAction::Enqueue,
        _ => QueueAction::Remove,
    }
}

/// What is known of the user of a queued sync.
#[derive(Debug)]
pub enum UserSessions {
    /// The user does not exist any more.
    Gone,
    /// The sessions could not be read.
    Unreadable,
    /// The server ids of the user's sessions.
    Servers(Vec<i64>),
}

/// What to do about a queued sync.
#[derive(Clone, Copy, PartialEq, Eq, Debug, Structural)]
pub enum DrainStep {
    /// Do this to the entry, and go on with the next.
    Settle(QueueAction),
    /// Try to sync through the session at this place.
    Try(usize),
}

/// The place of the first session on a server.
pub open spec fn session_on(servers: Seq<i64>, server_id: i64) -> Option<int>
    decreases servers.len(),
{
    if servers.len() == 0 {
        None
    } else {
        match session_on(servers.drop_last(), server_id) {
            Some(i) => Some(i),
            None => if servers.last() == server_id {
                Some(servers.len() - 1)
            } else {
                None
            },
        }
    }
}

proof fn session_in_prefix(servers: Seq<i64>, server_id: i64, n: int)
    requires
        0 <= n <= servers.len(),
        session_on(servers.take(n), server_id) is Some,
    ensures
        session_on(servers, server_id) == session_on(servers.take(n), server_id),
    decreases servers.len(),
{
    if n == servers.len() {
        assert(servers.take(n) =~= servers);
    } else {
        assert(servers.drop_last().take(n) =~= servers.take(n));
        session_in_prefix(servers.drop_last(), server_id, n);
    }
}

/// The session that is found on a server is one of that server, and none is
/// found only where there is none.
pub proof fn sessions_are_found(servers: Seq<i64>, server_id: i64)
    ensures
        session_on(servers, server_id) matches Some(i) ==> 0 <= i < servers.len() && servers[i]
            == server_id,
        session_on(servers, server_id) is None ==> !servers.contains(server_id),
    decreases servers.len(),
{
    if servers.len() > 0 {
        sessions_are_found(servers.drop_last(), server_id);
        assert forall|i: int|
            session_on(servers, server_id) is None && 0 <= i < servers.len() implies servers[i]
            != server_id by {
            if i < servers.len() - 1 {
                assert(servers.drop_last()[i] == servers[i]);
                assert(servers.drop_last().contains(servers[i]));
            }
        }
    }
}

/// The first session on a server is the one that is found.
pub proof fn first_session_is_found(servers: Seq<i64>, i: int)
    requires
        0 <= i < servers.len(),
        first_on_server(servers, i),
    ensures
        session_on(servers, servers[i]) == Some(i),
{
    let upto = servers.take(i + 1);
    assert(upto.drop_last() =~= servers.take(i));
    sessions_are_found(servers.take(i), servers[i]);
    assert(session_on(upto, servers[i]) == Some(i));
    session_in_prefix(servers, servers[i], i + 1);
}

/// What to do about a queued sync.
pub open spec fn drain_decision(
    ejected: bool,
    sessions: UserSessions,
    server_id: i64,
) -> DrainStep {
    if ejected {
        DrainStep::Settle(QueueAction::Keep)
    } else {
        match sessions {
            UserSessions::Gone => DrainStep::Settle(QueueAction::Remove),
            UserSessions::Unreadable => DrainStep::Settle(QueueAction::Keep),
            UserSessions::Servers(servers) => match session_on(servers@, server_id) {
                Some(i) => DrainStep::Try(i as usize),
                None => DrainStep::Settle(QueueAction::Bump),
            },
        }
    }
}

/// Decides about a queued sync: it is left while the peer is ejected, dropped
/// when the user is gone, and counts an attempt when the user has no session
/// on the peer now.
pub fn drain_queue(ejected: bool, sessions: &UserSessions, server_id: i64) -> (r: DrainStep)
    ensures
        r == drain_decision(ejected, *sessions, server_id),
        match r {
            DrainStep::Try(i) => !ejected && match *sessions {
                UserSessions::Servers(servers) => i < servers.len() && servers[i as int]
                    == server_id,
                _ => false,
            },
            _ => true,
        },
{
    if ejected {
        return DrainStep::Settle(QueueAction::Keep);
    }
    match sessions {
        UserSessions::Gone => DrainStep::Settle(QueueAction::Remove),
        UserSessions::Unreadable => DrainStep::Settle(QueueAction::Keep),
        UserSessions::Servers(servers) => {
            for i in 0..servers.len()
                invariant
                    *sessions == UserSessions::Servers(*servers),
                    !ejected,
                    session_on(servers@.take(i as int), server_id) is None,
            {
                assert(servers@.take(i + 1).drop_last() =~= servers@.take(i as int));
                if servers[i] == server_id {
                    proof {
                        session_in_prefix(servers@, server_id, i + 1);
                    }
                    return DrainStep::Try(i);
                }
            }
            assert(servers@.take(servers.len() as int) =~= servers@);
            DrainStep::Settle(QueueAction::Bump)
        },
    }
}

/// What the drain does about an entry after it was tried: done ones leave the
/// queue, failed ones count an attempt.
pub open spec fn drain_action(outcome: PeerOutcome) -> QueueAction {
    if outcome == PeerOutcome::Failed {
        QueueAction::Bump
    } else {
        QueueAction::Remove
    }
}

/// Decides what the drain does about an entry after it was tried.
pub fn after_drain(outcome: PeerOutcome) -> (r: QueueAction)
    ensures
        r == drain_action(outcome),
{
    match outcome {
        PeerOutcome::Failed => QueueAction::Bump,
        _ => QueueAction::Remove,
    }
}

/// The seconds between two drains: as configured, but five at least.
pub fn retry_interval(interval_secs: u64) -> (r: u64)
    ensures
        r == (if interval_secs >= 5 {
            interval_secs
        } else {
            5
        }),
{
    if interval_secs >= 5 {
        interval_secs
    } else {
        5
    }
}

/// The session that stands for a peer is its first one, and the peers stand in
/// the order of the sessions.
pub proof fn peers_are_first_sessions_in_order(servers: Seq<i64>, source: i64, n: nat)
    requires
        n <= servers.len(),
    ensures
        ({
            let peers = peers_below(servers, source, n);
            &&& forall|k: int|
                0 <= k < peers.len() ==> 0 <= #[trigger] peers[k] < n && forall|j: int|
                    0 <= j < peers[k] ==> #[trigger] servers[j] != servers[peers[k]]
            &&& forall|j: int, k: int|
                0 <= j < k < peers.len() ==> #[trigger] peers[j] < #[trigger] peers[k]
        }),
    decreases n,
{
    if n > 0 {
        let m = (n - 1) as nat;
        peers_are_first_sessions_in_order(servers, source, m);
        let before = peers_below(servers, source, m);
        let peers = peers_below(servers, source, n);
        assert forall|k: int| 0 <= k < peers.len() implies 0 <= #[trigger] peers[k] < n && forall|
            j: int,
        | 0 <= j < peers[k] ==> #[trigger] servers[j] != servers[peers[k]] by {
            if k < before.len() {
                assert(peers[k] == before[k]);
            } else {
                assert(first_on_server(servers, n - 1));
            }
        }
        assert forall|j: int, k: int| 0 <= j < k < peers.len() implies #[trigger] peers[j]
            < #[trigger] peers[k] by {
            assert(peers[j] == before[j]);
            if k < before.len() {
                assert(peers[k] == before[k]);
            }
        }
    }
}

/// The way of one peer: a client, then the cache. What the cache knows of the
/// title settles it; otherwise the peer is asked, and its answer is remembered
/// before it is acted on. A title that is there is applied, and whatever fails
/// but the cache ends as a failure.
pub proof fn peers_are_synced_step_by_step(reply: PeerReply, present: bool)
    ensures
        peer_progress(PeerStep::Client, reply) == if reply == PeerReply::Failed {
            PeerProgress::End(PeerOutcome::Failed)
        } else {
            PeerProgress::Go(PeerStep::AskCache)
        },
        peer_progress(PeerStep::AskCache, PeerReply::Title { present: true }) == PeerProgress::Go(
            PeerStep::Apply,
        ),
        peer_progress(PeerStep::AskCache, PeerReply::Title { present: false })
            == PeerProgress::End(PeerOutcome::NoMatch),
        !(reply is Title) ==> peer_progress(PeerStep::AskCache, reply) == PeerProgress::Go(
            PeerStep::Search,
        ),
        peer_progress(PeerStep::Search, PeerReply::Title { present }) == PeerProgress::Go(
            PeerStep::Remember { present },
        ),
        !(reply is Title) ==> peer_progress(PeerStep::Search, reply) == PeerProgress::End(
            PeerOutcome::Failed,
        ),
        peer_progress(PeerStep::Remember { present: true }, reply) == PeerProgress::Go(
            PeerStep::Apply,
        ),
        peer_progress(PeerStep::Remember { present: false }, reply) == PeerProgress::End(
            PeerOutcome::NoMatch,
        ),
        peer_progress(PeerStep::Apply, PeerReply::Done) == PeerProgress::End(PeerOutcome::Synced),
        reply != PeerReply::Done ==> peer_progress(PeerStep::Apply, reply) == PeerProgress::End(
            PeerOutcome::Failed,
        ),
{
}

/// A failed peer is queued by the fan-out and counts an attempt in the drain;
/// one that is done leaves the queue either way.
pub proof fn only_failures_stay_queued(outcome: PeerOutcome)
    ensures
        fan_out_action(outcome) == QueueAction::Enqueue <==> outcome == PeerOutcome::Failed,
        fan_out_action(outcome) == QueueAction::Remove <==> outcome != PeerOutcome::Failed,
        drain_action(outcome) == QueueAction::Bump <==> outcome == PeerOutcome::Failed,
        drain_action(outcome) == QueueAction::Remove <==> outcome != PeerOutcome::Failed,
{
}

/// A queued sync is left alone while its backend is ejected or the sessions
/// cannot be read, dropped where the user is gone, counts an attempt where the
/// user has no session on the backend, and is tried through the first session
/// there.
pub proof fn queued_syncs_are_tried_through_the_first_session(
    ejected: bool,
    sessions: UserSessions,
    server_id: i64,
)
    ensures
        ({
            let r = drain_decision(ejected, sessions, server_id);
            &&& r == DrainStep::Settle(QueueAction::Keep) <==> ejected || sessions is Unreadable
            &&& r == DrainStep::Settle(QueueAction::Remove) <==> !ejected && sessions is Gone
            &&& r == DrainStep::Settle(QueueAction::Bump) <==> !ejected && (
            sessions matches UserSessions::Servers(s) && !s@.contains(server_id))
            &&& r != DrainStep::Settle(QueueAction::Enqueue)
            &&& !ejected ==> (sessions matches UserSessions::Servers(s) ==> forall|i: int|
                0 <= i < s@.len() && #[trigger] s@[i] == server_id && (forall|j: int|
                    0 <= j < i ==> s@[j] != server_id) ==> r == DrainStep::Try(i as usize))
        }),
{
    if let UserSessions::Servers(s) = sessions {
        sessions_are_found(s@, server_id);
        if session_on(s@, server_id) is Some {
            assert(s@.contains(s@[session_on(s@, server_id)->0]));
        }
        assert forall|i: int|
            !ejected && 0 <= i < s@.len() && #[trigger] s@[i] == server_id && (forall|j: int|
                0 <= j < i ==> s@[j] != server_id) implies drain_decision(
            ejected,
            sessions,
            server_id,
        ) == DrainStep::Try(i as usize) by {
            assert(first_on_server(s@, i));
            first_session_is_found(s@, i);
        }
    }
}

/// Every path with a user, an action and an item, the user and the item without
/// a slash and the item not empty, names the item; and a path that names an
/// item is of this form.
pub proof fn action_paths_end_with_their_item(
    path: Seq<char>,
    user: Seq<char>,
    segment: Seq<char>,
    item: Seq<char>,
)
    ensures
        !user.contains('/') && !item.contains('/') && item.len() > 0 ==> names_item(
            seq!['/', 'U', 's', 'e', 'r', 's', '/'] + user + seq!['/'] + segment + seq!['/'] + item,
            segment,
            item,
        ),
        names_item(path, segment, item) ==> {
            let n = path.len() - item.len();
            &&& item.len() > 0
            &&& !item.contains('/')
            &&& n >= 9 + segment.len()
            &&& path.skip(n) == item
            &&& path[n - 1] == '/'
            &&& path.subrange(n - 1 - segment.len(), n - 1) == segment
            &&& path[n - 2 - segment.len()] == '/'
            &&& path.take(7) == seq!['/', 'U', 's', 'e', 'r', 's', '/']
            &&& forall|i: int| 7 <= i < n - 2 - segment.len() ==> #[trigger] path[i] != '/'
        },
{
    literals();
    let whole = seq!['/', 'U', 's', 'e', 'r', 's', '/'] + user + seq!['/'] + segment + seq!['/']
        + item;
    if !user.contains('/') && !item.contains('/') && item.len() > 0 {
        assert(is_action_path(whole, user, segment, item));
    }
    if names_item(path, segment, item) {
        let by = choose|by: Seq<char>| #[trigger] is_action_path(path, by, segment, item);
        action_path_places(path, by, segment, item);
        let n = path.len() - item.len();
        assert(path.skip(n) =~= item);
        assert(path.subrange(n - 1 - segment.len(), n - 1) =~= segment);
        assert(path.take(7) =~= seq!['/', 'U', 's', 'e', 'r', 's', '/']);
    }
}

}
