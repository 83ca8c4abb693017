//! The federated fan-out: which backends are asked for a listing, how each is
//! asked, and how their answers become one.
use vstd::prelude::*;
use vstd::string::*;

use crate::backend_health;
use crate::backend_health::{BackendHealth, CallFailure};
use crate::items;
use crate::json;
use crate::match_key;
use crate::text;
use crate::urls;
use crate::view_merge;
use crate::view_merge::ViewMergeRegistry;

verus! {

/// The expression that a query for one series or folder matches.
pub open spec fn series_or_parent() -> Seq<char> {
    "(?i)(seriesid|parentid)"@
}

/// A text with letter case aside, as an expression sees it: the long s counts
/// as an s.
pub open spec fn case_folded(s: Seq<char>) -> Seq<char> {
    s.map_values(
        |c: char|
            if c == 'ſ' {
                's'
            } else {
                text::ascii_lower(c)
            },
    )
}

/// Whether a query names a series or a folder anywhere.
pub open spec fn names_series_or_parent(query: Seq<char>) -> bool {
    text::contains_text(case_folded(query), "seriesid"@) || text::contains_text(
        case_folded(query),
        "parentid"@,
    )
}

/// `Regex::new` and `Regex::is_match`: the expression is valid, and it matches
/// where one of its two words stands anywhere in the text, letter case aside.
/// Of the letters in these words only the s has a case variant beyond ASCII.
#[verifier::external_body]
fn regex_is_match(pattern: &str, s: &str) -> (r: Option<bool>)
    requires
        pattern@ == series_or_parent(),
    ensures
        r == Some(names_series_or_parent(s@)),
{
    regex::Regex::new(pattern).ok().map(|re| re.is_match(s))
}

/// Whether a query is for a specific series or folder.
pub fn is_restricted(query: &str) -> (r: bool)
    ensures
        r == names_series_or_parent(query@),
{
    match regex_is_match("(?i)(seriesid|parentid)", query) {
        Some(found) => found,
        None => false,
    }
}

/// The value of `ParentId` in a query, letter case of the key aside.
pub fn parent_id_from_query(query: &str) -> (r: Option<String>)
    ensures
        json::opt_text(r) == items::value_of_key(
            urls::form_pairs(vstd::utf8::encode_utf8(query@)),
            "ParentId"@,
        ),
{
    items::find_value(&urls::parse_form(query.as_bytes()), "ParentId")
}

/// Where a listing is asked for.
#[derive(Debug)]
pub enum Route {
    /// On every backend.
    AllServers,
    /// On the backends that a merged library stands for, each with its own
    /// library id.
    Members(Vec<(i64, String)>),
    /// On the one backend that owns what is asked for.
    OneServer,
}

/// The data in a [`Route`].
pub enum RouteView {
    AllServers,
    Members(Seq<(i64, Seq<char>)>),
    OneServer,
}

impl View for Route {
    type V = RouteView;

    open spec fn view(&self) -> RouteView {
        match self {
            Route::AllServers => RouteView::AllServers,
            Route::Members(m) => RouteView::Members(view_merge::member_views(m@)),
            Route::OneServer => RouteView::OneServer,
        }
    }
}

/// Where a listing is asked for, given whether it is restricted to a series or
/// folder, and to which.
pub open spec fn route_of(
    restricted: bool,
    parent: Option<Seq<char>>,
    groups: Map<Seq<char>, Seq<(i64, Seq<char>)>>,
) -> RouteView {
    if !restricted {
        RouteView::AllServers
    } else {
        match parent {
            Some(id) => if groups.contains_key(id) {
                RouteView::Members(groups[id])
            } else {
                RouteView::OneServer
            },
            None => RouteView::OneServer,
        }
    }
}

/// Decides where a listing is asked for.
pub fn route(restricted: bool, parent: Option<&str>, registry: &ViewMergeRegistry) -> (r: Route)
    ensures
        r@ == route_of(
            restricted,
            match parent {
                Some(p) => Some(p@),
                None => None,
            },
            registry@,
        ),
{
    if !restricted {
        return Route::AllServers;
    }
    match parent {
        Some(id) => match registry.members(id) {
            Some(members) => Route::Members(members),
            None => Route::OneServer,
        },
        None => Route::OneServer,
    }
}

/// Decides where a listing is asked for by its query.
pub fn get_items_from_all_servers_if_not_restricted(
    query: Option<&str>,
    registry: &ViewMergeRegistry,
) -> (r: Route)
    ensures
        r@ == (match query {
            Some(q) => route_of(
                names_series_or_parent(q@),
                items::value_of_key(
                    urls::form_pairs(vstd::utf8::encode_utf8(q@)),
                    "ParentId"@,
                ),
                registry@,
            ),
            None => RouteView::AllServers,
        }),
{
    match query {
        Some(q) => {
            if is_restricted(q) {
                let parent = parent_id_from_query(q);
                match &parent {
                    Some(p) => route(true, Some(p.as_str()), registry),
                    None => route(true, None, registry),
                }
            } else {
                Route::AllServers
            }
        },
        None => Route::AllServers,
    }
}

/// The library id of a server in a merged library: the last member counts.
pub open spec fn library_on(
    members: Seq<(i64, Seq<char>)>,
    server_id: i64,
) -> Option<Seq<char>>
    decreases members.len(),
{
    if members.len() == 0 {
        None
    } else if members.last().0 == server_id {
        Some(members.last().1)
    } else {
        library_on(members.drop_last(), server_id)
    }
}

/// The library id of a server in a merged library.
pub fn parent_override(members: &Vec<(i64, String)>, server_id: i64) -> (r: Option<String>)
    ensures
        json::opt_text(r) == library_on(view_merge::member_views(members@), server_id),
{
    let ghost all = view_merge::member_views(members@);
    let mut found: Option<String> = None;
    for i in 0..members.len()
        invariant
            all == view_merge::member_views(members@),
            json::opt_text(found) == library_on(all.take(i as int), server_id),
    {
        assert(all.take(i + 1).drop_last() =~= all.take(i as int));
        assert(all.take(i + 1).last() == (members[i as int].0, members[i as int].1@));
        if members[i].0 == server_id {
            found = Some(members[i].1.clone());
        }
    }
    assert(all.take(members.len() as int) =~= all);
    found
}

/// The server that a request is scoped to by its `X-Js-Server` header; `None`
/// for all servers.
pub fn scope_server_id(header: Option<&str>) -> (r: Option<i64>)
    ensures
        r == (match header {
            Some(h) => text::parsed_i64(h@),
            None => None,
        }),
{
    match header {
        Some(h) => text::parse_i64(h),
        None => None,
    }
}

/// Why no backend can be asked.
#[derive(Debug, Clone, Copy, PartialEq, Eq, Structural)]
pub enum Refusal {
    /// The user has no session: status 401.
    Unauthorized,
    /// No session is left to ask: status 503.
    Unavailable,
}

/// Whether the session on a server is asked.
pub open spec fn is_asked(server: i64, ejected: bool, scope: Option<i64>) -> bool {
    !ejected && (scope is None || scope == Some(server))
}

/// The places of the sessions that are asked, in order.
pub open spec fn asked(
    servers: Seq<i64>,
    ejected: spec_fn(i64) -> bool,
    scope: Option<i64>,
    n: nat,
) -> Seq<int>
    decreases n,
{
    if n == 0 {
        Seq::empty()
    } else {
        let before = asked(servers, ejected, scope, (n - 1) as nat);
        if is_asked(servers[n - 1], ejected(servers[n - 1]), scope) {
            before.push(n - 1)
        } else {
            before
        }
    }
}

/// Chooses the sessions, given by their server ids, that a fan-out asks:
/// ejected backends are left out, and all but one where the request is scoped.
pub fn sessions_to_ask(
    servers: &Vec<i64>,
    health: &mut BackendHealth,
    scope: Option<i64>,
    now: u64,
) -> (r: Result<Vec<usize>, Refusal>)
    ensures
        ({
            let ejected = |id: i64| backend_health::ejected_at(old(health).state_of(id), now);
            let places = asked(servers@, ejected, scope, servers@.len());
            match r {
                Ok(v) => v.len() > 0 && v@.map_values(|i: usize| i as int) == places,
                Err(Refusal::Unauthorized) => servers.len() == 0,
                Err(Refusal::Unavailable) => servers.len() > 0 && places.len() == 0,
            }
        }),
        // every session that may be asked is asked, once and in the order of the servers
        forall|i: int|
            0 <= i < servers.len() && !backend_health::ejected_at(
                old(health).state_of(#[trigger] servers[i]),
                now,
            ) && (scope matches Some(id) ==> servers[i] == id) ==> r is Ok && r->Ok_0@.contains(
                i as usize,
            ),
        r matches Ok(v) ==> forall|j: int, k: int|
            0 <= j < k < v.len() ==> (#[trigger] v[j]) < (#[trigger] v[k]) < servers.len(),
        forall|id: i64|
            backend_health::ejected_at(#[trigger] final(health).state_of(id), now)
                == backend_health::ejected_at(old(health).state_of(id), now),
        // asking forgets ejections that are over, of the servers asked for, and nothing else
        forall|id: i64| #[trigger]
            final(health).state_of(id) == (if servers@.contains(id) {
                backend_health::noticed(old(health).state_of(id), now)
            } else {
                old(health).state_of(id)
            }),
{
    if servers.len() == 0 {
        return Err(Refusal::Unauthorized);
    }
    let ghost ejected = |id: i64| backend_health::ejected_at(old(health).state_of(id), now);
    let mut out: Vec<usize> = Vec::new();
    assert(out@.map_values(|i: usize| i as int) =~= asked(servers@, ejected, scope, 0));
    for i in 0..servers.len()
        invariant
            ejected == (|id: i64| backend_health::ejected_at(old(health).state_of(id), now)),
            forall|id: i64|
                backend_health::ejected_at(#[trigger] health.state_of(id), now)
                    == backend_health::ejected_at(old(health).state_of(id), now),
            forall|id: i64| #[trigger]
                health.state_of(id) == (if servers@.take(i as int).contains(id) {
                    backend_health::noticed(old(health).state_of(id), now)
                } else {
                    old(health).state_of(id)
                }),
            out@.map_values(|k: usize| k as int) == asked(servers@, ejected, scope, i as nat),
    {
        let ghost before = out@.map_values(|k: usize| k as int);
        let ghost seen = *health;
        let out_of_order = health.is_ejected(servers[i], now);
        proof {
            let id = servers[i as int];
            assert(servers@.take(i + 1) =~= servers@.take(i as int).push(id));
            assert forall|other: i64|
                servers@.take(i + 1).contains(other) == (servers@.take(i as int).contains(other)
                    || other == id) by {
                if other == id {
                    assert(servers@.take(i + 1)[i as int] == id);
                }
                if servers@.take(i as int).contains(other) {
                    let k = servers@.take(i as int).index_of(other);
                    assert(servers@.take(i + 1)[k] == other);
                }
            }
            assert(seen.state_of(id) == old(health).state_of(id) || seen.state_of(id)
                == backend_health::noticed(old(health).state_of(id), now));
        }
        let in_scope = match scope {
            Some(id) => id == servers[i],
            None => true,
        };
        if !out_of_order && in_scope {
            out.push(i);
            assert(out@.map_values(|k: usize| k as int) =~= before.push(i as int));
        }
    }
    assert(servers@.take(servers.len() as int) =~= servers@);
    proof {
        let places = out@.map_values(|k: usize| k as int);
        every_admitted_session_is_asked(servers@, ejected, scope, servers@.len());
        asked_sessions_are_admitted(servers@, ejected, scope, servers@.len());
        assert forall|i: int|
            0 <= i < servers.len() && !backend_health::ejected_at(
                old(health).state_of(#[trigger] servers[i]),
                now,
            ) && (scope matches Some(id) ==> servers[i] == id) implies out@.contains(
            i as usize,
        ) by {
            assert(!ejected(servers@[i]));
            assert(places.contains(i));
            let k = choose|k: int| 0 <= k < places.len() && places[k] == i;
            assert(out@[k] == i as usize);
        }
        assert forall|j: int, k: int| 0 <= j < k < out.len() implies (#[trigger] out[j]) < (
        #[trigger] out[k]) < servers.len() by {
            assert(places[j] == out[j] && places[k] == out[k]);
        }
    }
    if out.len() == 0 {
        Err(Refusal::Unavailable)
    } else {
        Ok(out)
    }
}

/// A scoped fan-out asks one backend only, and an ejected backend is never
/// asked.
pub proof fn asked_sessions_are_admitted(
    servers: Seq<i64>,
    ejected: spec_fn(i64) -> bool,
    scope: Option<i64>,
    n: nat,
)
    requires
        n <= servers.len(),
    ensures
        forall|k: int|
            0 <= k < asked(servers, ejected, scope, n).len() ==> {
                let i = #[trigger] asked(servers, ejected, scope, n)[k];
                0 <= i < n && !ejected(servers[i]) && (scope matches Some(id) ==> servers[i] == id)
            },
    decreases n,
{
    if n > 0 {
        asked_sessions_are_admitted(servers, ejected, scope, (n - 1) as nat);
        let before = asked(servers, ejected, scope, (n - 1) as nat);
        let after = asked(servers, ejected, scope, n);
        assert forall|k: int| 0 <= k < after.len() implies {
            let i = #[trigger] after[k];
            0 <= i < n && !ejected(servers[i]) && (scope matches Some(id) ==> servers[i] == id)
        } by {
            if k < before.len() {
                assert(after[k] == before[k]);
            }
        }
    }
}

/// How the call to one backend ended.
#[derive(Debug, Clone, Copy, PartialEq, Eq, Structural)]
pub enum CallEnd {
    /// It gave no usable answer.
    Failed(CallFailure),
    /// It gave items, but one of them could not be processed.
    Unprocessable,
    /// It gave items.
    Items,
}

/// What the end of a call says of the backend.
#[derive(Debug, Clone, Copy, PartialEq, Eq, Structural)]
pub enum HealthNote {
    Failure,
    Success,
    Nothing,
}

/// What is noted after a call. Errors of the user or of the credentials do not
/// count against a backend.
pub fn after_call(end: CallEnd) -> (r: HealthNote)
    ensures
        r == (match end {
            CallEnd::Items => HealthNote::Success,
            CallEnd::Unprocessable => HealthNote::Nothing,
            CallEnd::Failed(f) => if backend_health::tells_of_health(f) {
                HealthNote::Failure
            } else {
                HealthNote::Nothing
            },
        }),
{
    match end {
        CallEnd::Items => HealthNote::Success,
        CallEnd::Unprocessable => HealthNote::Nothing,
        CallEnd::Failed(f) => if backend_health::counts_toward_ejection(f) {
            HealthNote::Failure
        } else {
            HealthNote::Nothing
        },
    }
}

/// The value of a `Fields` pair with the provider ids among the fields.
pub open spec fn with_provider_ids(value: Seq<char>) -> Seq<char> {
    if text::contains_text(text::lowercased(value), "providerids"@) {
        value
    } else {
        value + ",ProviderIds"@
    }
}

/// Whether a pair lists the wanted fields.
pub open spec fn is_fields_pair(pair: (Seq<char>, Seq<char>)) -> bool {
    text::same_ignoring_case(pair.0, "fields"@)
}

/// The pairs with the provider ids added to every list of fields.
pub open spec fn extended_fields(
    pairs: Seq<(Seq<char>, Seq<char>)>,
) -> Seq<(Seq<char>, Seq<char>)> {
    pairs.map_values(
        |p: (Seq<char>, Seq<char>)|
            if is_fields_pair(p) {
                (p.0, with_provider_ids(p.1))
            } else {
                p
            },
    )
}

/// Query pairs that ask for the provider ids: they are added to the lists of
/// fields, or in a list of their own.
pub open spec fn asking_for_provider_ids(
    pairs: Seq<(Seq<char>, Seq<char>)>,
) -> Seq<(Seq<char>, Seq<char>)> {
    if exists|i: int| 0 <= i < pairs.len() && is_fields_pair(#[trigger] pairs[i]) {
        extended_fields(pairs)
    } else {
        pairs.push(("Fields"@, "ProviderIds"@))
    }
}

/// Makes query pairs ask for the provider ids.
pub fn add_provider_ids(pairs: &Vec<(String, String)>) -> (r: Vec<(String, String)>)
    ensures
        match_key::pair_texts(r@) == asking_for_provider_ids(match_key::pair_texts(pairs@)),
{
    let ghost all = match_key::pair_texts(pairs@);
    let mut had_fields = false;
    let mut out: Vec<(String, String)> = Vec::new();
    for i in 0..pairs.len()
        invariant
            all == match_key::pair_texts(pairs@),
            had_fields == exists|k: int| 0 <= k < i && is_fields_pair(#[trigger] all[k]),
            match_key::pair_texts(out@) == extended_fields(all).take(i as int),
    {
        let ghost before = match_key::pair_texts(out@);
        assert(all[i as int] == (pairs[i as int].0@, pairs[i as int].1@));
        let key = pairs[i].0.clone();
        let mut value = pairs[i].1.clone();
        if text::eq_ignoring_case(key.as_str(), "fields") {
            had_fields = true;
            if !text::contains(text::to_lowercase(value.as_str()).as_str(), "providerids") {
                value.append(",ProviderIds");
            }
        }
        let ghost pair = (key@, value@);
        out.push((key, value));
        assert(match_key::pair_texts(out@) =~= before.push(pair));
        assert(pair == extended_fields(all)[i as int]);
        assert(match_key::pair_texts(out@) =~= extended_fields(all).take(i + 1));
    }
    assert(extended_fields(all).take(pairs.len() as int) =~= extended_fields(all));
    if !had_fields {
        let ghost before = match_key::pair_texts(out@);
        assert(extended_fields(all) =~= all);
        out.push(("Fields".to_owned(), "ProviderIds".to_owned()));
        assert(match_key::pair_texts(out@) =~= before.push(("Fields"@, "ProviderIds"@)));
    }
    out
}

/// The address with its query changed; nothing where it is invalid or would be
/// too long.
pub open spec fn readdressed(
    url: Seq<char>,
    pairs: Option<Seq<(Seq<char>, Seq<char>)>>,
) -> Option<Seq<char>> {
    match pairs {
        Some(p) => urls::requeried(url, p),
        None => None,
    }
}

/// Makes a request's address ask for the provider ids: list views do not by
/// default, but dedup needs them on every item. `None` where the address is
/// invalid or would be too long.
pub fn ensure_provider_ids_field(url: &str) -> (r: Option<String>)
    ensures
        json::opt_text(r) == readdressed(
            url@,
            match urls::url_query_pairs(url@) {
                Some(p) => Some(asking_for_provider_ids(p)),
                None => None,
            },
        ),
        r matches Some(u) ==> urls::url_query_pairs(u@) == Some(
            asking_for_provider_ids(urls::url_query_pairs(url@)->0),
        ),
{
    match urls::pairs_of(url) {
        Some(pairs) => urls::with_query(url, &add_provider_ids(&pairs)),
        None => None,
    }
}

/// After the change every list of fields names the provider ids, there is such
/// a list, and every other pair is as it was.
pub proof fn fields_name_the_provider_ids(pairs: Seq<(Seq<char>, Seq<char>)>)
    ensures
        ({
            let after = asking_for_provider_ids(pairs);
            &&& exists|i: int| 0 <= i < after.len() && is_fields_pair(#[trigger] after[i])
            &&& forall|i: int|
                0 <= i < after.len() && is_fields_pair(#[trigger] after[i]) ==> text::contains_text(
                    text::lowercased(after[i].1),
                    "providerids"@,
                ) || text::contains_text(after[i].1, "ProviderIds"@)
            &&& forall|i: int|
                0 <= i < pairs.len() && !is_fields_pair(#[trigger] pairs[i]) ==> after[i]
                    == pairs[i]
        }),
{
    let after = asking_for_provider_ids(pairs);
    reveal_strlit("fields");
    reveal_strlit("Fields");
    reveal_strlit("ProviderIds");
    reveal_strlit(",ProviderIds");
    if exists|i: int| 0 <= i < pairs.len() && is_fields_pair(#[trigger] pairs[i]) {
        let i = choose|i: int| 0 <= i < pairs.len() && is_fields_pair(#[trigger] pairs[i]);
        assert(is_fields_pair(after[i]));
        assert forall|k: int|
            0 <= k < after.len() && is_fields_pair(#[trigger] after[k]) implies text::contains_text(
            text::lowercased(after[k].1),
            "providerids"@,
        ) || text::contains_text(after[k].1, "ProviderIds"@) by {
            let v = pairs[k].1;
            if !text::contains_text(text::lowercased(v), "providerids"@) {
                assert(after[k].1 == v + ",ProviderIds"@);
                assert((v + ",ProviderIds"@).subrange(v.len() + 1int, v.len() + 12int)
                    =~= "ProviderIds"@);
                assert(text::occurs_at(after[k].1, "ProviderIds"@, v.len() + 1int));
            }
        }
    } else {
        let last = after[pairs.len() as int];
        assert(text::ascii_lowered("Fields"@) =~= text::ascii_lowered("fields"@));
        assert(is_fields_pair(last));
        assert("ProviderIds"@.subrange(0, 11) =~= "ProviderIds"@);
        assert(text::occurs_at(last.1, "ProviderIds"@, 0));
        assert forall|k: int|
            0 <= k < after.len() && is_fields_pair(#[trigger] after[k]) implies text::contains_text(
            text::lowercased(after[k].1),
            "providerids"@,
        ) || text::contains_text(after[k].1, "ProviderIds"@) by {
            if k < pairs.len() {
                assert(after[k] == pairs[k]);
            }
        }
    }
}

/// Whether a pair names the parent folder.
pub open spec fn is_parent_pair(pair: (Seq<char>, Seq<char>)) -> bool {
    text::same_ignoring_case(pair.0, "ParentId"@)
}

/// Query pairs with the parent folder replaced, or added, at the end.
pub open spec fn with_parent(
    pairs: Seq<(Seq<char>, Seq<char>)>,
    parent_id: Seq<char>,
) -> Seq<(Seq<char>, Seq<char>)> {
    pairs.filter(|p: (Seq<char>, Seq<char>)| !is_parent_pair(p)).push(("ParentId"@, parent_id))
}

/// Replaces the parent folder among query pairs.
pub fn replace_parent(pairs: &Vec<(String, String)>, parent_id: &str) -> (r: Vec<(String, String)>)
    ensures
        match_key::pair_texts(r@) == with_parent(match_key::pair_texts(pairs@), parent_id@),
{
    let ghost all = match_key::pair_texts(pairs@);
    let ghost keep = |p: (Seq<char>, Seq<char>)| !is_parent_pair(p);
    let mut out: Vec<(String, String)> = Vec::new();
    proof {
        reveal(Seq::filter);
    }
    assert(match_key::pair_texts(out@) =~= all.take(0).filter(keep));
    for i in 0..pairs.len()
        invariant
            all == match_key::pair_texts(pairs@),
            keep == (|p: (Seq<char>, Seq<char>)| !is_parent_pair(p)),
            match_key::pair_texts(out@) == all.take(i as int).filter(keep),
    {
        proof {
            reveal(Seq::filter);
        }
        let ghost before = match_key::pair_texts(out@);
        assert(all.take(i + 1).drop_last() =~= all.take(i as int));
        assert(all.take(i + 1).last() == (pairs[i as int].0@, pairs[i as int].1@));
        if !text::eq_ignoring_case(pairs[i].0.as_str(), "ParentId") {
            out.push((pairs[i].0.clone(), pairs[i].1.clone()));
            assert(match_key::pair_texts(out@) =~= before.push(all[i as int]));
        }
    }
    assert(all.take(pairs.len() as int) =~= all);
    let ghost before = match_key::pair_texts(out@);
    out.push(("ParentId".to_owned(), parent_id.to_owned()));
    assert(match_key::pair_texts(out@) =~= before.push(("ParentId"@, parent_id@)));
    out
}

/// Replaces (or adds) the `ParentId` of a request's address. `None` where the
/// address is invalid or would be too long.
pub fn set_parent_id(url: &str, parent_id: &str) -> (r: Option<String>)
    ensures
        json::opt_text(r) == readdressed(
            url@,
            match urls::url_query_pairs(url@) {
                Some(p) => Some(with_parent(p, parent_id@)),
                None => None,
            },
        ),
        r matches Some(u) ==> urls::url_query_pairs(u@) == Some(
            with_parent(urls::url_query_pairs(url@)->0, parent_id@),
        ),
{
    match urls::pairs_of(url) {
        Some(pairs) => urls::with_query(url, &replace_parent(&pairs, parent_id)),
        None => None,
    }
}

proof fn no_parent_left(pairs: Seq<(Seq<char>, Seq<char>)>)
    ensures
        items::value_of_key(
            pairs.filter(|p: (Seq<char>, Seq<char>)| !is_parent_pair(p)),
            "ParentId"@,
        ) is None,
    decreases pairs.len(),
{
    reveal(Seq::filter);
    if pairs.len() > 0 {
        let keep = |p: (Seq<char>, Seq<char>)| !is_parent_pair(p);
        no_parent_left(pairs.drop_last());
        let f = pairs.drop_last().filter(keep);
        if keep(pairs.last()) {
            assert(f.push(pairs.last()).drop_last() =~= f);
        }
    }
}

/// After the parent folder was set, it is what a reader of the pairs finds.
pub proof fn parent_that_was_set_is_found(
    pairs: Seq<(Seq<char>, Seq<char>)>,
    parent_id: Seq<char>,
)
    ensures
        items::value_of_key(with_parent(pairs, parent_id), "ParentId"@) == Some(parent_id),
{
    no_parent_left(pairs);
    let f = pairs.filter(|p: (Seq<char>, Seq<char>)| !is_parent_pair(p));
    assert(with_parent(pairs, parent_id).drop_last() =~= f);
}

/// An address that asks for the provider ids; the same where it cannot be
/// changed.
pub open spec fn asking_address(url: Seq<char>) -> Seq<char> {
    match urls::url_query_pairs(url) {
        Some(pairs) => match urls::requeried(url, asking_for_provider_ids(pairs)) {
            Some(changed) => changed,
            None => url,
        },
        None => url,
    }
}

/// An address for the contents of a folder; the same where it cannot be
/// changed.
pub open spec fn parent_address(url: Seq<char>, parent_id: Seq<char>) -> Seq<char> {
    match urls::url_query_pairs(url) {
        Some(pairs) => match urls::requeried(url, with_parent(pairs, parent_id)) {
            Some(changed) => changed,
            None => url,
        },
        None => url,
    }
}

/// How a backend is asked: for the provider ids where dedup is on, and for its
/// own library where a merged one is browsed.
pub open spec fn backend_address(
    url: Seq<char>,
    dedup: bool,
    members: Option<Seq<(i64, Seq<char>)>>,
    server_id: i64,
) -> Seq<char> {
    let asking = if dedup {
        asking_address(url)
    } else {
        url
    };
    match members {
        Some(m) => match library_on(m, server_id) {
            Some(parent_id) => parent_address(asking, parent_id),
            None => asking,
        },
        None => asking,
    }
}

/// The address at which a backend is asked. An address that is invalid or
/// would be too long stays as it is.
pub fn address_for_backend(
    url: &str,
    dedup: bool,
    members: Option<&Vec<(i64, String)>>,
    server_id: i64,
) -> (r: String)
    ensures
        r@ == backend_address(
            url@,
            dedup,
            match members {
                Some(m) => Some(view_merge::member_views(m@)),
                None => None,
            },
            server_id,
        ),
{
    let asking = if dedup {
        match ensure_provider_ids_field(url) {
            Some(changed) => changed,
            None => url.to_owned(),
        }
    } else {
        url.to_owned()
    };
    let parent = match members {
        Some(m) => parent_override(m, server_id),
        None => None,
    };
    match parent {
        Some(parent_id) => match set_parent_id(asking.as_str(), parent_id.as_str()) {
            Some(changed) => changed,
            None => asking,
        },
        None => asking,
    }
}

/// The fan-out leaves out nothing that may be asked: the places of the asked
/// sessions, in ascending order, are those of the backends that are not ejected
/// and, where the request is scoped, are the one it is scoped to.
pub proof fn every_admitted_session_is_asked(
    servers: Seq<i64>,
    ejected: spec_fn(i64) -> bool,
    scope: Option<i64>,
    n: nat,
)
    requires
        n <= servers.len(),
    ensures
        forall|i: int|
            0 <= i < n ==> (#[trigger] asked(servers, ejected, scope, n).contains(i) <==> !ejected(
                servers[i],
            ) && (scope matches Some(id) ==> servers[i] == id)),
        forall|j: int, k: int|
            0 <= j < k < asked(servers, ejected, scope, n).len() ==> #[trigger] asked(
                servers,
                ejected,
                scope,
                n,
            )[j] < #[trigger] asked(servers, ejected, scope, n)[k],
    decreases n,
{
    asked_sessions_are_admitted(servers, ejected, scope, n);
    if n > 0 {
        let m = (n - 1) as nat;
        every_admitted_session_is_asked(servers, ejected, scope, m);
        asked_sessions_are_admitted(servers, ejected, scope, m);
        let before = asked(servers, ejected, scope, m);
        let after = asked(servers, ejected, scope, n);
        assert forall|i: int| 0 <= i < n implies (#[trigger] after.contains(i) <==> !ejected(
            servers[i],
        ) && (scope matches Some(id) ==> servers[i] == id)) by {
            if after.contains(i) {
                let k = choose|k: int| 0 <= k < after.len() && after[k] == i;
                assert(after[k] == i);
            } else if i < m {
                if before.contains(i) {
                    let k = choose|k: int| 0 <= k < before.len() && before[k] == i;
                    assert(after[k] == i);
                }
            } else if !ejected(servers[i]) && (scope matches Some(id) ==> servers[i] == id) {
                assert(after[before.len() as int] == i);
            }
        }
        assert forall|j: int, k: int| 0 <= j < k < after.len() implies #[trigger] after[j]
            < #[trigger] after[k] by {
            assert(after[j] == before[j]);
            if k < before.len() {
                assert(after[k] == before[k]);
            }
        }
    }
}

/// Whether the word stands in the query at the place, letter for letter, with
/// case aside and the long s as an s.
pub open spec fn word_stands_at(query: Seq<char>, word: Seq<char>, i: int) -> bool {
    &&& 0 <= i
    &&& i + word.len() <= query.len()
    &&& forall|k: int|
        0 <= k < word.len() ==> text::same_letter(#[trigger] word[k], query[i + k]) || (word[k]
            == 's' && query[i + k] == 'ſ')
}

/// Whether the word stands in the query anywhere.
pub open spec fn has_word(query: Seq<char>, word: Seq<char>) -> bool {
    exists|i: int| #[trigger] word_stands_at(query, word, i)
}

proof fn folded_words(query: Seq<char>, word: Seq<char>)
    requires
        forall|k: int| 0 <= k < word.len() ==> 'a' <= #[trigger] word[k] <= 'z',
    ensures
        text::contains_text(case_folded(query), word) <==> has_word(query, word),
{
    let folded = case_folded(query);
    if text::contains_text(folded, word) {
        let i = choose|i: int| #[trigger] text::occurs_at(folded, word, i);
        assert forall|k: int| 0 <= k < word.len() implies text::same_letter(
            #[trigger] word[k],
            query[i + k],
        ) || (word[k] == 's' && query[i + k] == 'ſ') by {
            assert(folded.subrange(i, i + word.len())[k] == folded[i + k]);
        }
        assert(word_stands_at(query, word, i));
    }
    if has_word(query, word) {
        let i = choose|i: int| #[trigger] word_stands_at(query, word, i);
        assert forall|k: int| 0 <= k < word.len() implies folded.subrange(i, i + word.len())[k]
            == word[k] by {
            assert('a' <= word[k] <= 'z');
            assert(text::same_letter(word[k], query[i + k]) || (word[k] == 's' && query[i + k]
                == 'ſ'));
            assert(folded[i + k] == word[k]);
        }
        assert(folded.subrange(i, i + word.len()) =~= word);
        assert(text::occurs_at(folded, word, i));
    }
}

/// A query is for one series or folder exactly where the letters of "seriesid"
/// or of "parentid" stand in it one after the other, case aside.
pub proof fn restricted_queries_name_a_series_or_parent(query: Seq<char>)
    ensures
        names_series_or_parent(query) <==> has_word(
            query,
            seq!['s', 'e', 'r', 'i', 'e', 's', 'i', 'd'],
        ) || has_word(query, seq!['p', 'a', 'r', 'e', 'n', 't', 'i', 'd']),
{
    reveal_strlit("seriesid");
    reveal_strlit("parentid");
    let series = seq!['s', 'e', 'r', 'i', 'e', 's', 'i', 'd'];
    let parent = seq!['p', 'a', 'r', 'e', 'n', 't', 'i', 'd'];
    assert("seriesid"@ =~= series);
    assert("parentid"@ =~= parent);
    folded_words(query, series);
    folded_words(query, parent);
}

/// A listing is asked for on every backend exactly where it is not restricted,
/// and on the members of a merged library exactly where it is restricted to
/// that; any other is asked for on one backend.
pub proof fn restricted_listings_go_where_they_belong(
    restricted: bool,
    parent: Option<Seq<char>>,
    groups: Map<Seq<char>, Seq<(i64, Seq<char>)>>,
)
    ensures
        ({
            let r = route_of(restricted, parent, groups);
            &&& r is AllServers <==> !restricted
            &&& r is Members <==> restricted && parent is Some && groups.contains_key(parent->0)
            &&& r matches RouteView::Members(m) ==> m == groups[parent->0]
        }),
{
}

/// The library of a server in a merged one is that of its last member on that
/// server; a server without a member has none.
pub proof fn last_member_counts(members: Seq<(i64, Seq<char>)>, server_id: i64)
    ensures
        match library_on(members, server_id) {
            Some(id) => exists|i: int|
                0 <= i < members.len() && #[trigger] members[i] == (server_id, id) && forall|j: int|
                    i < j < members.len() ==> (#[trigger] members[j]).0 != server_id,
            None => forall|i: int|
                0 <= i < members.len() ==> (#[trigger] members[i]).0 != server_id,
        },
    decreases members.len(),
{
    if members.len() > 0 {
        let head = members.drop_last();
        let n = members.len() - 1;
        if members.last().0 == server_id {
            assert(members[n] == (server_id, members.last().1));
        } else {
            last_member_counts(head, server_id);
            match library_on(head, server_id) {
                Some(id) => {
                    let i = choose|i: int|
                        0 <= i < head.len() && #[trigger] head[i] == (server_id, id) && forall|j: int|
                            i < j < head.len() ==> (#[trigger] head[j]).0 != server_id;
                    assert(members[i] == (server_id, id));
                    assert forall|j: int| i < j < members.len() implies (#[trigger] members[j]).0
                        != server_id by {
                        if j < n {
                            assert(head[j] == members[j]);
                        }
                    }
                },
                None => {
                    assert forall|i: int| 0 <= i < members.len() implies (#[trigger] members[i]).0
                        != server_id by {
                        if i < n {
                            assert(head[i] == members[i]);
                        }
                    }
                },
            }
        }
    }
}

/// Asking for the provider ids changes lists of fields only, and these by adding
/// to their end what they do not name already; a list of its own is added, at
/// the end, exactly where there is none.
pub proof fn asking_changes_lists_of_fields_only(pairs: Seq<(Seq<char>, Seq<char>)>)
    ensures
        ({
            let after = asking_for_provider_ids(pairs);
            let fields = |p: (Seq<char>, Seq<char>)|
                text::letters_agree(p.0, seq!['f', 'i', 'e', 'l', 'd', 's']);
            let has_fields = exists|i: int| 0 <= i < pairs.len() && fields(#[trigger] pairs[i]);
            &&& after.len() == pairs.len() + if has_fields {
                0int
            } else {
                1
            }
            &&& !has_fields ==> after.last() == ("Fields"@, "ProviderIds"@)
            &&& forall|i: int|
                0 <= i < pairs.len() ==> {
                    let (key, value) = #[trigger] pairs[i];
                    &&& after[i].0 == key
                    &&& !fields(pairs[i]) ==> after[i].1 == value
                    &&& fields(pairs[i]) ==> after[i].1 == if text::contains_text(
                        text::lowercased(value),
                        "providerids"@,
                    ) {
                        value
                    } else {
                        value.push(',') + "ProviderIds"@
                    }
                }
        }),
{
    reveal_strlit("fields");
    reveal_strlit(",ProviderIds");
    reveal_strlit("ProviderIds");
    let word = seq!['f', 'i', 'e', 'l', 'd', 's'];
    assert("fields"@ =~= word);
    let after = asking_for_provider_ids(pairs);
    assert forall|i: int| 0 <= i < pairs.len() implies is_fields_pair(#[trigger] pairs[i])
        == text::letters_agree(pairs[i].0, word) by {
        text::ignoring_case_is_letter_by_letter(pairs[i].0, word);
    }
    assert forall|i: int| 0 <= i < pairs.len() implies (#[trigger] pairs[i]).1 + ",ProviderIds"@
        == pairs[i].1.push(',') + "ProviderIds"@ by {
        assert(pairs[i].1 + ",ProviderIds"@ =~= pairs[i].1.push(',') + "ProviderIds"@);
    }
}

/// Setting the parent folder leaves every other pair as it was and in its order,
/// and puts the one parent there is at the end.
pub proof fn setting_the_parent_replaces_it_only(
    pairs: Seq<(Seq<char>, Seq<char>)>,
    parent_id: Seq<char>,
)
    ensures
        ({
            let after = with_parent(pairs, parent_id);
            let other = |p: (Seq<char>, Seq<char>)|
                !text::letters_agree(p.0, seq!['P', 'a', 'r', 'e', 'n', 't', 'I', 'd']);
            &&& after.len() > 0
            &&& after.last() == (seq!['P', 'a', 'r', 'e', 'n', 't', 'I', 'd'], parent_id)
            &&& after.drop_last() == pairs.filter(other)
            &&& forall|i: int| 0 <= i < after.len() - 1 ==> other(#[trigger] after[i])
        }),
{
    reveal_strlit("ParentId");
    let word = seq!['P', 'a', 'r', 'e', 'n', 't', 'I', 'd'];
    assert("ParentId"@ =~= word);
    let other = |p: (Seq<char>, Seq<char>)| !text::letters_agree(p.0, word);
    let keep = |p: (Seq<char>, Seq<char>)| !is_parent_pair(p);
    assert forall|p: (Seq<char>, Seq<char>)| #[trigger] keep(p) == other(p) by {
        text::ignoring_case_is_letter_by_letter(p.0, word);
    }
    assert(keep =~= other);
    let after = with_parent(pairs, parent_id);
    assert(after.drop_last() =~= pairs.filter(keep));
    assert forall|i: int| 0 <= i < after.len() - 1 implies other(#[trigger] after[i]) by {
        pairs.lemma_filter_pred(keep, i);
        assert(after[i] == pairs.filter(keep)[i]);
    }
}

/// A backend is asked at the very address of the request where dedup is off and
/// no library of its own is browsed there.
pub proof fn plain_requests_keep_their_address(
    url: Seq<char>,
    members: Option<Seq<(i64, Seq<char>)>>,
    server_id: i64,
)
    requires
        members matches Some(m) ==> forall|i: int|
            0 <= i < m.len() ==> (#[trigger] m[i]).0 != server_id,
    ensures
        backend_address(url, false, members, server_id) == url,
        urls::url_query_pairs(url) is None ==> backend_address(url, true, members, server_id)
            == url,
{
    if let Some(m) = members {
        last_member_counts(m, server_id);
    }
}

/// The two changes of an address do not depend on each other: the address with
/// both is the address that asks for the provider ids, with the backend's own
/// library put into it; and what the query of a changed address holds is fixed
/// by the pairs that were in it.
pub proof fn address_changes_come_one_after_the_other(
    url: Seq<char>,
    members: Seq<(i64, Seq<char>)>,
    server_id: i64,
)
    ensures
        backend_address(url, true, Some(members), server_id) == backend_address(
            backend_address(url, true, None, server_id),
            false,
            Some(members),
            server_id,
        ),
        ({
            let asking = backend_address(url, true, None, server_id);
            urls::url_query_pairs(url) matches Some(pairs) ==> asking == url || urls::requeried(
                url,
                asking_for_provider_ids(pairs),
            ) == Some(asking)
        }),
        ({
            let placed = backend_address(url, false, Some(members), server_id);
            urls::url_query_pairs(url) matches Some(pairs) ==> placed == url || (library_on(
                members,
                server_id,
            ) matches Some(id) && urls::requeried(url, with_parent(pairs, id)) == Some(placed))
        }),
{
}

/// An address that can be changed is changed: where dedup is on, or a library of
/// the backend's own is browsed, the address is the one with the new query
/// whenever there is such an address.
pub proof fn changeable_addresses_are_changed(
    url: Seq<char>,
    pairs: Seq<(Seq<char>, Seq<char>)>,
    members: Seq<(i64, Seq<char>)>,
    server_id: i64,
)
    requires
        urls::url_query_pairs(url) == Some(pairs),
    ensures
        urls::requeried(url, asking_for_provider_ids(pairs)) matches Some(changed)
            ==> backend_address(url, true, None, server_id) == changed,
        library_on(members, server_id) matches Some(id) ==> (urls::requeried(
            url,
            with_parent(pairs, id),
        ) matches Some(changed) ==> backend_address(url, false, Some(members), server_id)
            == changed),
{
}

}
