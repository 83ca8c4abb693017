//! Item requests: routing a request to the backend of the chosen version, and
//! how the versions of a title are known.
use vstd::prelude::*;
use vstd::string::*;

use crate::json;
use crate::json::{Json, JsonView};
use crate::match_key;
use crate::match_key::{MatchKey, MatchKeyView};
use crate::text;
use crate::urls;

verus! {

/// Whether the segment behind a segment is an item id.
pub open spec fn names_items(segment: Seq<char>) -> bool {
    text::same_ignoring_case(segment, "Items"@) || text::same_ignoring_case(segment, "Videos"@)
}

/// Whether the segment at `i` is an item id: it is not empty and stands right
/// behind `Items` or `Videos`.
pub open spec fn is_item_place(segments: Seq<Seq<char>>, i: int) -> bool {
    1 <= i < segments.len() && names_items(segments[i - 1]) && segments[i].len() > 0
}

/// The place of the first item id among the first `n` segments.
pub open spec fn item_place(segments: Seq<Seq<char>>, n: nat) -> Option<int>
    decreases n,
{
    if n == 0 {
        None
    } else {
        match item_place(segments, (n - 1) as nat) {
            Some(i) => Some(i),
            None => if is_item_place(segments, n - 1) {
                Some(n - 1)
            } else {
                None
            },
        }
    }
}

/// The segments of a path.
pub open spec fn segments_of(path: Seq<char>) -> Seq<Seq<char>> {
    text::split_on(path, '/')
}

/// The item id in a path.
pub open spec fn item_in(path: Seq<char>) -> Option<Seq<char>> {
    let segments = segments_of(path);
    match item_place(segments, segments.len()) {
        Some(i) => Some(segments[i]),
        None => None,
    }
}

/// The path with its item id replaced.
pub open spec fn with_item(path: Seq<char>, new_id: Seq<char>) -> Option<Seq<char>> {
    let segments = segments_of(path);
    match item_place(segments, segments.len()) {
        Some(i) => Some(text::join(segments.update(i, new_id), seq!['/'])),
        None => None,
    }
}

proof fn place_in_prefix(segments: Seq<Seq<char>>, n: nat, m: nat)
    requires
        n <= m,
        item_place(segments, n) is Some,
    ensures
        item_place(segments, m) == item_place(segments, n),
    decreases m,
{
    if n < m {
        place_in_prefix(segments, n, (m - 1) as nat);
    }
}

/// The place that is found is one of an item id, and the first one.
proof fn place_is_first(segments: Seq<Seq<char>>, n: nat)
    ensures
        match item_place(segments, n) {
            Some(i) => 1 <= i < n && is_item_place(segments, i) && forall|j: int|
                0 <= j < i ==> !#[trigger] is_item_place(segments, j),
            None => forall|j: int| 0 <= j < n ==> !#[trigger] is_item_place(segments, j),
        },
    decreases n,
{
    if n > 0 {
        place_is_first(segments, (n - 1) as nat);
    }
}

proof fn first_place_is_found(segments: Seq<Seq<char>>, n: nat, i: int)
    requires
        1 <= i < n,
        is_item_place(segments, i),
        forall|j: int| 0 <= j < i ==> !#[trigger] is_item_place(segments, j),
    ensures
        item_place(segments, n) == Some(i),
{
    place_is_first(segments, n);
}

/// Finds the item id in split segments.
fn find_item(segments: &Vec<String>) -> (r: Option<usize>)
    ensures
        match r {
            Some(i) => 1 <= i < segments.len() && item_place(
                text::texts(segments@),
                segments@.len(),
            ) == Some(i as int),
            None => item_place(text::texts(segments@), segments@.len()) is None,
        },
{
    let ghost all = text::texts(segments@);
    for i in 0..segments.len()
        invariant
            all == text::texts(segments@),
            item_place(all, i as nat) is None,
    {
        if i > 0 {
            assert(all[i - 1] == segments[i - 1]@);
            assert(all[i as int] == segments[i as int]@);
            let before = &segments[i - 1];
            if (text::eq_ignoring_case(before.as_str(), "Items") || text::eq_ignoring_case(
                before.as_str(),
                "Videos",
            )) && !segments[i].as_str().is_empty() {
                proof {
                    place_in_prefix(all, (i + 1) as nat, all.len());
                }
                return Some(i);
            }
        }
    }
    None
}

/// Replaces the id segment right after `/Items/` or `/Videos/`.
pub fn rewrite_item_segment(path: &str, new_id: &str) -> (r: Option<String>)
    ensures
        json::opt_text(r) == with_item(path@, new_id@),
{
    let mut segments = text::split(path, '/');
    let ghost before = text::texts(segments@);
    match find_item(&segments) {
        Some(i) => {
            segments.set(i, new_id.to_owned());
            assert(text::texts(segments@) =~= before.update(i as int, new_id@));
            proof {
                reveal_strlit("/");
                assert("/"@ =~= seq!['/']);
            }
            Some(text::join_strings(&segments, "/"))
        },
        None => None,
    }
}

/// The id segment right after `/Items/` or `/Videos/`.
pub fn item_segment(path: &str) -> (r: Option<String>)
    ensures
        json::opt_text(r) == item_in(path@),
{
    let segments = text::split(path, '/');
    assert(forall|i: int| 0 <= i < segments.len() ==> text::texts(segments@)[i] == segments[i]@);
    match find_item(&segments) {
        Some(i) => Some(segments[i].clone()),
        None => None,
    }
}

/// Rewriting a path puts the new id where the old one stood and touches no
/// other segment: the item of the new path is the new id.
pub proof fn rewritten_path_names_the_new_item(path: Seq<char>, new_id: Seq<char>)
    requires
        item_in(path) is Some,
        new_id.len() > 0,
        !new_id.contains('/'),
    ensures
        with_item(path, new_id) is Some,
        item_in(with_item(path, new_id)->0) == Some(new_id),
        segments_of(with_item(path, new_id)->0).len() == segments_of(path).len(),
        exists|at: int|
            0 <= at < segments_of(path).len() && segments_of(with_item(path, new_id)->0)
                == #[trigger] segments_of(path).update(at, new_id),
{
    let segments = segments_of(path);
    let i = item_place(segments, segments.len())->0;
    let new_segments = segments.update(i, new_id);
    place_is_first(segments, segments.len());
    text::split_parts_are_plain(path, '/');
    text::split_of_join(new_segments, '/');
    assert forall|j: int| 0 <= j < i implies !#[trigger] is_item_place(new_segments, j) by {
        assert(!is_item_place(segments, j));
        if j >= 1 {
            assert(new_segments[j] == segments[j] && new_segments[j - 1] == segments[j - 1]);
        }
    }
    assert(is_item_place(new_segments, i)) by {
        assert(new_segments[i - 1] == segments[i - 1]);
    }
    first_place_is_found(new_segments, new_segments.len(), i);
    assert(segments_of(with_item(path, new_id)->0) == segments.update(i, new_id));
}

/// The value of the first pair with the key, letter case aside.
pub open spec fn value_of_key(
    pairs: Seq<(Seq<char>, Seq<char>)>,
    key: Seq<char>,
) -> Option<Seq<char>>
    decreases pairs.len(),
{
    if pairs.len() == 0 {
        None
    } else {
        match value_of_key(pairs.drop_last(), key) {
            Some(v) => Some(v),
            None => if text::same_ignoring_case(pairs.last().0, key) {
                Some(pairs.last().1)
            } else {
                None
            },
        }
    }
}

proof fn value_in_prefix(pairs: Seq<(Seq<char>, Seq<char>)>, key: Seq<char>, n: int)
    requires
        0 <= n <= pairs.len(),
        value_of_key(pairs.take(n), key) is Some,
    ensures
        value_of_key(pairs, key) == value_of_key(pairs.take(n), key),
    decreases pairs.len(),
{
    if n == pairs.len() {
        assert(pairs.take(n) =~= pairs);
    } else {
        assert(pairs.drop_last().take(n) =~= pairs.take(n));
        value_in_prefix(pairs.drop_last(), key, n);
    }
}

/// The value of the first pair with the key, letter case aside.
pub fn find_value(pairs: &Vec<(String, String)>, key: &str) -> (r: Option<String>)
    ensures
        json::opt_text(r) == value_of_key(match_key::pair_texts(pairs@), key@),
{
    let ghost all = match_key::pair_texts(pairs@);
    for i in 0..pairs.len()
        invariant
            all == match_key::pair_texts(pairs@),
            value_of_key(all.take(i as int), key@) is None,
    {
        assert(all.take(i + 1).drop_last() =~= all.take(i as int));
        assert(all.take(i + 1).last() == (pairs[i as int].0@, pairs[i as int].1@));
        if text::eq_ignoring_case(pairs[i].0.as_str(), key) {
            proof {
                value_in_prefix(all, key@, i + 1);
            }
            return Some(pairs[i].1.clone());
        }
    }
    assert(all.take(pairs.len() as int) =~= all);
    None
}

/// Text that is not empty.
pub open spec fn nonempty(s: Option<Seq<char>>) -> Option<Seq<char>> {
    match s {
        Some(t) => if t.len() > 0 {
            Some(t)
        } else {
            None
        },
        None => None,
    }
}

/// The media source that a request asks for, given what its query and its body
/// hold: the query counts first, an empty id counts as none.
pub open spec fn chosen_source(
    pairs: Option<Seq<(Seq<char>, Seq<char>)>>,
    body: Option<JsonView>,
) -> Option<Seq<char>> {
    let in_query = match pairs {
        Some(p) => value_of_key(p, "MediaSourceId"@),
        None => None,
    };
    let any = match (in_query, body) {
        (Some(v), _) => Some(v),
        (None, Some(b)) => json::text_field(b, "MediaSourceId"@),
        _ => None,
    };
    nonempty(any)
}

/// Picks the media source out of the query pairs and the body.
pub fn source_of(pairs: Option<&Vec<(String, String)>>, body: Option<&Json>) -> (r: Option<String>)
    ensures
        json::opt_text(r) == chosen_source(
            match pairs {
                Some(p) => Some(match_key::pair_texts(p@)),
                None => None,
            },
            json::opt_contents(body),
        ),
{
    let in_query = match pairs {
        Some(p) => find_value(p, "MediaSourceId"),
        None => None,
    };
    let any = match in_query {
        Some(v) => Some(v),
        None => match body {
            Some(b) => b.get_text("MediaSourceId"),
            None => None,
        },
    };
    match any {
        Some(t) => if t.as_str().is_empty() {
            None
        } else {
            Some(t)
        },
        None => None,
    }
}

/// The JSON in a body, where there is any.
pub open spec fn body_json(body: Seq<u8>) -> Option<JsonView> {
    if body.len() == 0 {
        None
    } else {
        match json::json_parsed(body) {
            Ok(v) => Some(v),
            Err(_) => None,
        }
    }
}

/// The media source that a request asks for, from its raw query and body.
pub fn media_source_id(query: Option<&str>, body: &[u8]) -> (r: Option<String>)
    ensures
        json::opt_text(r) == chosen_source(
            match query {
                Some(q) => Some(urls::form_pairs(vstd::utf8::encode_utf8(q@))),
                None => None,
            },
            body_json(body@),
        ),
{
    let pairs = match query {
        Some(q) => Some(urls::parse_form(q.as_bytes())),
        None => None,
    };
    let parsed = if body.len() == 0 {
        None
    } else {
        match json::parse_json(body) {
            Ok(v) => Some(v),
            Err(_) => None,
        }
    };
    source_of(pairs.as_ref(), parsed.as_ref())
}

/// The item and the media source of a request that may have to go to another
/// backend: the media source is another than the item in the path.
pub open spec fn pin_question(
    path: Seq<char>,
    source: Option<Seq<char>>,
) -> Option<(Seq<char>, Seq<char>)> {
    match (nonempty(source), item_in(path)) {
        (Some(s), Some(item)) => if s != item {
            Some((item, s))
        } else {
            None
        },
        _ => None,
    }
}

/// Decides whether the backends of the item and the media source are to be
/// looked up: gives the two ids if so.
pub fn pin_to_media_source(path: &str, source: Option<String>) -> (r: Option<(String, String)>)
    ensures
        (match r {
            Some((item, s)) => Some((item@, s@)),
            None => None,
        }) == pin_question(path@, json::opt_text(source)),
{
    match (source, item_segment(path)) {
        (Some(s), Some(item)) => if s.as_str().is_empty() || text::str_eq(
            s.as_str(),
            item.as_str(),
        ) {
            None
        } else {
            Some((item, s))
        },
        _ => None,
    }
}

/// The path and query that pin a request to the media source's backend, given
/// the servers of the source and of the item; nothing where the request stays
/// as it is.
pub open spec fn pinned(
    path: Seq<char>,
    query: Option<Seq<char>>,
    source: Seq<char>,
    source_server: Option<i64>,
    item_server: Option<i64>,
) -> Option<Seq<char>> {
    if source_server is Some && source_server != item_server {
        match with_item(path, source) {
            Some(p) => match query {
                Some(q) => Some(p + "?"@ + q),
                None => Some(p),
            },
            None => None,
        }
    } else {
        None
    }
}

/// Rewrites a request to the media source's backend, if that is known and
/// another than the item's.
pub fn pinned_target(
    path: &str,
    query: Option<&str>,
    source: &str,
    source_server: Option<i64>,
    item_server: Option<i64>,
) -> (r: Option<String>)
    ensures
        json::opt_text(r) == pinned(
            path@,
            match query {
                Some(q) => Some(q@),
                None => None,
            },
            source@,
            source_server,
            item_server,
        ),
{
    let src = match source_server {
        Some(s) => s,
        None => {
            return None;
        },
    };
    if let Some(own) = item_server {
        if own == src {
            return None;
        }
    }
    match rewrite_item_segment(path, source) {
        Some(p) => match query {
            Some(q) => Some(p.concat("?").concat(q)),
            None => Some(p),
        },
        None => None,
    }
}

/// Pinning is a no-op for normal playback and for versions on one backend:
/// where the media source lives on the item's own backend, or on none that is
/// known, the request stays as it is.
pub proof fn same_backend_is_not_pinned(
    path: Seq<char>,
    query: Option<Seq<char>>,
    source: Seq<char>,
    source_server: Option<i64>,
    item_server: Option<i64>,
)
    requires
        source_server is None || source_server == item_server,
    ensures
        pinned(path, query, source, source_server, item_server) is None,
{
}

/// The kinds of items whose versions are collected.
#[derive(Debug, Clone, Copy, PartialEq, Eq, Structural)]
pub enum ItemKind {
    Movie,
    Episode,
    UserView,
    Other,
}

/// How the versions of an item are found.
#[derive(Debug)]
pub enum VersionIdentity {
    /// By this key.
    Known(MatchKey),
    /// By the key that the item's own backend gives.
    AskHome,
    /// Not at all.
    Unversioned,
}

/// The data in a [`VersionIdentity`].
pub enum VersionIdentityView {
    Known(MatchKeyView),
    AskHome,
    Unversioned,
}

impl View for VersionIdentity {
    type V = VersionIdentityView;

    open spec fn view(&self) -> VersionIdentityView {
        match self {
            VersionIdentity::Known(k) => VersionIdentityView::Known(k@),
            VersionIdentity::AskHome => VersionIdentityView::AskHome,
            VersionIdentity::Unversioned => VersionIdentityView::Unversioned,
        }
    }
}

/// Movies are known by their own provider ids, episodes by what their backend
/// says of the series; a movie without identifying ids has no versions.
pub open spec fn version_identity_of(
    kind: ItemKind,
    provider_ids: Option<JsonView>,
) -> VersionIdentityView {
    match kind {
        ItemKind::Movie => {
            let key = MatchKeyView::Provider(match_key::provider_ids(provider_ids));
            if match_key::unmatchable(key) {
                VersionIdentityView::Unversioned
            } else {
                VersionIdentityView::Known(key)
            }
        },
        ItemKind::Episode => VersionIdentityView::AskHome,
        _ => VersionIdentityView::Unversioned,
    }
}

/// Decides how the versions of an item are found.
pub fn version_identity(kind: ItemKind, provider_ids: Option<&Json>) -> (r: VersionIdentity)
    ensures
        r@ == version_identity_of(kind, json::opt_contents(provider_ids)),
{
    match kind {
        ItemKind::Movie => {
            let key = MatchKey::Provider(match_key::providers_from(provider_ids));
            if key.is_empty() {
                VersionIdentity::Unversioned
            } else {
                VersionIdentity::Known(key)
            }
        },
        ItemKind::Episode => VersionIdentity::AskHome,
        _ => VersionIdentity::Unversioned,
    }
}

/// The ids that a playback request is forwarded with: the user is the
/// session's own on the backend, the media source the backend's own id where
/// one is known. What the request does not name stays unnamed.
pub fn post_playback_info(
    user_id: Option<String>,
    media_source_id: Option<String>,
    session_user_id: &str,
    original_media_id: Option<String>,
) -> (r: (Option<String>, Option<String>))
    ensures
        json::opt_text(r.0) == (if user_id is Some {
            Some(session_user_id@)
        } else {
            None
        }),
        json::opt_text(r.1) == (match (media_source_id, original_media_id) {
            (Some(_), Some(original)) => Some(original@),
            (m, _) => json::opt_text(m),
        }),
{
    let user = match user_id {
        Some(_) => Some(session_user_id.to_owned()),
        None => None,
    };
    let source = match media_source_id {
        Some(m) => match original_media_id {
            Some(original) => Some(original),
            None => Some(m),
        },
        None => None,
    };
    (user, source)
}

/// Whether a segment that is not empty stands at the place, right behind one
/// that is spelled `Items` or `Videos`, letter case aside.
pub open spec fn stands_behind_items_or_videos(segments: Seq<Seq<char>>, i: int) -> bool {
    &&& 1 <= i < segments.len()
    &&& segments[i].len() > 0
    &&& text::letters_agree(segments[i - 1], seq!['I', 't', 'e', 'm', 's'])
        || text::letters_agree(segments[i - 1], seq!['V', 'i', 'd', 'e', 'o', 's'])
}

proof fn item_places_are_behind_items_or_videos(segments: Seq<Seq<char>>, i: int)
    ensures
        is_item_place(segments, i) <==> stands_behind_items_or_videos(segments, i),
{
    reveal_strlit("Items");
    reveal_strlit("Videos");
    assert("Items"@ =~= seq!['I', 't', 'e', 'm', 's']);
    assert("Videos"@ =~= seq!['V', 'i', 'd', 'e', 'o', 's']);
    if 1 <= i < segments.len() {
        text::ignoring_case_is_letter_by_letter(segments[i - 1], "Items"@);
        text::ignoring_case_is_letter_by_letter(segments[i - 1], "Videos"@);
    }
}

/// Whether the place is the first of an item id.
pub open spec fn is_first_item_place(segments: Seq<Seq<char>>, i: int) -> bool {
    &&& stands_behind_items_or_videos(segments, i)
    &&& forall|j: int| 0 <= j < i ==> !#[trigger] stands_behind_items_or_videos(segments, j)
}

/// The item of a path is its first segment that is not empty and stands right
/// behind `Items` or `Videos`, letter case aside; a path has none exactly where
/// it has no such segment. What is put in its place changes that segment and no
/// other, slashes aside.
pub proof fn items_stand_behind_items_or_videos(path: Seq<char>, new_id: Seq<char>)
    ensures
        match item_in(path) {
            Some(id) => exists|i: int| #[trigger]
                is_first_item_place(segments_of(path), i) && segments_of(path)[i] == id && (
                !new_id.contains('/') ==> with_item(path, new_id) is Some && segments_of(
                    with_item(path, new_id)->0,
                ) == segments_of(path).update(i, new_id)),
            None => with_item(path, new_id) is None && forall|i: int| !#[trigger]
                stands_behind_items_or_videos(segments_of(path), i),
        },
{
    let segments = segments_of(path);
    place_is_first(segments, segments.len());
    assert forall|i: int| #[trigger] stands_behind_items_or_videos(segments, i) == is_item_place(
        segments,
        i,
    ) by {
        item_places_are_behind_items_or_videos(segments, i);
    }
    if let Some(i) = item_place(segments, segments.len()) {
        assert(stands_behind_items_or_videos(segments, i));
        assert(is_first_item_place(segments, i));
        if !new_id.contains('/') {
            text::split_parts_are_plain(path, '/');
            text::split_of_join(segments.update(i, new_id), '/');
        }
    } else {
        assert forall|i: int| !#[trigger] stands_behind_items_or_videos(segments, i) by {
            if 0 <= i < segments.len() {
                assert(!is_item_place(segments, i));
            }
        }
    }
}

/// Of the pairs under a key, letter case aside, the first counts.
pub proof fn first_pair_counts(pairs: Seq<(Seq<char>, Seq<char>)>, key: Seq<char>)
    ensures
        match value_of_key(pairs, key) {
            Some(v) => exists|i: int|
                0 <= i < pairs.len() && text::letters_agree((#[trigger] pairs[i]).0, key)
                    && pairs[i].1 == v && forall|j: int|
                    0 <= j < i ==> !text::letters_agree((#[trigger] pairs[j]).0, key),
            None => forall|i: int|
                0 <= i < pairs.len() ==> !text::letters_agree((#[trigger] pairs[i]).0, key),
        },
    decreases pairs.len(),
{
    if pairs.len() > 0 {
        let head = pairs.drop_last();
        let n = pairs.len() - 1;
        first_pair_counts(head, key);
        text::ignoring_case_is_letter_by_letter(pairs.last().0, key);
        assert forall|j: int| 0 <= j < n implies #[trigger] pairs[j] == head[j] by {}
        match value_of_key(head, key) {
            Some(v) => {
                let i = choose|i: int|
                    0 <= i < head.len() && text::letters_agree((#[trigger] head[i]).0, key)
                        && head[i].1 == v && forall|j: int|
                        0 <= j < i ==> !text::letters_agree((#[trigger] head[j]).0, key);
                assert(pairs[i] == head[i]);
                assert(text::letters_agree(pairs[i].0, key));
            },
            None => {
                if value_of_key(pairs, key) is Some {
                    assert(text::letters_agree(pairs[n].0, key));
                }
            },
        }
    }
}

/// The media source of a request is what its query names, where the query names
/// one at all, and else what its body names; an empty name is none, and is not
/// made up for by the body.
pub proof fn the_query_counts_before_the_body(
    pairs: Seq<(Seq<char>, Seq<char>)>,
    body: Option<JsonView>,
)
    ensures
        value_of_key(pairs, "MediaSourceId"@) matches Some(v) ==> (v.len() > 0 ==> chosen_source(
            Some(pairs),
            body,
        ) == Some(v)) && (v.len() == 0 ==> chosen_source(Some(pairs), body) is None),
        value_of_key(pairs, "MediaSourceId"@) is None ==> chosen_source(Some(pairs), body)
            == chosen_source(None, body),
        chosen_source(None, None) is None,
        body matches Some(b) ==> {
            &&& chosen_source(None, body) matches Some(v) ==> v.len() > 0 && json::field(
                b,
                "MediaSourceId"@,
            ) == Some(JsonView::Text(v))
            &&& json::field(b, "MediaSourceId"@) matches Some(JsonView::Text(v)) ==> v.len() > 0
                ==> chosen_source(None, body) == Some(v)
        },
{
}

/// The backends are looked up exactly where a request has an item and names a
/// media source that is another, and then for these two.
pub proof fn only_other_sources_are_looked_up(path: Seq<char>, source: Option<Seq<char>>)
    ensures
        match pin_question(path, source) {
            Some((item, s)) => item_in(path) == Some(item) && source == Some(s) && s.len() > 0 && s
                != item,
            None => item_in(path) is None || source is None || (source->0).len() == 0 || source
                == item_in(path),
        },
{
}

/// A request is sent to another backend exactly where the media source's is
/// known, is not the item's, and the path has an item; its path then has the
/// media source in place of the item, and its query is as it was.
pub proof fn pinned_requests_keep_their_query(
    path: Seq<char>,
    query: Seq<char>,
    source: Seq<char>,
    source_server: Option<i64>,
    item_server: Option<i64>,
)
    ensures
        pinned(path, None, source, source_server, item_server) is Some <==> source_server is Some
            && source_server != item_server && item_in(path) is Some,
        pinned(path, None, source, source_server, item_server) matches Some(p) ==> Some(p)
            == with_item(path, source) && pinned(
            path,
            Some(query),
            source,
            source_server,
            item_server,
        ) == Some(p.push('?') + query),
        pinned(path, None, source, source_server, item_server) is None ==> pinned(
            path,
            Some(query),
            source,
            source_server,
            item_server,
        ) is None,
{
    reveal_strlit("?");
    if let Some(p) = with_item(path, source) {
        assert(p + "?"@ + query =~= p.push('?') + query);
    }
}

/// Movies and episodes are the only items with versions. A movie's are found by
/// its own provider ids, where one of them does not name a collection, and an
/// episode's by what its backend says.
pub proof fn only_movies_and_episodes_have_versions(
    kind: ItemKind,
    provider_ids: Option<JsonView>,
)
    ensures
        ({
            let r = version_identity_of(kind, provider_ids);
            let ids = match_key::provider_ids(provider_ids);
            &&& r is AskHome <==> kind == ItemKind::Episode
            &&& r is Known <==> kind == ItemKind::Movie && exists|i: int|
                0 <= i < ids.len() && !text::contains_text(
                    text::lowercased((#[trigger] ids[i]).0),
                    "collection"@,
                )
            &&& r matches VersionIdentityView::Known(key) ==> key == MatchKeyView::Provider(ids)
        }),
{
    let ids = match_key::provider_ids(provider_ids);
    match_key::keys_match_by_some_identifying_id(ids, 0, 0);
    if !match_key::unmatchable(MatchKeyView::Provider(ids)) {
        let i = choose|i: int|
            0 <= i < ids.len() && !text::contains_text(
                text::lowercased(#[trigger] ids[i].0),
                "collection"@,
            );
        assert(!text::contains_text(text::lowercased(ids[i].0), "collection"@));
    }
    if exists|i: int|
        0 <= i < ids.len() && !text::contains_text(
            text::lowercased((#[trigger] ids[i]).0),
            "collection"@,
        ) {
        let i = choose|i: int|
            0 <= i < ids.len() && !text::contains_text(
                text::lowercased((#[trigger] ids[i]).0),
                "collection"@,
            );
        assert(!text::contains_text(text::lowercased(ids[i].0), "collection"@));
    }
}

}
