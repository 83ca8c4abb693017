//! How "the same title" is found on another backend, and the per-item state
//! that is kept the same there.
use vstd::multiset::*;
use vstd::prelude::*;
use vstd::seq_lib::*;
use vstd::string::*;

use crate::json;
use crate::json::{Json, JsonView};
use crate::sorting;
use crate::text;

verus! {

/// The characters of provider-id pairs.
pub open spec fn pair_texts(p: Seq<(String, String)>) -> Seq<(Seq<char>, Seq<char>)> {
    p.map_values(|x: (String, String)| (x.0@, x.1@))
}

/// Whether a provider key names a single item. Collection keys (such as
/// `TmdbCollection`) are shared by every movie of a franchise.
pub open spec fn identifying(key: Seq<char>) -> bool {
    !text::contains_text(text::lowercased(key), "collection"@)
}

/// Whether a provider key uniquely identifies a single item. Collection-type
/// keys are excluded: matching on them would pick the wrong sibling.
pub fn is_identifying_provider_key(key: &str) -> (r: bool)
    ensures
        r == identifying(key@),
{
    !text::contains(text::to_lowercase(key).as_str(), "collection")
}

/// The identifying pairs, keys in lower case.
pub open spec fn identifying_pairs(p: Seq<(Seq<char>, Seq<char>)>) -> Seq<(Seq<char>, Seq<char>)>
    decreases p.len(),
{
    if p.len() == 0 {
        Seq::empty()
    } else {
        let before = identifying_pairs(p.drop_last());
        if identifying(p.last().0) {
            before.push((text::lowercased(p.last().0), p.last().1))
        } else {
            before
        }
    }
}

/// The pairs to look for on a peer: the identifying ones, keys in lower case.
pub fn identifying_want(p: &Vec<(String, String)>) -> (r: Vec<(String, String)>)
    ensures
        pair_texts(r@) == identifying_pairs(pair_texts(p@)),
{
    let mut out: Vec<(String, String)> = Vec::new();
    assert(pair_texts(out@) =~= identifying_pairs(pair_texts(p@).take(0)));
    for i in 0..p.len()
        invariant
            pair_texts(out@) == identifying_pairs(pair_texts(p@).take(i as int)),
    {
        let ghost before = pair_texts(out@);
        assert(pair_texts(p@).take(i + 1).drop_last() =~= pair_texts(p@).take(i as int));
        assert(pair_texts(p@).take(i + 1).last() == (p[i as int].0@, p[i as int].1@));
        if is_identifying_provider_key(p[i].0.as_str()) {
            out.push((text::to_lowercase(p[i].0.as_str()), p[i].1.clone()));
            assert(pair_texts(out@) =~= before.push(
                (text::lowercased(p[i as int].0@), p[i as int].1@),
            ));
        }
    }
    assert(pair_texts(p@).take(p.len() as int) =~= pair_texts(p@));
    out
}

/// Whether a provider id of an item is one of the wanted identifying pairs.
pub open spec fn wanted(
    entry: (Seq<char>, JsonView),
    want: Seq<(Seq<char>, Seq<char>)>,
) -> bool {
    identifying(entry.0) && match json::as_text(entry.1) {
        Some(v) => want.contains((text::lowercased(entry.0), v)),
        None => false,
    }
}

/// Whether an item shares an identifying `(key, value)` pair with `want`.
pub open spec fn shares_identifying_id(item: JsonView, want: Seq<(Seq<char>, Seq<char>)>) -> bool {
    match json::field(item, "ProviderIds"@) {
        Some(JsonView::Object(ids)) => exists|i: int|
            0 <= i < ids.len() && wanted(#[trigger] ids[i], want),
        _ => false,
    }
}

/// The id of the first item that shares an identifying pair with `want` and
/// has an id.
pub open spec fn first_sharing(
    items: Seq<JsonView>,
    want: Seq<(Seq<char>, Seq<char>)>,
) -> Option<Seq<char>>
    decreases items.len(),
{
    if items.len() == 0 {
        None
    } else {
        match first_sharing(items.drop_last(), want) {
            Some(id) => Some(id),
            None => if shares_identifying_id(items.last(), want) {
                json::text_field(items.last(), "Id"@)
            } else {
                None
            },
        }
    }
}

/// Whether `want` holds the pair.
fn has_pair(want: &Vec<(String, String)>, key: &str, value: &str) -> (r: bool)
    ensures
        r == pair_texts(want@).contains((key@, value@)),
{
    for i in 0..want.len()
        invariant
            forall|j: int|
                0 <= j < i ==> #[trigger] pair_texts(want@)[j] != (key@, value@),
    {
        assert(pair_texts(want@)[i as int] == (want[i as int].0@, want[i as int].1@));
        if text::str_eq(want[i].0.as_str(), key) && text::str_eq(want[i].1.as_str(), value) {
            return true;
        }
    }
    false
}

/// Whether the provider ids of an item hold a wanted identifying pair.
fn item_matches(item: &Json, want: &Vec<(String, String)>) -> (r: bool)
    ensures
        r == shares_identifying_id(json::contents(*item), pair_texts(want@)),
{
    match item.get("ProviderIds") {
        Some(Json::Object(ids)) => {
            let ghost all = json::contents(Json::Object(*ids))->Object_0;
            for i in 0..ids.len()
                invariant
                    all == json::contents(Json::Object(*ids))->Object_0,
                    all.len() == ids.len(),
                    json::field(json::contents(*item), "ProviderIds"@) == Some(
                        JsonView::Object(all),
                    ),
                    forall|j: int|
                        0 <= j < i ==> !wanted(#[trigger] all[j], pair_texts(want@)),
            {
                assert(all[i as int] == (ids[i as int].0@, json::contents(ids[i as int].1)));
                if is_identifying_provider_key(ids[i].0.as_str()) {
                    if let Json::Text(v) = &ids[i].1 {
                        let key = text::to_lowercase(ids[i].0.as_str());
                        if has_pair(want, key.as_str(), v.as_str()) {
                            assert(wanted(all[i as int], pair_texts(want@)));
                            return true;
                        }
                    }
                }
            }
            false
        },
        _ => false,
    }
}

/// First item in `items` whose `ProviderIds` share an *identifying* pair with
/// `want` (keys compared without case, values exactly).
pub fn first_provider_match(items: &Vec<Json>, want: &Vec<(String, String)>) -> (r: Option<String>)
    ensures
        json::opt_text(r) == first_sharing(json::all_contents(items@), pair_texts(want@)),
{
    let ghost all = json::all_contents(items@);
    let ghost w = pair_texts(want@);
    for i in 0..items.len()
        invariant
            all == json::all_contents(items@),
            w == pair_texts(want@),
            first_sharing(all.take(i as int), w) is None,
    {
        assert(all.take(i + 1).drop_last() =~= all.take(i as int));
        assert(all.take(i + 1).last() == json::contents(items[i as int]));
        if item_matches(&items[i], want) {
            if let Some(id) = items[i].get_text("Id") {
                proof {
                    first_sharing_in_prefix(all, w, i + 1);
                }
                return Some(id);
            }
        }
    }
    assert(all.take(items.len() as int) =~= all);
    None
}

/// The first match within a prefix is the first match of the whole.
proof fn first_sharing_in_prefix(
    items: Seq<JsonView>,
    want: Seq<(Seq<char>, Seq<char>)>,
    n: int,
)
    requires
        0 <= n <= items.len(),
        first_sharing(items.take(n), want) is Some,
    ensures
        first_sharing(items, want) == first_sharing(items.take(n), want),
    decreases items.len(),
{
    if n == items.len() {
        assert(items.take(n) =~= items);
    } else {
        assert(items.drop_last().take(n) =~= items.take(n));
        first_sharing_in_prefix(items.drop_last(), want, n);
    }
}

/// Whether an item is the episode with these numbers.
pub open spec fn is_episode(item: JsonView, season: i64, episode: i64) -> bool {
    json::int_field(item, "ParentIndexNumber"@) == Some(season) && json::int_field(
        item,
        "IndexNumber"@,
    ) == Some(episode)
}

/// The id of the first item that is the episode and has an id.
pub open spec fn first_episode(items: Seq<JsonView>, season: i64, episode: i64) -> Option<Seq<char>>
    decreases items.len(),
{
    if items.len() == 0 {
        None
    } else {
        match first_episode(items.drop_last(), season, episode) {
            Some(id) => Some(id),
            None => if is_episode(items.last(), season, episode) {
                json::text_field(items.last(), "Id"@)
            } else {
                None
            },
        }
    }
}

proof fn first_episode_in_prefix(items: Seq<JsonView>, season: i64, episode: i64, n: int)
    requires
        0 <= n <= items.len(),
        first_episode(items.take(n), season, episode) is Some,
    ensures
        first_episode(items, season, episode) == first_episode(items.take(n), season, episode),
    decreases items.len(),
{
    if n == items.len() {
        assert(items.take(n) =~= items);
    } else {
        assert(items.drop_last().take(n) =~= items.take(n));
        first_episode_in_prefix(items.drop_last(), season, episode, n);
    }
}

/// First episode in `items` with the given season and episode number: its id.
pub fn first_episode_match(items: &Vec<Json>, season: i64, episode: i64) -> (r: Option<String>)
    ensures
        json::opt_text(r) == first_episode(json::all_contents(items@), season, episode),
{
    let ghost all = json::all_contents(items@);
    for i in 0..items.len()
        invariant
            all == json::all_contents(items@),
            first_episode(all.take(i as int), season, episode) is None,
    {
        assert(all.take(i + 1).drop_last() =~= all.take(i as int));
        assert(all.take(i + 1).last() == json::contents(items[i as int]));
        if let Some(s) = items[i].get_int("ParentIndexNumber") {
            if let Some(e) = items[i].get_int("IndexNumber") {
                if s == season && e == episode {
                    if let Some(id) = items[i].get_text("Id") {
                        proof {
                            first_episode_in_prefix(all, season, episode, i + 1);
                        }
                        return Some(id);
                    }
                }
            }
        }
    }
    assert(all.take(items.len() as int) =~= all);
    None
}

/// The entries whose value is a string, in order.
pub open spec fn text_entries(
    entries: Seq<(Seq<char>, JsonView)>,
) -> Seq<(Seq<char>, Seq<char>)>
    decreases entries.len(),
{
    if entries.len() == 0 {
        Seq::empty()
    } else {
        let before = text_entries(entries.drop_last());
        match json::as_text(entries.last().1) {
            Some(v) => before.push((entries.last().0, v)),
            None => before,
        }
    }
}

/// The provider ids in a `ProviderIds` value: the entries of the object that
/// are strings, none for any other value.
pub open spec fn provider_ids(v: Option<JsonView>) -> Seq<(Seq<char>, Seq<char>)> {
    match v {
        Some(JsonView::Object(entries)) => text_entries(entries),
        _ => Seq::empty(),
    }
}

/// Reads the provider ids out of a `ProviderIds` value.
pub fn providers_from(p: Option<&Json>) -> (r: Vec<(String, String)>)
    ensures
        pair_texts(r@) == provider_ids(json::opt_contents(p)),
{
    let mut out: Vec<(String, String)> = Vec::new();
    match p {
        Some(Json::Object(ids)) => {
            let ghost all = json::contents(Json::Object(*ids))->Object_0;
            assert(pair_texts(out@) =~= text_entries(all.take(0)));
            for i in 0..ids.len()
                invariant
                    all == json::contents(Json::Object(*ids))->Object_0,
                    all.len() == ids.len(),
                    pair_texts(out@) == text_entries(all.take(i as int)),
            {
                let ghost before = pair_texts(out@);
                assert(all[i as int] == (ids[i as int].0@, json::contents(ids[i as int].1)));
                assert(all.take(i + 1).drop_last() =~= all.take(i as int));
                assert(all.take(i + 1).last() == all[i as int]);
                if let Json::Text(v) = &ids[i].1 {
                    out.push((ids[i].0.clone(), v.clone()));
                    assert(pair_texts(out@) =~= before.push((ids[i as int].0@, v@)));
                }
            }
            assert(all.take(ids.len() as int) =~= all);
        },
        _ => {
            assert(pair_texts(out@) =~= Seq::<(Seq<char>, Seq<char>)>::empty());
        },
    }
    out
}

/// The subset of a user's per-item state that is kept the same across
/// backends.
#[derive(Clone, Debug, Default, PartialEq)]
pub struct ItemUserData {
    pub played: bool,
    pub playback_position_ticks: i64,
    pub play_count: i64,
    pub is_favorite: bool,
    pub last_played_date: Option<String>,
}

/// The data in an [`ItemUserData`].
pub struct UserDataView {
    pub played: bool,
    pub playback_position_ticks: i64,
    pub play_count: i64,
    pub is_favorite: bool,
    pub last_played_date: Option<Seq<char>>,
}

impl View for ItemUserData {
    type V = UserDataView;

    open spec fn view(&self) -> UserDataView {
        UserDataView {
            played: self.played,
            playback_position_ticks: self.playback_position_ticks,
            play_count: self.play_count,
            is_favorite: self.is_favorite,
            last_played_date: json::opt_text(self.last_played_date),
        }
    }
}

/// The state that a `UserData` value stands for.
pub open spec fn user_data_in(ud: Option<JsonView>) -> UserDataView {
    match ud {
        Some(v) => UserDataView {
            played: or_default(json::truth_field(v, "Played"@), false),
            playback_position_ticks: or_default(json::int_field(v, "PlaybackPositionTicks"@), 0),
            play_count: or_default(json::int_field(v, "PlayCount"@), 0),
            is_favorite: or_default(json::truth_field(v, "IsFavorite"@), false),
            last_played_date: json::text_field(v, "LastPlayedDate"@),
        },
        None => UserDataView {
            played: false,
            playback_position_ticks: 0,
            play_count: 0,
            is_favorite: false,
            last_played_date: None,
        },
    }
}

/// The value, or the default.
pub open spec fn or_default<T>(v: Option<T>, default: T) -> T {
    match v {
        Some(x) => x,
        None => default,
    }
}

impl ItemUserData {
    /// Reads a Jellyfin item's `UserData` object; what is missing or of
    /// another type takes the default.
    pub fn from_value(ud: Option<&Json>) -> (r: Self)
        ensures
            r@ == user_data_in(json::opt_contents(ud)),
    {
        match ud {
            Some(u) => ItemUserData {
                played: u.get_truth("Played").unwrap_or(false),
                playback_position_ticks: u.get_int("PlaybackPositionTicks").unwrap_or(0),
                play_count: u.get_int("PlayCount").unwrap_or(0),
                is_favorite: u.get_truth("IsFavorite").unwrap_or(false),
                last_played_date: u.get_text("LastPlayedDate"),
            },
            None => ItemUserData {
                played: false,
                playback_position_ticks: 0,
                play_count: 0,
                is_favorite: false,
                last_played_date: None,
            },
        }
    }

    /// The same state once more.
    pub fn copy(&self) -> (r: Self)
        ensures
            r@ == self@,
    {
        ItemUserData {
            played: self.played,
            playback_position_ticks: self.playback_position_ticks,
            play_count: self.play_count,
            is_favorite: self.is_favorite,
            last_played_date: match &self.last_played_date {
                Some(d) => Some(d.clone()),
                None => None,
            },
        }
    }
}

/// How to find "the same title" on a peer backend. Movies and series match on
/// their identifying provider id; episodes match on their *series'* provider
/// id plus season and episode number.
#[derive(Clone, Debug, PartialEq)]
pub enum MatchKey {
    Provider(Vec<(String, String)>),
    Episode { series: Vec<(String, String)>, season: i64, episode: i64 },
}

/// The data in a [`MatchKey`].
pub enum MatchKeyView {
    Provider(Seq<(Seq<char>, Seq<char>)>),
    Episode { series: Seq<(Seq<char>, Seq<char>)>, season: i64, episode: i64 },
}

impl View for MatchKey {
    type V = MatchKeyView;

    open spec fn view(&self) -> MatchKeyView {
        match self {
            MatchKey::Provider(p) => MatchKeyView::Provider(pair_texts(p@)),
            MatchKey::Episode { series, season, episode } => MatchKeyView::Episode {
                series: pair_texts(series@),
                season: *season,
                episode: *episode,
            },
        }
    }
}

/// The provider ids that a key rests on.
pub open spec fn ids_of(key: MatchKeyView) -> Seq<(Seq<char>, Seq<char>)> {
    match key {
        MatchKeyView::Provider(p) => p,
        MatchKeyView::Episode { series, .. } => series,
    }
}

/// Whether no id of the key is identifying.
pub open spec fn unmatchable(key: MatchKeyView) -> bool {
    forall|i: int| 0 <= i < ids_of(key).len() ==> !identifying(#[trigger] ids_of(key)[i].0)
}

/// The characters of the cache key.
pub open spec fn cache_text(key: MatchKeyView) -> Seq<char> {
    match key {
        MatchKeyView::Provider(p) => provider_key(p),
        MatchKeyView::Episode { series, season, episode } => provider_key(series) + "|s"@
            + text::decimal_int(season as int) + "e"@ + text::decimal_int(episode as int),
    }
}

/// A copy of provider-id pairs.
pub fn copy_pairs(p: &Vec<(String, String)>) -> (r: Vec<(String, String)>)
    ensures
        pair_texts(r@) == pair_texts(p@),
{
    let mut out: Vec<(String, String)> = Vec::new();
    for i in 0..p.len()
        invariant
            pair_texts(out@) == pair_texts(p@).take(i as int),
    {
        let ghost before = pair_texts(out@);
        out.push((p[i].0.clone(), p[i].1.clone()));
        assert(pair_texts(out@) =~= before.push(pair_texts(p@)[i as int]));
        assert(pair_texts(out@) =~= pair_texts(p@).take(i + 1));
    }
    assert(pair_texts(p@).take(p.len() as int) =~= pair_texts(p@));
    out
}

/// One provider id as it stands in a cache key.
pub open spec fn key_part(p: (Seq<char>, Seq<char>)) -> Seq<char> {
    text::lowercased(p.0) + "."@ + p.1
}

/// The parts of a cache key in the order of the pairs.
pub open spec fn key_parts(p: Seq<(Seq<char>, Seq<char>)>) -> Seq<Seq<char>> {
    p.map_values(|x: (Seq<char>, Seq<char>)| key_part(x))
}

/// The provider ids as one string: the parts sorted, with commas between.
pub open spec fn provider_key(p: Seq<(Seq<char>, Seq<char>)>) -> Seq<char> {
    text::join(sorting::sorted_texts(key_parts(p)), ","@)
}

/// The provider ids as one string, the same for every order of the pairs.
pub fn provider_key_str(p: &Vec<(String, String)>) -> (r: String)
    ensures
        r@ == provider_key(pair_texts(p@)),
{
    let mut parts: Vec<String> = Vec::new();
    let ghost all = key_parts(pair_texts(p@));
    for i in 0..p.len()
        invariant
            all == key_parts(pair_texts(p@)),
            text::texts(parts@) == all.take(i as int),
    {
        let ghost before = text::texts(parts@);
        let part = text::to_lowercase(p[i].0.as_str()).concat(".").concat(p[i].1.as_str());
        parts.push(part);
        assert(text::texts(parts@) =~= before.push(part@));
        assert(all[i as int] == part@);
        assert(text::texts(parts@) =~= all.take(i + 1));
    }
    assert(all.take(p.len() as int) =~= all);
    text::join_strings(&sorting::sort_strings(&parts), ",")
}

impl MatchKey {
    /// A stable string key (for caching and queue dedup), the same for every
    /// order of the provider ids.
    pub fn cache_key(&self) -> (r: String)
        ensures
            r@ == cache_text(self@),
    {
        match self {
            MatchKey::Provider(p) => provider_key_str(p),
            MatchKey::Episode { series, season, episode } => provider_key_str(series).concat(
                "|s",
            ).concat(text::decimal_i64(*season).as_str()).concat("e").concat(
                text::decimal_i64(*episode).as_str(),
            ),
        }
    }

    /// No identifying ids at all: nothing can be matched across backends.
    pub fn is_empty(&self) -> (r: bool)
        ensures
            r == unmatchable(self@),
    {
        let p = match self {
            MatchKey::Provider(p) => p,
            MatchKey::Episode { series, .. } => series,
        };
        for i in 0..p.len()
            invariant
                ids_of(self@) == pair_texts(p@),
                forall|j: int| 0 <= j < i ==> !identifying(#[trigger] ids_of(self@)[j].0),
        {
            assert(ids_of(self@)[i as int].0 == p[i as int].0@);
            if is_identifying_provider_key(p[i].0.as_str()) {
                return false;
            }
        }
        true
    }

    /// The same key once more.
    pub fn copy(&self) -> (r: Self)
        ensures
            r@ == self@,
    {
        match self {
            MatchKey::Provider(p) => MatchKey::Provider(copy_pairs(p)),
            MatchKey::Episode { series, season, episode } => MatchKey::Episode {
                series: copy_pairs(series),
                season: *season,
                episode: *episode,
            },
        }
    }
}

/// The cache key of a set of provider ids does not depend on their order.
pub proof fn provider_key_ignores_order(
    a: Seq<(Seq<char>, Seq<char>)>,
    b: Seq<(Seq<char>, Seq<char>)>,
)
    requires
        a.to_multiset() == b.to_multiset(),
    ensures
        provider_key(a) == provider_key(b),
{
    key_parts_contents(a);
    key_parts_contents(b);
    assert(key_parts(a).to_multiset() =~= key_parts(b).to_multiset());
    sorting::sorted_texts_ignore_order(key_parts(a), key_parts(b));
}

/// Two keys of the same kind whose provider ids differ in order only, and
/// whose numbers agree, have the same cache key.
pub proof fn cache_key_ignores_order(a: MatchKeyView, b: MatchKeyView)
    requires
        ids_of(a).to_multiset() == ids_of(b).to_multiset(),
        a is Episode == b is Episode,
        a is Episode ==> a->season == b->season && a->episode == b->episode,
    ensures
        cache_text(a) == cache_text(b),
{
    provider_key_ignores_order(ids_of(a), ids_of(b));
}

/// Whether two lists of provider ids are the same but for the letter case of
/// their keys.
pub open spec fn same_but_for_case(
    a: Seq<(Seq<char>, Seq<char>)>,
    b: Seq<(Seq<char>, Seq<char>)>,
) -> bool {
    &&& a.len() == b.len()
    &&& forall|i: int|
        0 <= i < a.len() ==> text::lowercased(#[trigger] a[i].0) == text::lowercased(b[i].0)
            && a[i].1 == b[i].1
}

/// The letter case of provider keys does not matter to the cache key.
pub proof fn cache_key_ignores_letter_case(a: MatchKeyView, b: MatchKeyView)
    requires
        same_but_for_case(ids_of(a), ids_of(b)),
        a is Episode == b is Episode,
        a is Episode ==> a->season == b->season && a->episode == b->episode,
    ensures
        cache_text(a) == cache_text(b),
{
    assert forall|i: int| 0 <= i < ids_of(a).len() implies key_parts(ids_of(a))[i] == key_parts(
        ids_of(b),
    )[i] by {
        assert(text::lowercased(ids_of(a)[i].0) == text::lowercased(ids_of(b)[i].0));
    }
    assert(key_parts(ids_of(a)) =~= key_parts(ids_of(b)));
}

proof fn numbers_have_no_letters(n: int)
    ensures
        !text::decimal_int(n).contains('e'),
        !text::decimal_int(n).contains('s'),
{
    text::decimal_int_is_plain(n);
}

/// The season and the episode can be read off the cache key of an episode, and
/// so can the part of its series: different episodes of a series never share a
/// cache key.
pub proof fn episode_keys_name_their_numbers(
    a: Seq<(Seq<char>, Seq<char>)>,
    a_season: i64,
    a_episode: i64,
    b: Seq<(Seq<char>, Seq<char>)>,
    b_season: i64,
    b_episode: i64,
)
    requires
        cache_text(
            MatchKeyView::Episode { series: a, season: a_season, episode: a_episode },
        ) == cache_text(
            MatchKeyView::Episode { series: b, season: b_season, episode: b_episode },
        ),
    ensures
        a_season == b_season,
        a_episode == b_episode,
        provider_key(a) == provider_key(b),
{
    reveal_strlit("|s");
    reveal_strlit("e");
    let a_head = provider_key(a).push('|');
    let b_head = provider_key(b).push('|');
    let a_first = text::decimal_int(a_season as int);
    let b_first = text::decimal_int(b_season as int);
    let a_last = text::decimal_int(a_episode as int);
    let b_last = text::decimal_int(b_episode as int);
    let a_text = cache_text(
        MatchKeyView::Episode { series: a, season: a_season, episode: a_episode },
    );
    let b_text = cache_text(
        MatchKeyView::Episode { series: b, season: b_season, episode: b_episode },
    );
    assert(a_text =~= (a_head.push('s') + a_first).push('e') + a_last);
    assert(b_text =~= (b_head.push('s') + b_first).push('e') + b_last);
    numbers_have_no_letters(a_season as int);
    numbers_have_no_letters(b_season as int);
    numbers_have_no_letters(a_episode as int);
    numbers_have_no_letters(b_episode as int);
    text::last_separator_splits(
        a_head.push('s') + a_first,
        b_head.push('s') + b_first,
        'e',
        a_last,
        b_last,
    );
    text::last_separator_splits(a_head, b_head, 's', a_first, b_first);
    text::decimal_int_reads_back(a_season as int);
    text::decimal_int_reads_back(b_season as int);
    text::decimal_int_reads_back(a_episode as int);
    text::decimal_int_reads_back(b_episode as int);
    assert(a_head.drop_last() =~= provider_key(a));
    assert(b_head.drop_last() =~= provider_key(b));
}

/// A key without identifying ids asks for nothing, and so finds nothing on
/// any backend.
pub proof fn empty_key_finds_nothing(key: MatchKeyView, items: Seq<JsonView>)
    requires
        unmatchable(key),
    ensures
        identifying_pairs(ids_of(key)) =~= Seq::<(Seq<char>, Seq<char>)>::empty(),
        first_sharing(items, identifying_pairs(ids_of(key))) is None,
{
    no_identifying_pairs(ids_of(key));
    nothing_wanted_nothing_found(items, identifying_pairs(ids_of(key)));
}

/// What is found is the first listed item that has an id and shares an
/// identifying pair: nothing else is ever taken for the title.
pub proof fn found_title_shares_an_id(items: Seq<JsonView>, want: Seq<(Seq<char>, Seq<char>)>)
    ensures
        match first_sharing(items, want) {
            Some(id) => exists|i: int| #[trigger] is_first_sharing(items, want, i, id),
            None => forall|i: int|
                0 <= i < items.len() && shares_identifying_id(
                    #[trigger] items[i],
                    want,
                ) ==> json::text_field(items[i], "Id"@) is None,
        },
    decreases items.len(),
{
    if items.len() > 0 {
        let head = items.drop_last();
        found_title_shares_an_id(head, want);
        match first_sharing(head, want) {
            Some(id) => {
                let i = choose|i: int| #[trigger] is_first_sharing(head, want, i, id);
                assert forall|j: int| 0 <= j < i && shares_identifying_id(
                    #[trigger] items[j],
                    want,
                ) implies json::text_field(items[j], "Id"@) is None by {
                    assert(items[j] == head[j]);
                }
                assert(is_first_sharing(items, want, i, id));
            },
            None => {
                assert forall|j: int| 0 <= j < head.len() && shares_identifying_id(
                    #[trigger] items[j],
                    want,
                ) implies json::text_field(items[j], "Id"@) is None by {
                    assert(items[j] == head[j]);
                }
                if let Some(id) = first_sharing(items, want) {
                    assert(is_first_sharing(items, want, items.len() - 1, id));
                }
            },
        }
    }
}

/// Whether the item at `i` is the first that shares an identifying pair and
/// has an id.
pub open spec fn is_first_sharing(
    items: Seq<JsonView>,
    want: Seq<(Seq<char>, Seq<char>)>,
    i: int,
    id: Seq<char>,
) -> bool {
    &&& 0 <= i < items.len()
    &&& shares_identifying_id(items[i], want)
    &&& json::text_field(items[i], "Id"@) == Some(id)
    &&& forall|j: int|
        0 <= j < i && shares_identifying_id(#[trigger] items[j], want) ==> json::text_field(
            items[j],
            "Id"@,
        ) is None
}

/// Whether an item has an id, and a provider id under a key without the word
/// "collection" in it, whose pair, the key in lower case, is in the list.
pub open spec fn carries_pair(
    item: JsonView,
    ids: Seq<(Seq<char>, JsonView)>,
    k: int,
    pair: (Seq<char>, Seq<char>),
) -> bool {
    &&& json::field(item, "ProviderIds"@) == Some(JsonView::Object(ids))
    &&& 0 <= k < ids.len()
    &&& !text::contains_text(text::lowercased(ids[k].0), "collection"@)
    &&& pair.0 == text::lowercased(ids[k].0)
    &&& ids[k].1 == JsonView::Text(pair.1)
}

/// Nothing that matches is passed over: where a listed item has an id and
/// carries any one of the wanted pairs under a key that names no collection, a
/// title is found, and it is that item or one before it.
pub proof fn carriers_of_a_wanted_pair_are_found(
    items: Seq<JsonView>,
    want: Seq<(Seq<char>, Seq<char>)>,
    i: int,
    ids: Seq<(Seq<char>, JsonView)>,
    k: int,
    pair: (Seq<char>, Seq<char>),
)
    requires
        0 <= i < items.len(),
        json::field(items[i], "Id"@) matches Some(id) && id is Text,
        carries_pair(items[i], ids, k, pair),
        want.contains(pair),
    ensures
        first_sharing(items, want) is Some,
        first_sharing(items.take(i + 1), want) == first_sharing(items, want),
{
    assert(wanted(ids[k], want));
    assert(shares_identifying_id(items[i], want));
    let upto = items.take(i + 1);
    found_title_shares_an_id(upto, want);
    assert(upto[i] == items[i]);
    first_sharing_in_prefix(items, want, i + 1);
}

/// What is found carries a wanted pair under a key that names no collection,
/// and is the id of the listed item that does; no item before it that has an
/// id does.
pub proof fn found_titles_carry_a_wanted_pair(
    items: Seq<JsonView>,
    want: Seq<(Seq<char>, Seq<char>)>,
)
    ensures
        first_sharing(items, want) matches Some(id) ==> exists|
            i: int,
            ids: Seq<(Seq<char>, JsonView)>,
            k: int,
            pair: (Seq<char>, Seq<char>),
        |
            0 <= i < items.len() && #[trigger] carries_pair(items[i], ids, k, pair)
                && want.contains(pair) && json::field(items[i], "Id"@) == Some(
                JsonView::Text(id),
            ) && first_sharing(items.take(i), want) is None,
{
    found_title_shares_an_id(items, want);
    if let Some(id) = first_sharing(items, want) {
        let i = choose|i: int| #[trigger] is_first_sharing(items, want, i, id);
        let ids = json::field(items[i], "ProviderIds"@)->0->Object_0;
        let k = choose|k: int| 0 <= k < ids.len() && wanted(#[trigger] ids[k], want);
        let pair = (text::lowercased(ids[k].0), ids[k].1->Text_0);
        assert(carries_pair(items[i], ids, k, pair));
        found_title_shares_an_id(items.take(i), want);
        if let Some(other) = first_sharing(items.take(i), want) {
            let j = choose|j: int| #[trigger] is_first_sharing(items.take(i), want, j, other);
            assert(items.take(i)[j] == items[j]);
            assert(shares_identifying_id(items[j], want));
        }
    }
}

/// Whether the pair is the one at `i`, its key in lower case, and that key does
/// not have the word "collection" in it.
pub open spec fn is_lowered_pair(
    p: Seq<(Seq<char>, Seq<char>)>,
    i: int,
    pair: (Seq<char>, Seq<char>),
) -> bool {
    &&& 0 <= i < p.len()
    &&& !text::contains_text(text::lowercased(p[i].0), "collection"@)
    &&& pair == (text::lowercased(p[i].0), p[i].1)
}

/// Whether the pair is one of these, its key in lower case, and that key does
/// not have the word "collection" in it.
pub open spec fn stems_from(
    p: Seq<(Seq<char>, Seq<char>)>,
    pair: (Seq<char>, Seq<char>),
) -> bool {
    exists|i: int| #[trigger] is_lowered_pair(p, i, pair)
}

/// The pairs to look for are those whose key does not have the word
/// "collection" in it, with the key in lower case and the value as it was: each
/// of them is there, nothing else is, and there are as many as there are such
/// pairs.
pub proof fn every_identifying_pair_is_wanted(p: Seq<(Seq<char>, Seq<char>)>)
    ensures
        forall|i: int|
            0 <= i < p.len() && !text::contains_text(
                text::lowercased(#[trigger] p[i].0),
                "collection"@,
            ) ==> identifying_pairs(p).contains((text::lowercased(p[i].0), p[i].1)),
        forall|k: int|
            0 <= k < identifying_pairs(p).len() ==> stems_from(p, #[trigger] identifying_pairs(p)[k]),
        identifying_pairs(p).len() == p.filter(
            |x: (Seq<char>, Seq<char>)|
                !text::contains_text(text::lowercased(x.0), "collection"@),
        ).len(),
    decreases p.len(),
{
    reveal(Seq::filter);
    if p.len() > 0 {
        let head = p.drop_last();
        let before = identifying_pairs(head);
        let after = identifying_pairs(p);
        every_identifying_pair_is_wanted(head);
        assert forall|i: int|
            0 <= i < p.len() && !text::contains_text(
                text::lowercased(#[trigger] p[i].0),
                "collection"@,
            ) implies after.contains((text::lowercased(p[i].0), p[i].1)) by {
            if i < head.len() {
                assert(head[i] == p[i]);
                assert(before.contains((text::lowercased(head[i].0), head[i].1)));
                let k = choose|k: int|
                    0 <= k < before.len() && before[k] == (text::lowercased(p[i].0), p[i].1);
                assert(after[k] == before[k]);
            } else {
                assert(after[before.len() as int] == (text::lowercased(p[i].0), p[i].1));
            }
        }
        assert forall|k: int| 0 <= k < after.len() implies stems_from(p, #[trigger] after[k]) by {
            if k < before.len() {
                assert(after[k] == before[k]);
                assert(stems_from(head, before[k]));
                let i = choose|i: int| #[trigger] is_lowered_pair(head, i, before[k]);
                assert(is_lowered_pair(p, i, after[k]));
            } else {
                assert(is_lowered_pair(p, p.len() - 1, after[k]));
            }
        }
    }
}

/// An item that has an id and carries any one of the source's identifying
/// pairs, the letter case of its key aside, is found.
pub proof fn same_titles_are_found(
    p: Seq<(Seq<char>, Seq<char>)>,
    m: int,
    items: Seq<JsonView>,
    i: int,
    ids: Seq<(Seq<char>, JsonView)>,
    k: int,
)
    requires
        0 <= m < p.len(),
        0 <= i < items.len(),
        json::field(items[i], "Id"@) matches Some(id) && id is Text,
        json::field(items[i], "ProviderIds"@) == Some(JsonView::Object(ids)),
        0 <= k < ids.len(),
        !text::contains_text(text::lowercased(p[m].0), "collection"@),
        text::lowercased(ids[k].0) == text::lowercased(p[m].0),
        ids[k].1 == JsonView::Text(p[m].1),
    ensures
        first_sharing(items, identifying_pairs(p)) is Some,
{
    every_identifying_pair_is_wanted(p);
    assert(p[m].0 == p[m].0);
    let pair = (text::lowercased(p[m].0), p[m].1);
    carriers_of_a_wanted_pair_are_found(items, identifying_pairs(p), i, ids, k, pair);
}

/// Whether the item at `i` is the first listed that has an id and whose season
/// and episode numbers are the given ones.
pub open spec fn is_first_numbered(
    items: Seq<JsonView>,
    season: i64,
    episode: i64,
    i: int,
) -> bool {
    &&& 0 <= i < items.len()
    &&& json::field(items[i], "ParentIndexNumber"@) == Some(JsonView::Number(Some(season)))
    &&& json::field(items[i], "IndexNumber"@) == Some(JsonView::Number(Some(episode)))
    &&& json::field(items[i], "Id"@) matches Some(id) && id is Text
    &&& forall|j: int|
        0 <= j < i && json::field(#[trigger] items[j], "ParentIndexNumber"@) == Some(
            JsonView::Number(Some(season)),
        ) && json::field(items[j], "IndexNumber"@) == Some(JsonView::Number(Some(episode)))
            ==> !(json::field(items[j], "Id"@) matches Some(id) && id is Text)
}

/// An episode is found by both its numbers: what is found is the id of the
/// first listed item that has both and an id, and where nothing is found no
/// listed item has them and an id.
pub proof fn episodes_are_found_by_both_numbers(
    items: Seq<JsonView>,
    season: i64,
    episode: i64,
)
    ensures
        match first_episode(items, season, episode) {
            Some(id) => exists|i: int| #[trigger]
                is_first_numbered(items, season, episode, i) && json::field(items[i], "Id"@)
                    == Some(JsonView::Text(id)),
            None => forall|i: int|
                0 <= i < items.len() && json::field(#[trigger] items[i], "ParentIndexNumber"@)
                    == Some(JsonView::Number(Some(season))) && json::field(
                    items[i],
                    "IndexNumber"@,
                ) == Some(JsonView::Number(Some(episode))) ==> !(json::field(items[i], "Id"@)
                    matches Some(id) && id is Text),
        },
    decreases items.len(),
{
    if items.len() > 0 {
        let head = items.drop_last();
        episodes_are_found_by_both_numbers(head, season, episode);
        assert forall|j: int| 0 <= j < head.len() implies #[trigger] items[j] == head[j] by {}
        match first_episode(head, season, episode) {
            Some(id) => {
                let i = choose|i: int| #[trigger]
                    is_first_numbered(head, season, episode, i) && json::field(head[i], "Id"@)
                        == Some(JsonView::Text(id));
                assert(is_first_numbered(items, season, episode, i));
            },
            None => {
                if first_episode(items, season, episode) is Some {
                    assert(is_first_numbered(items, season, episode, items.len() - 1));
                }
            },
        }
    }
}

/// The provider ids that are read are the entries of the object that are
/// strings: each is there with its key as it stands, and nothing else is.
pub proof fn every_provider_id_is_read(v: JsonView)
    ensures
        v is Object ==> {
            let all = v->Object_0;
            &&& forall|i: int|
                0 <= i < all.len() && (#[trigger] all[i]).1 is Text ==> provider_ids(
                    Some(v),
                ).contains((all[i].0, all[i].1->Text_0))
            &&& forall|k: int|
                0 <= k < provider_ids(Some(v)).len() ==> all.contains(
                    (
                        (#[trigger] provider_ids(Some(v))[k]).0,
                        JsonView::Text(provider_ids(Some(v))[k].1),
                    ),
                )
        },
        !(v is Object) ==> provider_ids(Some(v)).len() == 0,
        provider_ids(None).len() == 0,
{
    if v is Object {
        text_entries_are_the_strings(v->Object_0);
    }
}

proof fn text_entries_are_the_strings(all: Seq<(Seq<char>, JsonView)>)
    ensures
        forall|i: int|
            0 <= i < all.len() && (#[trigger] all[i]).1 is Text ==> text_entries(all).contains(
                (all[i].0, all[i].1->Text_0),
            ),
        forall|k: int|
            0 <= k < text_entries(all).len() ==> all.contains(
                ((#[trigger] text_entries(all)[k]).0, JsonView::Text(text_entries(all)[k].1)),
            ),
    decreases all.len(),
{
    if all.len() > 0 {
        let head = all.drop_last();
        let before = text_entries(head);
        let after = text_entries(all);
        text_entries_are_the_strings(head);
        assert forall|i: int| 0 <= i < all.len() && (#[trigger] all[i]).1 is Text implies after
            .contains((all[i].0, all[i].1->Text_0)) by {
            if i < head.len() {
                assert(head[i] == all[i]);
                let k = choose|k: int|
                    0 <= k < before.len() && before[k] == (all[i].0, all[i].1->Text_0);
                assert(after[k] == before[k]);
            } else {
                assert(after[before.len() as int] == (all[i].0, all[i].1->Text_0));
            }
        }
        assert forall|k: int| 0 <= k < after.len() implies all.contains(
            ((#[trigger] after[k]).0, JsonView::Text(after[k].1)),
        ) by {
            if k < before.len() {
                assert(after[k] == before[k]);
                let e = (before[k].0, JsonView::Text(before[k].1));
                let i = choose|i: int| 0 <= i < head.len() && head[i] == e;
                assert(all[i] == e);
            } else {
                assert(all[all.len() - 1] == (after[k].0, JsonView::Text(after[k].1)));
            }
        }
    }
}

/// A key can be matched exactly where the title, or of an episode its series,
/// has some provider id whose key does not have the word "collection" in it.
pub proof fn keys_match_by_some_identifying_id(
    p: Seq<(Seq<char>, Seq<char>)>,
    season: i64,
    episode: i64,
)
    ensures
        unmatchable(MatchKeyView::Provider(p)) == unmatchable(
            MatchKeyView::Episode { series: p, season, episode },
        ),
        !unmatchable(MatchKeyView::Provider(p)) <==> exists|i: int|
            0 <= i < p.len() && !text::contains_text(
                text::lowercased(#[trigger] p[i].0),
                "collection"@,
            ),
{
    let key = MatchKeyView::Provider(p);
    if !unmatchable(key) {
        let i = choose|i: int|
            0 <= i < ids_of(key).len() && identifying(#[trigger] ids_of(key)[i].0);
        assert(!text::contains_text(text::lowercased(p[i].0), "collection"@));
    }
    if exists|i: int|
        0 <= i < p.len() && !text::contains_text(
            text::lowercased(#[trigger] p[i].0),
            "collection"@,
        ) {
        let i = choose|i: int|
            0 <= i < p.len() && !text::contains_text(
                text::lowercased(#[trigger] p[i].0),
                "collection"@,
            );
        assert(identifying(ids_of(key)[i].0));
    }
    let other = MatchKeyView::Episode { series: p, season, episode };
    assert(ids_of(key) == ids_of(other));
}

/// The provider ids can be read off the cache key of a title, commas aside: cut
/// at the commas it gives, in alphabetical order, for every id its key in lower
/// case, a full stop and its value, and nothing else.
pub proof fn cache_keys_list_every_id(p: Seq<(Seq<char>, Seq<char>)>)
    requires
        p.len() > 0,
        forall|i: int|
            0 <= i < p.len() ==> !text::lowercased((#[trigger] p[i]).0).contains(',')
                && !p[i].1.contains(','),
    ensures
        ({
            let parts = text::split_on(cache_text(MatchKeyView::Provider(p)), ',');
            &&& parts.to_multiset() == p.map_values(
                |x: (Seq<char>, Seq<char>)| text::lowercased(x.0).push('.') + x.1,
            ).to_multiset()
            &&& forall|i: int, j: int|
                0 <= i < j < parts.len() ==> text::lex_le(#[trigger] parts[i], #[trigger] parts[j])
        }),
{
    broadcast use group_to_multiset_ensures;

    reveal_strlit(".");
    reveal_strlit(",");
    let parts = key_parts(p);
    let spelled = p.map_values(
        |x: (Seq<char>, Seq<char>)| text::lowercased(x.0).push('.') + x.1,
    );
    assert forall|i: int| 0 <= i < parts.len() implies #[trigger] parts[i] == spelled[i] by {
        assert(parts[i] =~= spelled[i]);
    }
    assert(parts =~= spelled);
    let sorted = sorting::sorted_texts(parts);
    text::lex_le_is_total_ordering();
    sorting::in_order_sorted(parts, sorting::text_order());
    assert(sorted.to_multiset().len() == parts.to_multiset().len());
    assert forall|i: int| 0 <= i < sorted.len() implies !(#[trigger] sorted[i]).contains(',') by {
        assert(sorted.to_multiset().count(sorted[i]) > 0);
        assert(parts.contains(sorted[i]));
        let k = choose|k: int| 0 <= k < parts.len() && parts[k] == sorted[i];
        assert(!text::lowercased(p[k].0).contains(',') && !p[k].1.contains(','));
        assert(spelled[k] == text::lowercased(p[k].0).push('.') + p[k].1);
        if sorted[i].contains(',') {
            let c = choose|c: int| 0 <= c < sorted[i].len() && sorted[i][c] == ',';
            let n = text::lowercased(p[k].0).len();
            if c < n {
                assert(text::lowercased(p[k].0)[c] == ',');
            } else if c > n {
                assert(p[k].1[c - n - 1] == ',');
            }
        }
    }
    assert(","@ =~= seq![',']);
    text::split_of_join(sorted, ',');
    let leq = sorting::text_order();
    assert forall|i: int, j: int| 0 <= i < j < sorted.len() implies text::lex_le(
        #[trigger] sorted[i],
        #[trigger] sorted[j],
    ) by {
        assert(leq(sorted[i], sorted[j]));
    }
}

/// The cache key of an episode is that of its series, a bar, an s, the season,
/// an e and the episode.
pub proof fn episode_keys_extend_the_series_key(
    series: Seq<(Seq<char>, Seq<char>)>,
    season: i64,
    episode: i64,
)
    ensures
        cache_text(MatchKeyView::Episode { series, season, episode }) == cache_text(
            MatchKeyView::Provider(series),
        ).push('|').push('s') + text::decimal_int(season as int).push('e') + text::decimal_int(
            episode as int,
        ),
{
    reveal_strlit("|s");
    reveal_strlit("e");
    assert(cache_text(MatchKeyView::Episode { series, season, episode }) =~= cache_text(
        MatchKeyView::Provider(series),
    ).push('|').push('s') + text::decimal_int(season as int).push('e') + text::decimal_int(
        episode as int,
    ));
}

/// The state of an item is read field by field, and what is missing or of
/// another type counts as not played, not started, never played, no favourite
/// and without a date.
pub proof fn user_data_is_read_field_by_field(v: JsonView)
    ensures
        ({
            let d = user_data_in(Some(v));
            &&& d.played <==> json::field(v, "Played"@) == Some(JsonView::Bool(true))
            &&& d.is_favorite <==> json::field(v, "IsFavorite"@) == Some(JsonView::Bool(true))
            &&& if json::int_field(v, "PlaybackPositionTicks"@) is Some {
                json::field(v, "PlaybackPositionTicks"@) == Some(
                    JsonView::Number(Some(d.playback_position_ticks)),
                )
            } else {
                d.playback_position_ticks == 0
            }
            &&& if json::int_field(v, "PlayCount"@) is Some {
                json::field(v, "PlayCount"@) == Some(JsonView::Number(Some(d.play_count)))
            } else {
                d.play_count == 0
            }
            &&& d.last_played_date == json::text_field(v, "LastPlayedDate"@)
        }),
        ({
            let d = user_data_in(None);
            !d.played && !d.is_favorite && d.playback_position_ticks == 0 && d.play_count == 0
                && d.last_played_date is None
        }),
{
}

/// Collection ids never make a match: where the only pairs that an item and
/// the source have in common are collection ids, the item is passed over.
pub proof fn collection_ids_never_match(
    item: JsonView,
    entries: Seq<(Seq<char>, JsonView)>,
    want: Seq<(Seq<char>, Seq<char>)>,
)
    requires
        json::field(item, "ProviderIds"@) == Some(JsonView::Object(entries)),
        forall|i: int|
            0 <= i < entries.len() && json::as_text((#[trigger] entries[i]).1) is Some
                && want.contains(
                (text::lowercased(entries[i].0), json::as_text(entries[i].1)->0),
            ) ==> !identifying(entries[i].0),
    ensures
        !shares_identifying_id(item, want),
{
}

proof fn no_identifying_pairs(p: Seq<(Seq<char>, Seq<char>)>)
    requires
        forall|i: int| 0 <= i < p.len() ==> !identifying(#[trigger] p[i].0),
    ensures
        identifying_pairs(p).len() == 0,
    decreases p.len(),
{
    if p.len() > 0 {
        assert forall|i: int| 0 <= i < p.len() - 1 implies !identifying(
            #[trigger] p.drop_last()[i].0,
        ) by {
            assert(p.drop_last()[i] == p[i]);
        }
        no_identifying_pairs(p.drop_last());
        assert(!identifying(p[p.len() - 1].0));
    }
}

proof fn nothing_wanted_nothing_found(items: Seq<JsonView>, want: Seq<(Seq<char>, Seq<char>)>)
    requires
        want.len() == 0,
    ensures
        first_sharing(items, want) is None,
    decreases items.len(),
{
    if items.len() > 0 {
        nothing_wanted_nothing_found(items.drop_last(), want);
        assert(!shares_identifying_id(items.last(), want));
    }
}

/// The multiset of the parts of a key is the image of the multiset of pairs.
proof fn key_parts_contents(p: Seq<(Seq<char>, Seq<char>)>)
    ensures
        forall|part: Seq<char>|
            #[trigger] key_parts(p).to_multiset().count(part) == p.to_multiset().filter(
                |x: (Seq<char>, Seq<char>)| key_part(x) == part,
            ).len(),
    decreases p.len(),
{
    broadcast use group_to_multiset_ensures;
    broadcast use group_multiset_axioms;

    if p.len() == 0 {
        assert(key_parts(p) =~= Seq::<Seq<char>>::empty());
        assert forall|part: Seq<char>| #[trigger]
            key_parts(p).to_multiset().count(part) == p.to_multiset().filter(
            |x: (Seq<char>, Seq<char>)| key_part(x) == part,
        ).len() by {
            let f = |x: (Seq<char>, Seq<char>)| key_part(x) == part;
            assert(p.to_multiset().filter(f) =~= Multiset::empty());
        }
    } else {
        let q = p.drop_last();
        key_parts_contents(q);
        assert(p =~= q.push(p.last()));
        assert(key_parts(p) =~= key_parts(q).push(key_part(p.last())));
        assert forall|part: Seq<char>| #[trigger]
            key_parts(p).to_multiset().count(part) == p.to_multiset().filter(
            |x: (Seq<char>, Seq<char>)| key_part(x) == part,
        ).len() by {
            let f = |x: (Seq<char>, Seq<char>)| key_part(x) == part;
            assert(key_parts(q).to_multiset().count(part) == q.to_multiset().filter(f).len());
            if key_part(p.last()) == part {
                assert(p.to_multiset().filter(f) =~= q.to_multiset().filter(f).insert(p.last()));
            } else {
                assert(p.to_multiset().filter(f) =~= q.to_multiset().filter(f));
            }
        }
    }
}

}
