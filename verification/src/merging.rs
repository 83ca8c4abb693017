//! Making one listing out of the answers of every backend: the items are taken
//! in turns, libraries that are the same are merged, and copies of one movie
//! are collapsed.
use vstd::prelude::*;
use vstd::relations::*;
use vstd::seq_lib::*;
use vstd::string::*;

use crate::items::ItemKind;
use crate::json;
use crate::json::{Json, JsonView};
use crate::sorting;
use crate::text;
use crate::view_merge;
use crate::view_merge::ViewMergeRegistry;

verus! {

/// What merging reads of an item. The type of a library is given by name;
/// `source` tells where the caller keeps the whole item.
#[derive(Debug)]
pub struct MediaItem {
    pub source: usize,
    pub id: String,
    pub name: Option<String>,
    pub item_type: ItemKind,
    pub collection_type: Option<String>,
    pub provider_ids: Option<Json>,
}

/// The data in a [`MediaItem`].
pub struct ItemView {
    pub source: usize,
    pub id: Seq<char>,
    pub name: Option<Seq<char>>,
    pub item_type: ItemKind,
    pub collection_type: Option<Seq<char>>,
    pub provider_ids: Option<JsonView>,
}

impl View for MediaItem {
    type V = ItemView;

    open spec fn view(&self) -> ItemView {
        ItemView {
            source: self.source,
            id: self.id@,
            name: json::opt_text(self.name),
            item_type: self.item_type,
            collection_type: json::opt_text(self.collection_type),
            provider_ids: match self.provider_ids {
                Some(p) => Some(json::contents(p)),
                None => None,
            },
        }
    }
}

fn copy_text(s: &Option<String>) -> (r: Option<String>)
    ensures
        json::opt_text(r) == json::opt_text(*s),
{
    match s {
        Some(t) => Some(t.clone()),
        None => None,
    }
}

impl MediaItem {
    /// The same item once more.
    pub fn copy(&self) -> (r: Self)
        ensures
            r@ == self@,
    {
        MediaItem {
            source: self.source,
            id: self.id.clone(),
            name: copy_text(&self.name),
            item_type: self.item_type,
            collection_type: copy_text(&self.collection_type),
            provider_ids: match &self.provider_ids {
                Some(p) => Some(p.copy()),
                None => None,
            },
        }
    }
}

/// The items and priorities of a list.
pub open spec fn entries(v: Seq<(MediaItem, i32)>) -> Seq<(ItemView, i32)> {
    v.map_values(|e: (MediaItem, i32)| (e.0@, e.1))
}

/// The items of a list.
pub open spec fn item_views(v: Seq<MediaItem>) -> Seq<ItemView> {
    v.map_values(|i: MediaItem| i@)
}

/// The priority and the items of each backend.
pub open spec fn answer_views(v: Seq<(i32, Vec<MediaItem>)>) -> Seq<(i32, Seq<ItemView>)> {
    v.map_values(|a: (i32, Vec<MediaItem>)| (a.0, item_views(a.1@)))
}

/// Whether an item is the Live TV library.
pub open spec fn is_live_tv(item: ItemView) -> bool {
    item.collection_type == Some("LiveTv"@) && item.item_type == ItemKind::UserView
}

fn live_tv(item: &MediaItem) -> (r: bool)
    ensures
        r == is_live_tv(item@),
{
    match &item.collection_type {
        Some(t) => text::str_eq(t.as_str(), "LiveTv") && item.item_type == ItemKind::UserView,
        None => false,
    }
}

/// The list with one more item, unless that is a further Live TV library.
pub open spec fn taken(
    out: Seq<(ItemView, i32)>,
    item: ItemView,
    priority: i32,
) -> Seq<(ItemView, i32)> {
    if is_live_tv(item) && exists|k: int| 0 <= k < out.len() && is_live_tv((#[trigger] out[k]).0) {
        out
    } else {
        out.push((item, priority))
    }
}

/// The list after the first `n` backends gave their items at place `i`.
pub open spec fn round(
    out: Seq<(ItemView, i32)>,
    answers: Seq<(i32, Seq<ItemView>)>,
    i: int,
    n: nat,
) -> Seq<(ItemView, i32)>
    decreases n,
{
    if n == 0 {
        out
    } else {
        let before = round(out, answers, i, (n - 1) as nat);
        let (priority, list) = answers[n - 1];
        if i < list.len() {
            taken(before, list[i], priority)
        } else {
            before
        }
    }
}

/// The list after `n` rounds.
pub open spec fn rounds(answers: Seq<(i32, Seq<ItemView>)>, n: nat) -> Seq<(ItemView, i32)>
    decreases n,
{
    if n == 0 {
        Seq::empty()
    } else {
        round(rounds(answers, (n - 1) as nat), answers, n - 1, answers.len())
    }
}

/// The length of the longest answer among the first `n`.
pub open spec fn longest(answers: Seq<(i32, Seq<ItemView>)>, n: nat) -> nat
    decreases n,
{
    if n == 0 {
        0
    } else {
        let before = longest(answers, (n - 1) as nat);
        if answers[n - 1].1.len() > before {
            answers[n - 1].1.len()
        } else {
            before
        }
    }
}

/// The items of all backends, taken in turns.
pub open spec fn interleaved(answers: Seq<(i32, Seq<ItemView>)>) -> Seq<(ItemView, i32)> {
    rounds(answers, longest(answers, answers.len()))
}

/// Takes the items of all backends in turns, with the priority of their
/// backend, and only the first of the Live TV libraries.
pub fn interleave(answers: &Vec<(i32, Vec<MediaItem>)>) -> (r: Vec<(MediaItem, i32)>)
    ensures
        entries(r@) == interleaved(answer_views(answers@)),
{
    let ghost all = answer_views(answers@);
    let mut most: usize = 0;
    for s in 0..answers.len()
        invariant
            all == answer_views(answers@),
            most == longest(all, s as nat),
    {
        assert(all[s as int].1.len() == answers[s as int].1.len());
        if answers[s].1.len() > most {
            most = answers[s].1.len();
        }
    }
    let mut out: Vec<(MediaItem, i32)> = Vec::new();
    let mut had_live_tv = false;
    assert(entries(out@) =~= rounds(all, 0));
    for i in 0..most
        invariant
            all == answer_views(answers@),
            entries(out@) == rounds(all, i as nat),
            had_live_tv == exists|k: int|
                0 <= k < out.len() && is_live_tv((#[trigger] entries(out@)[k]).0),
    {
        let ghost before = entries(out@);
        for s in 0..answers.len()
            invariant
                all == answer_views(answers@),
                entries(out@) == round(before, all, i as int, s as nat),
                had_live_tv == exists|k: int|
                    0 <= k < out.len() && is_live_tv((#[trigger] entries(out@)[k]).0),
        {
            let ghost so_far = entries(out@);
            assert(all[s as int] == (answers[s as int].0, item_views(answers[s as int].1@)));
            if i < answers[s].1.len() {
                let item = &answers[s].1[i];
                assert(item@ == all[s as int].1[i as int]);
                let live = live_tv(item);
                if !(live && had_live_tv) {
                    out.push((item.copy(), answers[s].0));
                    assert(entries(out@) =~= so_far.push((item@, answers[s as int].0)));
                    assert(entries(out@)[so_far.len() as int].0 == item@);
                    if live {
                        had_live_tv = true;
                    }
                    assert forall|k: int| 0 <= k < so_far.len() implies entries(out@)[k]
                        == #[trigger] so_far[k] by {}
                }
            }
        }
    }
    out
}

/// At most one Live TV library is listed, however many backends offer one.
pub proof fn one_live_tv_library(answers: Seq<(i32, Seq<ItemView>)>, n: nat)
    ensures
        forall|j: int, k: int|
            0 <= j < k < rounds(answers, n).len() ==> !(is_live_tv(
                (#[trigger] rounds(answers, n)[j]).0,
            ) && is_live_tv((#[trigger] rounds(answers, n)[k]).0)),
    decreases n,
{
    if n > 0 {
        one_live_tv_library(answers, (n - 1) as nat);
        round_keeps_one_live_tv(rounds(answers, (n - 1) as nat), answers, n - 1, answers.len());
    }
}

proof fn round_keeps_one_live_tv(
    out: Seq<(ItemView, i32)>,
    answers: Seq<(i32, Seq<ItemView>)>,
    i: int,
    n: nat,
)
    requires
        forall|j: int, k: int|
            0 <= j < k < out.len() ==> !(is_live_tv((#[trigger] out[j]).0) && is_live_tv(
                (#[trigger] out[k]).0,
            )),
    ensures
        ({
            let after = round(out, answers, i, n);
            forall|j: int, k: int|
                0 <= j < k < after.len() ==> !(is_live_tv((#[trigger] after[j]).0) && is_live_tv(
                    (#[trigger] after[k]).0,
                ))
        }),
    decreases n,
{
    if n > 0 {
        round_keeps_one_live_tv(out, answers, i, (n - 1) as nat);
        let before = round(out, answers, i, (n - 1) as nat);
        let after = round(out, answers, i, n);
        assert forall|j: int, k: int| 0 <= j < k < after.len() implies !(is_live_tv(
            (#[trigger] after[j]).0,
        ) && is_live_tv((#[trigger] after[k]).0)) by {
            assert(after[j] == before[j]);
            if k < before.len() {
                assert(after[k] == before[k]);
            }
        }
    }
}

/// A round goes on with the list as it is.
proof fn round_extends(
    out: Seq<(ItemView, i32)>,
    answers: Seq<(i32, Seq<ItemView>)>,
    i: int,
    n: nat,
)
    ensures
        out.len() <= round(out, answers, i, n).len(),
        round(out, answers, i, n).take(out.len() as int) == out,
    decreases n,
{
    if n > 0 {
        round_extends(out, answers, i, (n - 1) as nat);
        let before = round(out, answers, i, (n - 1) as nat);
        assert(round(out, answers, i, n).take(out.len() as int) =~= before.take(out.len() as int));
    } else {
        assert(out.take(out.len() as int) =~= out);
    }
}

proof fn round_takes(
    out: Seq<(ItemView, i32)>,
    answers: Seq<(i32, Seq<ItemView>)>,
    i: int,
    n: nat,
    b: int,
)
    requires
        0 <= b < n,
        0 <= i < answers[b].1.len(),
        !is_live_tv(answers[b].1[i]),
    ensures
        round(out, answers, i, n).contains((answers[b].1[i], answers[b].0)),
    decreases n,
{
    let before = round(out, answers, i, (n - 1) as nat);
    let after = round(out, answers, i, n);
    let entry = (answers[b].1[i], answers[b].0);
    if b == n - 1 {
        assert(after[before.len() as int] == entry);
    } else {
        round_takes(out, answers, i, (n - 1) as nat, b);
        let k = choose|k: int| 0 <= k < before.len() && before[k] == entry;
        assert(after[k] == entry);
    }
}

proof fn rounds_extend(answers: Seq<(i32, Seq<ItemView>)>, n: nat, m: nat)
    requires
        n <= m,
    ensures
        rounds(answers, n).len() <= rounds(answers, m).len(),
        rounds(answers, m).take(rounds(answers, n).len() as int) == rounds(answers, n),
    decreases m,
{
    let first = rounds(answers, n);
    if n < m {
        rounds_extend(answers, n, (m - 1) as nat);
        let before = rounds(answers, (m - 1) as nat);
        round_extends(before, answers, m - 1, answers.len());
        let after = rounds(answers, m);
        assert(after.take(first.len() as int) =~= after.take(before.len() as int).take(
            first.len() as int,
        ));
    } else {
        assert(first.take(first.len() as int) =~= first);
    }
}

proof fn no_answer_is_longer(answers: Seq<(i32, Seq<ItemView>)>, n: nat, b: int)
    requires
        0 <= b < n,
    ensures
        answers[b].1.len() <= longest(answers, n),
    decreases n,
{
    if b < n - 1 {
        no_answer_is_longer(answers, (n - 1) as nat, b);
    }
}

/// Taking turns loses nothing: every item that a backend offers is listed with
/// that backend's priority, further Live TV libraries aside.
pub proof fn every_item_is_listed(answers: Seq<(i32, Seq<ItemView>)>, b: int, i: int)
    requires
        0 <= b < answers.len(),
        0 <= i < answers[b].1.len(),
        !is_live_tv(answers[b].1[i]),
    ensures
        interleaved(answers).contains((answers[b].1[i], answers[b].0)),
{
    let all = longest(answers, answers.len());
    let n = (i + 1) as nat;
    no_answer_is_longer(answers, answers.len(), b);
    rounds_extend(answers, n, all);
    round_takes(rounds(answers, i as nat), answers, i, answers.len(), b);
    let entry = (answers[b].1[i], answers[b].0);
    let part = rounds(answers, n);
    let k = choose|k: int| 0 <= k < part.len() && part[k] == entry;
    assert(rounds(answers, all).take(part.len() as int)[k] == entry);
    assert(interleaved(answers)[k] == entry);
}

/// Whether an entry is an item of some backend with that backend's priority.
pub open spec fn is_offered(answers: Seq<(i32, Seq<ItemView>)>, entry: (ItemView, i32)) -> bool {
    exists|b: int|
        0 <= b < answers.len() && (#[trigger] answers[b]).0 == entry.1 && answers[b].1.contains(
            entry.0,
        )
}

proof fn round_adds_what_is_offered(
    out: Seq<(ItemView, i32)>,
    answers: Seq<(i32, Seq<ItemView>)>,
    i: int,
    n: nat,
)
    requires
        0 <= i,
        n <= answers.len(),
        forall|k: int| 0 <= k < out.len() ==> is_offered(answers, #[trigger] out[k]),
    ensures
        forall|k: int|
            0 <= k < round(out, answers, i, n).len() ==> is_offered(
                answers,
                #[trigger] round(out, answers, i, n)[k],
            ),
    decreases n,
{
    if n > 0 {
        round_adds_what_is_offered(out, answers, i, (n - 1) as nat);
        let before = round(out, answers, i, (n - 1) as nat);
        let after = round(out, answers, i, n);
        assert forall|k: int| 0 <= k < after.len() implies is_offered(
            answers,
            #[trigger] after[k],
        ) by {
            if k < before.len() {
                assert(after[k] == before[k]);
            } else {
                assert(answers[n - 1].1.contains(after[k].0));
            }
        }
    }
}

/// Taking turns adds nothing: every entry of the list is an item that some
/// backend offers, with that backend's priority.
pub proof fn listed_items_are_offered(answers: Seq<(i32, Seq<ItemView>)>, n: nat)
    ensures
        forall|k: int|
            0 <= k < rounds(answers, n).len() ==> is_offered(
                answers,
                #[trigger] rounds(answers, n)[k],
            ),
    decreases n,
{
    if n > 0 {
        listed_items_are_offered(answers, (n - 1) as nat);
        round_adds_what_is_offered(
            rounds(answers, (n - 1) as nat),
            answers,
            n - 1,
            answers.len(),
        );
    }
}

/// The place in `kept` of the entry with the key.
pub open spec fn place_of_key(
    keys: Seq<Option<Seq<char>>>,
    kept: Seq<int>,
    key: Seq<char>,
) -> Option<int>
    decreases kept.len(),
{
    if kept.len() == 0 {
        None
    } else {
        match place_of_key(keys, kept.drop_last(), key) {
            Some(p) => Some(p),
            None => if keys[kept.last()] == Some(key) {
                Some(kept.len() - 1)
            } else {
                None
            },
        }
    }
}

/// The entries that remain of the first `n` when those with the same key are
/// collapsed into one: the copy of the highest priority, the first among
/// equals, at the place of the first one. Entries without a key remain.
pub open spec fn collapsed(
    keys: Seq<Option<Seq<char>>>,
    priorities: Seq<i32>,
    n: nat,
) -> Seq<int>
    decreases n,
{
    if n == 0 {
        Seq::empty()
    } else {
        let kept = collapsed(keys, priorities, (n - 1) as nat);
        match keys[n - 1] {
            None => kept.push(n - 1),
            Some(key) => match place_of_key(keys, kept, key) {
                None => kept.push(n - 1),
                Some(p) => if priorities[n - 1] > priorities[kept[p]] {
                    kept.update(p, n - 1)
                } else {
                    kept
                },
            },
        }
    }
}

proof fn place_of_key_is_of_key(keys: Seq<Option<Seq<char>>>, kept: Seq<int>, key: Seq<char>)
    ensures
        match place_of_key(keys, kept, key) {
            Some(p) => 0 <= p < kept.len() && keys[kept[p]] == Some(key),
            None => forall|p: int| 0 <= p < kept.len() ==> keys[#[trigger] kept[p]] != Some(key),
        },
    decreases kept.len(),
{
    if kept.len() > 0 {
        place_of_key_is_of_key(keys, kept.drop_last(), key);
        assert forall|p: int|
            place_of_key(keys, kept, key) is None && 0 <= p < kept.len() implies keys[#[trigger] kept[p]]
            != Some(key) by {
            if p < kept.len() - 1 {
                assert(kept.drop_last()[p] == kept[p]);
            }
        }
    }
}

proof fn place_of_key_in_prefix(
    keys: Seq<Option<Seq<char>>>,
    kept: Seq<int>,
    key: Seq<char>,
    n: int,
)
    requires
        0 <= n <= kept.len(),
        place_of_key(keys, kept.take(n), key) is Some,
    ensures
        place_of_key(keys, kept, key) == place_of_key(keys, kept.take(n), key),
    decreases kept.len(),
{
    if n == kept.len() {
        assert(kept.take(n) =~= kept);
    } else {
        assert(kept.drop_last().take(n) =~= kept.take(n));
        place_of_key_in_prefix(keys, kept.drop_last(), key, n);
    }
}

/// The views of optional strings.
pub open spec fn opt_texts(v: Seq<Option<String>>) -> Seq<Option<Seq<char>>> {
    v.map_values(|s: Option<String>| json::opt_text(s))
}

fn find_key(keys: &Vec<Option<String>>, kept: &Vec<usize>, key: &str) -> (r: Option<usize>)
    requires
        forall|i: int| 0 <= i < kept.len() ==> #[trigger] kept[i] < keys.len(),
    ensures
        match r {
            Some(p) => p < kept.len() && place_of_key(
                opt_texts(keys@),
                kept@.map_values(|i: usize| i as int),
                key@,
            ) == Some(p as int),
            None => place_of_key(
                opt_texts(keys@),
                kept@.map_values(|i: usize| i as int),
                key@,
            ) is None,
        },
{
    let ghost all = opt_texts(keys@);
    let ghost at = kept@.map_values(|i: usize| i as int);
    for p in 0..kept.len()
        invariant
            all == opt_texts(keys@),
            at == kept@.map_values(|i: usize| i as int),
            forall|i: int| 0 <= i < kept.len() ==> #[trigger] kept[i] < keys.len(),
            place_of_key(all, at.take(p as int), key@) is None,
    {
        assert(at.take(p + 1).drop_last() =~= at.take(p as int));
        assert(at.take(p + 1).last() == kept[p as int]);
        assert(all[kept[p as int] as int] == json::opt_text(keys[kept[p as int] as int]));
        if let Some(k) = &keys[kept[p]] {
            if text::str_eq(k.as_str(), key) {
                proof {
                    place_of_key_in_prefix(all, at, key@, p + 1);
                }
                return Some(p);
            }
        }
    }
    assert(at.take(kept.len() as int) =~= at);
    None
}

/// Collapses entries with the same key; gives the places of what remains.
fn collapse(keys: &Vec<Option<String>>, priorities: &Vec<i32>) -> (r: Vec<usize>)
    requires
        keys.len() == priorities.len(),
    ensures
        r@.map_values(|i: usize| i as int) == collapsed(
            opt_texts(keys@),
            priorities@,
            keys@.len(),
        ),
        forall|i: int| 0 <= i < r.len() ==> #[trigger] r[i] < keys.len(),
{
    let ghost all = opt_texts(keys@);
    let mut kept: Vec<usize> = Vec::new();
    assert(kept@.map_values(|i: usize| i as int) =~= collapsed(all, priorities@, 0));
    for n in 0..keys.len()
        invariant
            all == opt_texts(keys@),
            keys.len() == priorities.len(),
            kept@.map_values(|i: usize| i as int) == collapsed(all, priorities@, n as nat),
            forall|i: int| 0 <= i < kept.len() ==> #[trigger] kept[i] < n,
    {
        let ghost before = kept@.map_values(|i: usize| i as int);
        assert(all[n as int] == json::opt_text(keys[n as int]));
        let place = match &keys[n] {
            Some(key) => find_key(keys, &kept, key.as_str()),
            None => None,
        };
        match place {
            Some(p) => {
                assert(before[p as int] == kept[p as int]);
                if priorities[n] > priorities[kept[p]] {
                    kept.set(p, n);
                    assert(kept@.map_values(|i: usize| i as int) =~= before.update(
                        p as int,
                        n as int,
                    ));
                }
            },
            None => {
                kept.push(n);
                assert(kept@.map_values(|i: usize| i as int) =~= before.push(n as int));
            },
        }
    }
    kept
}

/// The keys of the first `n` entries, each once, at its first place; entries
/// without a key all remain.
pub open spec fn first_keys(keys: Seq<Option<Seq<char>>>, n: nat) -> Seq<Option<Seq<char>>>
    decreases n,
{
    if n == 0 {
        Seq::empty()
    } else {
        let before = first_keys(keys, (n - 1) as nat);
        if keys[n - 1] is Some && before.contains(keys[n - 1]) {
            before
        } else {
            before.push(keys[n - 1])
        }
    }
}

/// Collapsing keeps one entry per key, at the place of the first entry with
/// that key, and every entry without a key.
pub proof fn collapsing_keeps_first_places(
    keys: Seq<Option<Seq<char>>>,
    priorities: Seq<i32>,
    n: nat,
)
    requires
        n <= keys.len(),
        keys.len() == priorities.len(),
    ensures
        collapsed(keys, priorities, n).map_values(|i: int| keys[i]) == first_keys(keys, n),
        forall|p: int|
            0 <= p < collapsed(keys, priorities, n).len() ==> 0 <= #[trigger] collapsed(
                keys,
                priorities,
                n,
            )[p] < n,
    decreases n,
{
    if n == 0 {
        assert(collapsed(keys, priorities, n).map_values(|i: int| keys[i]) =~= first_keys(keys, n));
    } else {
        let m = (n - 1) as nat;
        collapsing_keeps_first_places(keys, priorities, m);
        let kept = collapsed(keys, priorities, m);
        let shown = kept.map_values(|i: int| keys[i]);
        let after = collapsed(keys, priorities, n);
        match keys[n - 1] {
            None => {
                assert(after.map_values(|i: int| keys[i]) =~= first_keys(keys, n));
            },
            Some(key) => {
                place_of_key_is_of_key(keys, kept, key);
                match place_of_key(keys, kept, key) {
                    None => {
                        assert forall|p: int| 0 <= p < shown.len() implies shown[p] != Some(
                            key,
                        ) by {
                            assert(shown[p] == keys[kept[p]]);
                        }
                        assert(after.map_values(|i: int| keys[i]) =~= first_keys(keys, n));
                    },
                    Some(p) => {
                        assert(shown[p] == keys[n - 1]);
                        assert(shown.contains(keys[n - 1]));
                        assert(after.map_values(|i: int| keys[i]) =~= shown);
                    },
                }
            },
        }
    }
}

/// The copy that is kept for a key is one of the highest priority: every entry
/// with a key has a kept entry with the same key and at least its priority.
pub proof fn collapsing_keeps_the_highest_priority(
    keys: Seq<Option<Seq<char>>>,
    priorities: Seq<i32>,
    n: nat,
    i: int,
)
    requires
        n <= keys.len(),
        keys.len() == priorities.len(),
        0 <= i < n,
        keys[i] is Some,
    ensures
        exists|p: int|
            0 <= p < collapsed(keys, priorities, n).len() && keys[#[trigger] collapsed(
                keys,
                priorities,
                n,
            )[p]] == keys[i] && priorities[collapsed(keys, priorities, n)[p]] >= priorities[i],
    decreases n,
{
    let m = (n - 1) as nat;
    let kept = collapsed(keys, priorities, m);
    let after = collapsed(keys, priorities, n);
    collapsing_keeps_first_places(keys, priorities, m);
    if keys[n - 1] is Some {
        place_of_key_is_of_key(keys, kept, keys[n - 1]->0);
    }
    if i < n - 1 {
        collapsing_keeps_the_highest_priority(keys, priorities, m, i);
        let p = choose|p: int|
            0 <= p < kept.len() && keys[#[trigger] kept[p]] == keys[i] && priorities[kept[p]]
                >= priorities[i];
        if keys[n - 1] is Some && place_of_key(keys, kept, keys[n - 1]->0) == Some(p)
            && priorities[n - 1] > priorities[kept[p]] {
            assert(after[p] == n - 1);
        } else {
            assert(after[p] == kept[p]);
        }
    } else {
        match place_of_key(keys, kept, keys[i]->0) {
            None => {
                assert(after[kept.len() as int] == i);
            },
            Some(p) => {
                if priorities[i] > priorities[kept[p]] {
                    assert(after[p] == i);
                } else {
                    assert(after[p] == kept[p]);
                }
            },
        }
    }
}

/// No two kept entries have the same key.
proof fn collapsing_keeps_keys_apart(keys: Seq<Option<Seq<char>>>, priorities: Seq<i32>, n: nat)
    requires
        n <= keys.len(),
        keys.len() == priorities.len(),
    ensures
        forall|p: int, q: int|
            0 <= p < q < collapsed(keys, priorities, n).len() && keys[#[trigger] collapsed(
                keys,
                priorities,
                n,
            )[p]] is Some ==> keys[collapsed(keys, priorities, n)[p]] != keys[#[trigger] collapsed(
                keys,
                priorities,
                n,
            )[q]],
    decreases n,
{
    if n > 0 {
        let m = (n - 1) as nat;
        collapsing_keeps_keys_apart(keys, priorities, m);
        collapsing_keeps_first_places(keys, priorities, m);
        let kept = collapsed(keys, priorities, m);
        let after = collapsed(keys, priorities, n);
        if keys[n - 1] is Some {
            place_of_key_is_of_key(keys, kept, keys[n - 1]->0);
        }
        assert forall|p: int, q: int|
            0 <= p < q < after.len() && keys[#[trigger] after[p]] is Some implies keys[after[p]]
            != keys[#[trigger] after[q]] by {
            assert(keys[after[p]] == keys[kept[p]]);
            if q < kept.len() {
                assert(keys[after[q]] == keys[kept[q]]);
            }
        }
    }
}

/// Of the copies under one key the kept one is of the highest priority, and the
/// earliest of those.
pub proof fn equal_priorities_keep_the_earliest(
    keys: Seq<Option<Seq<char>>>,
    priorities: Seq<i32>,
    n: nat,
    p: int,
    i: int,
)
    requires
        n <= keys.len(),
        keys.len() == priorities.len(),
        0 <= p < collapsed(keys, priorities, n).len(),
        0 <= i < n,
        keys[i] is Some,
        keys[i] == keys[collapsed(keys, priorities, n)[p]],
    ensures
        priorities[i] <= priorities[collapsed(keys, priorities, n)[p]],
        priorities[i] == priorities[collapsed(keys, priorities, n)[p]] ==> collapsed(
            keys,
            priorities,
            n,
        )[p] <= i,
    decreases n,
{
    let m = (n - 1) as nat;
    let kept = collapsed(keys, priorities, m);
    let after = collapsed(keys, priorities, n);
    collapsing_keeps_first_places(keys, priorities, m);
    collapsing_keeps_first_places(keys, priorities, n);
    collapsing_keeps_keys_apart(keys, priorities, m);
    assert(after[p] < n);
    if keys[n - 1] is Some {
        place_of_key_is_of_key(keys, kept, keys[n - 1]->0);
    }
    if p < kept.len() {
        assert(keys[after[p]] == keys[kept[p]]);
        if i < n - 1 {
            equal_priorities_keep_the_earliest(keys, priorities, m, p, i);
        } else {
            let q = place_of_key(keys, kept, keys[i]->0)->0;
            assert(keys[kept[q]] == keys[kept[p]]);
            assert(q == p);
        }
    } else if i < n - 1 {
        collapsing_keeps_the_highest_priority(keys, priorities, m, i);
    }
}

/// The text of the first provider id whose key is `want`, letter case aside.
pub open spec fn id_under(
    ids: Seq<(Seq<char>, JsonView)>,
    want: Seq<char>,
) -> Option<Seq<char>>
    decreases ids.len(),
{
    if ids.len() == 0 {
        None
    } else {
        match id_under(ids.drop_last(), want) {
            Some(v) => Some(v),
            None => if text::lowercased(ids.last().0) == want {
                json::as_text(ids.last().1)
            } else {
                None
            },
        }
    }
}

proof fn id_in_prefix(ids: Seq<(Seq<char>, JsonView)>, want: Seq<char>, n: int)
    requires
        0 <= n <= ids.len(),
        id_under(ids.take(n), want) is Some,
    ensures
        id_under(ids, want) == id_under(ids.take(n), want),
    decreases ids.len(),
{
    if n == ids.len() {
        assert(ids.take(n) =~= ids);
    } else {
        assert(ids.drop_last().take(n) =~= ids.take(n));
        id_in_prefix(ids.drop_last(), want, n);
    }
}

fn find_id(ids: &Vec<(String, Json)>, want: &str) -> (r: Option<String>)
    ensures
        json::opt_text(r) == id_under(json::entry_contents(ids@), want@),
{
    let ghost all = json::entry_contents(ids@);
    for i in 0..ids.len()
        invariant
            all == json::entry_contents(ids@),
            id_under(all.take(i as int), want@) is None,
    {
        assert(all.take(i + 1).drop_last() =~= all.take(i as int));
        assert(all.take(i + 1).last() == (ids[i as int].0@, json::contents(ids[i as int].1)));
        if text::str_eq(text::to_lowercase(ids[i].0.as_str()).as_str(), want) {
            if let Json::Text(v) = &ids[i].1 {
                proof {
                    id_in_prefix(all, want@, i + 1);
                }
                return Some(v.clone());
            }
        }
    }
    assert(all.take(ids.len() as int) =~= all);
    None
}

/// The dedup key of a movie: its strongest identifying provider id (Imdb, then
/// Tmdb, then Tvdb). Everything else has none.
pub open spec fn movie_key(item: ItemView) -> Option<Seq<char>> {
    match (item.item_type, item.provider_ids) {
        (ItemKind::Movie, Some(JsonView::Object(ids))) => match id_under(ids, "imdb"@) {
            Some(v) => Some("imdb:"@ + v),
            None => match id_under(ids, "tmdb"@) {
                Some(v) => Some("tmdb:"@ + v),
                None => match id_under(ids, "tvdb"@) {
                    Some(v) => Some("tvdb:"@ + v),
                    None => None,
                },
            },
        },
        _ => None,
    }
}

/// A stable dedup key for a movie: the value of its strongest identifying
/// provider id. `None` for non-movies and for movies without such an id, which
/// cannot be deduped with confidence.
pub fn movie_dedup_key(item: &MediaItem) -> (r: Option<String>)
    ensures
        json::opt_text(r) == movie_key(item@),
{
    if item.item_type != ItemKind::Movie {
        return None;
    }
    match &item.provider_ids {
        Some(Json::Object(ids)) => {
            assert(json::contents(Json::Object(*ids))->Object_0 =~= json::entry_contents(ids@));
            if let Some(v) = find_id(ids, "imdb") {
                return Some("imdb:".to_owned().concat(v.as_str()));
            }
            if let Some(v) = find_id(ids, "tmdb") {
                return Some("tmdb:".to_owned().concat(v.as_str()));
            }
            if let Some(v) = find_id(ids, "tvdb") {
                return Some("tvdb:".to_owned().concat(v.as_str()));
            }
            None
        },
        _ => None,
    }
}

/// The movie keys of a list.
pub open spec fn movie_keys(items: Seq<(ItemView, i32)>) -> Seq<Option<Seq<char>>> {
    items.map_values(|e: (ItemView, i32)| movie_key(e.0))
}

/// The priorities of a list.
pub open spec fn priorities_of(items: Seq<(ItemView, i32)>) -> Seq<i32> {
    items.map_values(|e: (ItemView, i32)| e.1)
}

/// The items that remain when copies of one movie are collapsed.
pub open spec fn deduped_movies(items: Seq<(ItemView, i32)>) -> Seq<ItemView> {
    collapsed(movie_keys(items), priorities_of(items), items.len()).map_values(
        |i: int| items[i].0,
    )
}

/// Collapses duplicate movies (same provider id across backends) into one
/// entry, keeping the copy from the highest-priority backend. The place of the
/// first occurrence is kept; anything that is not a dedupable movie passes
/// through.
pub fn dedup_movies_by_provider(items: Vec<(MediaItem, i32)>) -> (r: Vec<MediaItem>)
    ensures
        item_views(r@) == deduped_movies(entries(items@)),
{
    let ghost all = entries(items@);
    let mut keys: Vec<Option<String>> = Vec::new();
    let mut priorities: Vec<i32> = Vec::new();
    for i in 0..items.len()
        invariant
            all == entries(items@),
            opt_texts(keys@) == movie_keys(all).take(i as int),
            priorities@ == priorities_of(all).take(i as int),
    {
        let ghost before = opt_texts(keys@);
        let key = movie_dedup_key(&items[i].0);
        let ghost k = json::opt_text(key);
        keys.push(key);
        priorities.push(items[i].1);
        assert(opt_texts(keys@) =~= before.push(k));
        assert(opt_texts(keys@) =~= movie_keys(all).take(i + 1));
        assert(priorities@ =~= priorities_of(all).take(i + 1));
    }
    assert(movie_keys(all).take(items.len() as int) =~= movie_keys(all));
    assert(priorities_of(all).take(items.len() as int) =~= priorities_of(all));
    assert(keys.len() == items.len()) by {
        assert(opt_texts(keys@).len() == movie_keys(all).len());
    }
    let kept = collapse(&keys, &priorities);
    let ghost at = kept@.map_values(|i: usize| i as int);
    let mut out: Vec<MediaItem> = Vec::new();
    for j in 0..kept.len()
        invariant
            all == entries(items@),
            at == kept@.map_values(|i: usize| i as int),
            forall|i: int| 0 <= i < kept.len() ==> #[trigger] kept[i] < items.len(),
            item_views(out@) == at.map_values(|i: int| all[i].0).take(j as int),
    {
        let ghost before = item_views(out@);
        out.push(items[kept[j]].0.copy());
        assert(item_views(out@) =~= before.push(all[at[j as int]].0));
        assert(item_views(out@) =~= at.map_values(|i: int| all[i].0).take(j + 1));
    }
    assert(at.map_values(|i: int| all[i].0).take(kept.len() as int) =~= at.map_values(
        |i: int| all[i].0,
    ));
    out
}

/// The last place below `n` where `part` occurs.
pub open spec fn last_occurrence(s: Seq<char>, part: Seq<char>, n: nat) -> Option<int>
    decreases n,
{
    if n == 0 {
        None
    } else if text::occurs_at(s, part, n - 1) {
        Some(n - 1)
    } else {
        last_occurrence(s, part, (n - 1) as nat)
    }
}

/// The name of a library without the server's name, which stands in brackets
/// at the end.
pub open spec fn base_name(name: Seq<char>) -> Seq<char> {
    match last_occurrence(name, " ["@, name.len()) {
        Some(i) => name.take(i),
        None => name,
    }
}

/// The name of a library without the server's name.
pub fn base_name_of(name: &str) -> (r: String)
    ensures
        r@ == base_name(name@),
{
    let chars = text::chars_of(name);
    let part = text::chars_of(" [");
    let mut n: usize = chars.len();
    while n > 0
        invariant
            chars@ == name@,
            part@ == " ["@,
            n <= chars.len(),
            last_occurrence(name@, " ["@, n as nat) == last_occurrence(
                name@,
                " ["@,
                name@.len(),
            ),
        decreases n,
    {
        if text::found_at(&chars, &part, n - 1) {
            assert(name@.subrange(0, n - 1) =~= name@.take(n - 1));
            return text::string_of_range(&chars, 0, n - 1);
        }
        n = n - 1;
    }
    name.to_owned()
}

/// The key by which libraries are the same: base name and type. Items that are
/// no libraries, or whose server is not known, have none.
pub open spec fn view_key(item: ItemView, server: Option<i64>) -> Option<Seq<char>> {
    match (item.collection_type, server) {
        (Some(t), Some(_)) => Some(
            text::lowercased(
                base_name(
                    match item.name {
                        Some(n) => n,
                        None => Seq::empty(),
                    },
                ),
            ) + "|"@ + t,
        ),
        _ => None,
    }
}

fn view_key_of(item: &MediaItem, server: Option<i64>) -> (r: Option<String>)
    ensures
        json::opt_text(r) == view_key(item@, server),
{
    match (&item.collection_type, server) {
        (Some(t), Some(_)) => {
            let base = match &item.name {
                Some(n) => base_name_of(n.as_str()),
                None => {
                    proof {
                        assert(last_occurrence(Seq::<char>::empty(), " ["@, 0) is None);
                    }
                    String::new()
                },
            };
            Some(text::to_lowercase(base.as_str()).concat("|").concat(t.as_str()))
        },
        _ => None,
    }
}

/// The keys of the libraries in a list.
pub open spec fn view_keys(
    items: Seq<(ItemView, i32)>,
    servers: Seq<Option<i64>>,
) -> Seq<Option<Seq<char>>> {
    Seq::new(items.len(), |i: int| view_key(items[i].0, servers[i]))
}

/// The libraries among the first `n` items with the key, by server and id.
pub open spec fn members_with(
    items: Seq<(ItemView, i32)>,
    servers: Seq<Option<i64>>,
    key: Seq<char>,
    n: nat,
) -> Seq<(i64, Seq<char>)>
    decreases n,
{
    if n == 0 {
        Seq::empty()
    } else {
        let before = members_with(items, servers, key, (n - 1) as nat);
        if view_key(items[n - 1].0, servers[n - 1]) == Some(key) {
            before.push((servers[n - 1]->0, items[n - 1].0.id))
        } else {
            before
        }
    }
}

/// The registry after the groups of the first `n` kept items were registered,
/// each under the id of the kept item.
pub open spec fn registered_groups(
    groups: Map<Seq<char>, Seq<(i64, Seq<char>)>>,
    items: Seq<(ItemView, i32)>,
    servers: Seq<Option<i64>>,
    kept: Seq<int>,
    n: nat,
) -> Map<Seq<char>, Seq<(i64, Seq<char>)>>
    decreases n,
{
    if n == 0 {
        groups
    } else {
        let before = registered_groups(groups, items, servers, kept, (n - 1) as nat);
        let i = kept[n - 1];
        match view_key(items[i].0, servers[i]) {
            Some(key) => view_merge::registered(
                before,
                items[i].0.id,
                members_with(items, servers, key, items.len()),
            ),
            None => before,
        }
    }
}

fn collect_members(
    items: &Vec<(MediaItem, i32)>,
    servers: &Vec<Option<i64>>,
    keys: &Vec<Option<String>>,
    key: &str,
) -> (r: Vec<(i64, String)>)
    requires
        servers.len() == items.len(),
        keys.len() == items.len(),
        opt_texts(keys@) == view_keys(entries(items@), servers@),
    ensures
        view_merge::member_views(r@) == members_with(
            entries(items@),
            servers@,
            key@,
            items@.len(),
        ),
{
    let ghost all = entries(items@);
    let mut out: Vec<(i64, String)> = Vec::new();
    assert(view_merge::member_views(out@) =~= members_with(all, servers@, key@, 0));
    for i in 0..items.len()
        invariant
            all == entries(items@),
            servers.len() == items.len(),
            keys.len() == items.len(),
            opt_texts(keys@) == view_keys(all, servers@),
            view_merge::member_views(out@) == members_with(all, servers@, key@, i as nat),
    {
        let ghost before = view_merge::member_views(out@);
        assert(opt_texts(keys@)[i as int] == json::opt_text(keys[i as int]));
        assert(all[i as int] == (items[i as int].0@, items[i as int].1));
        let same = match &keys[i] {
            Some(k) => text::str_eq(k.as_str(), key),
            None => false,
        };
        if same {
            if let Some(server) = servers[i] {
                out.push((server, items[i].0.id.clone()));
                assert(view_merge::member_views(out@) =~= before.push(
                    (server, items[i as int].0.id@),
                ));
            }
        }
    }
    out
}

/// Collapses libraries that are the same across backends into one canonical
/// view (that of the highest-priority backend), preserving order, and
/// registers each merge group so that a later browse of that view fans out
/// across its backends. `servers` gives the server of each item, where it is
/// known. Items that are no libraries pass through.
pub fn dedup_and_register_views(
    items: &Vec<(MediaItem, i32)>,
    servers: &Vec<Option<i64>>,
    registry: &mut ViewMergeRegistry,
) -> (r: Vec<(MediaItem, i32)>)
    requires
        servers.len() == items.len(),
    ensures
        ({
            let all = entries(items@);
            let kept = collapsed(view_keys(all, servers@), priorities_of(all), all.len());
            &&& entries(r@) == kept.map_values(|i: int| all[i])
            &&& final(registry)@ == registered_groups(
                old(registry)@,
                all,
                servers@,
                kept,
                kept.len(),
            )
        }),
{
    let ghost all = entries(items@);
    let mut keys: Vec<Option<String>> = Vec::new();
    let mut priorities: Vec<i32> = Vec::new();
    for i in 0..items.len()
        invariant
            all == entries(items@),
            servers.len() == items.len(),
            opt_texts(keys@) == view_keys(all, servers@).take(i as int),
            priorities@ == priorities_of(all).take(i as int),
    {
        let ghost before = opt_texts(keys@);
        let key = view_key_of(&items[i].0, servers[i]);
        let ghost k = json::opt_text(key);
        keys.push(key);
        priorities.push(items[i].1);
        assert(opt_texts(keys@) =~= before.push(k));
        assert(opt_texts(keys@) =~= view_keys(all, servers@).take(i + 1));
        assert(priorities@ =~= priorities_of(all).take(i + 1));
    }
    assert(view_keys(all, servers@).take(items.len() as int) =~= view_keys(all, servers@));
    assert(priorities_of(all).take(items.len() as int) =~= priorities_of(all));
    assert(keys.len() == items.len()) by {
        assert(opt_texts(keys@).len() == view_keys(all, servers@).len());
    }
    let kept = collapse(&keys, &priorities);
    let ghost at = kept@.map_values(|i: usize| i as int);
    let mut out: Vec<(MediaItem, i32)> = Vec::new();
    for j in 0..kept.len()
        invariant
            all == entries(items@),
            servers.len() == items.len(),
            keys.len() == items.len(),
            opt_texts(keys@) == view_keys(all, servers@),
            at == kept@.map_values(|i: usize| i as int),
            forall|i: int| 0 <= i < kept.len() ==> #[trigger] kept[i] < items.len(),
            entries(out@) == at.map_values(|i: int| all[i]).take(j as int),
            registry@ == registered_groups(old(registry)@, all, servers@, at, j as nat),
    {
        let ghost before = entries(out@);
        let i: usize = kept[j];
        assert(at[j as int] == i);
        assert(all[i as int] == (items[i as int].0@, items[i as int].1));
        assert(opt_texts(keys@)[i as int] == json::opt_text(keys[i as int]));
        out.push((items[i].0.copy(), items[i].1));
        assert(entries(out@) =~= before.push(all[at[j as int]]));
        assert(entries(out@) =~= at.map_values(|i: int| all[i]).take(j + 1));
        if let Some(key) = &keys[i] {
            let members = collect_members(items, servers, &keys, key.as_str());
            registry.register(items[i].0.id.clone(), members);
        }
    }
    assert(at.map_values(|i: int| all[i]).take(kept.len() as int) =~= at.map_values(
        |i: int| all[i],
    ));
    out
}

/// A merged library can be browsed across its backends: under the id of the
/// view that was kept, the registry holds all the libraries it stands for, and
/// a library of one backend is not registered.
pub proof fn kept_views_are_registered(
    groups: Map<Seq<char>, Seq<(i64, Seq<char>)>>,
    items: Seq<(ItemView, i32)>,
    servers: Seq<Option<i64>>,
    kept: Seq<int>,
    n: nat,
    p: int,
)
    requires
        0 <= p < n <= kept.len(),
        view_key(items[kept[p]].0, servers[kept[p]]) is Some,
        forall|q: int|
            p < q < n && view_key(
                items[#[trigger] kept[q]].0,
                servers[kept[q]],
            ) is Some ==> items[kept[q]].0.id != items[kept[p]].0.id,
    ensures
        ({
            let after = registered_groups(groups, items, servers, kept, n);
            let id = items[kept[p]].0.id;
            let members = members_with(
                items,
                servers,
                view_key(items[kept[p]].0, servers[kept[p]])->0,
                items.len(),
            );
            if members.len() > 1 {
                after.contains_key(id) && after[id] == members
            } else {
                !after.contains_key(id)
            }
        }),
    decreases n,
{
    if p < n - 1 {
        kept_views_are_registered(groups, items, servers, kept, (n - 1) as nat, p);
        assert(view_key(items[kept[n - 1]].0, servers[kept[n - 1]]) is Some
            ==> items[kept[n - 1]].0.id != items[kept[p]].0.id);
    }
}

/// The shape of a listing.
#[derive(Debug, Clone, Copy, PartialEq, Eq, Structural)]
pub enum Shape {
    /// The items alone.
    Bare,
    /// The items with their number and the place of the first.
    WithCount { total_record_count: i32, start_index: i32 },
}

/// The shape of the merged listing of `count` items: with a count if any
/// backend's answer had one.
pub fn response_shape(with_count: &Vec<bool>, count: usize) -> (r: Shape)
    ensures
        r == (if exists|i: int| 0 <= i < with_count.len() && with_count[i] {
            Shape::WithCount { total_record_count: count as i32, start_index: 0 }
        } else {
            Shape::Bare
        }),
{
    for i in 0..with_count.len()
        invariant
            forall|k: int| 0 <= k < i ==> !with_count[k],
    {
        if with_count[i] {
            return Shape::WithCount {
                total_record_count: #[verifier::truncate]
                (count as i32),
                start_index: 0,
            };
        }
    }
    Shape::Bare
}

/// The answers that came, by their places among the arrivals: in the order of
/// the servers that were asked, those without items left out.
pub open spec fn arrivals_in_order(arrived: Seq<(usize, bool)>) -> Seq<int> {
    sorting::in_order(
        sorting::positions(arrived.len()),
        sorting::by_element(arrived, by_server_place()),
    ).filter(|i: int| arrived[i].1)
}

/// The order of arrivals by the place of their server.
pub open spec fn by_server_place() -> spec_fn((usize, bool), (usize, bool)) -> bool {
    |a: (usize, bool), b: (usize, bool)| a.0 <= b.0
}

/// Puts the answers, which came in any order, in the order of the servers. An
/// arrival is the place of its server and whether it brought items.
pub fn order_arrivals(arrived: &Vec<(usize, bool)>) -> (r: Vec<usize>)
    ensures
        r@.map_values(|i: usize| i as int) == arrivals_in_order(arrived@),
        forall|k: int| 0 <= k < r.len() ==> #[trigger] r[k] < arrived.len(),
{
    let ghost all = arrived@;
    let le = |a: usize, b: usize| -> (o: bool)
        requires
            a < arrived.len(),
            b < arrived.len(),
        ensures
            o == (arrived[a as int].0 <= arrived[b as int].0),
        { arrived[a].0 <= arrived[b].0 };
    let order = sorting::sort_positions(
        arrived.len(),
        le,
        Ghost(sorting::by_element(all, by_server_place())),
    );
    let ghost sorted = sorting::as_positions(order@);
    let ghost has_items = |i: int| all[i].1;
    let mut out: Vec<usize> = Vec::new();
    proof {
        reveal(Seq::filter);
    }
    assert(out@.map_values(|i: usize| i as int) =~= sorted.take(0).filter(has_items));
    for k in 0..order.len()
        invariant
            all == arrived@,
            has_items == (|i: int| all[i].1),
            sorted == sorting::as_positions(order@),
            forall|j: int| 0 <= j < order.len() ==> #[trigger] order[j] < arrived.len(),
            forall|j: int| 0 <= j < out.len() ==> #[trigger] out[j] < arrived.len(),
            out@.map_values(|i: usize| i as int) == sorted.take(k as int).filter(has_items),
    {
        proof {
            reveal(Seq::filter);
        }
        let ghost before = out@.map_values(|i: usize| i as int);
        assert(sorted.take(k + 1).drop_last() =~= sorted.take(k as int));
        assert(sorted.take(k + 1).last() == order[k as int]);
        if arrived[order[k]].1 {
            out.push(order[k]);
            assert(out@.map_values(|i: usize| i as int) =~= before.push(order[k as int] as int));
        }
    }
    assert(sorted.take(order.len() as int) =~= sorted);
    out
}

/// The answers stand in the order of their servers, in whatever order they
/// came, and those with items are among them, and no others.
pub proof fn arrivals_follow_the_servers(arrived: Seq<(usize, bool)>)
    ensures
        ({
            let r = arrivals_in_order(arrived);
            &&& forall|i: int, j: int|
                0 <= i < j < r.len() ==> arrived[#[trigger] r[i]].0 <= arrived[#[trigger] r[j]].0
            &&& forall|i: int| 0 <= i < r.len() ==> arrived[#[trigger] r[i]].1
            &&& forall|i: int|
                0 <= i < arrived.len() && (#[trigger] arrived[i]).1 ==> r.contains(i)
        }),
{
    let leq = sorting::by_element(arrived, by_server_place());
    let sorted = sorting::in_order(sorting::positions(arrived.len()), leq);
    let has_items = |i: int| arrived[i].1;
    sorting::in_order_sorted(sorting::positions(arrived.len()), leq);
    filtered_stays_sorted(sorted, leq, has_items);
    let r = arrivals_in_order(arrived);
    assert forall|i: int, j: int| 0 <= i < j < r.len() implies arrived[#[trigger] r[i]].0
        <= arrived[#[trigger] r[j]].0 by {
        assert(leq(r[i], r[j]));
    }
    assert forall|i: int| 0 <= i < r.len() implies arrived[#[trigger] r[i]].1 by {
        sorted.lemma_filter_pred(has_items, i);
    }
    sorting::in_order_keeps(sorting::positions(arrived.len()), leq);
    assert forall|i: int| 0 <= i < arrived.len() && (#[trigger] arrived[i]).1 implies r.contains(
        i,
    ) by {
        broadcast use group_to_multiset_ensures;

        assert(sorting::positions(arrived.len())[i] == i);
        assert(sorted.to_multiset().count(i) > 0);
        let k = choose|k: int| 0 <= k < sorted.len() && sorted[k] == i;
        sorted.lemma_filter_contains(has_items, k);
    }
}

proof fn filtered_stays_sorted(
    s: Seq<int>,
    leq: spec_fn(int, int) -> bool,
    keep: spec_fn(int) -> bool,
)
    requires
        sorted_by(s, leq),
    ensures
        sorted_by(s.filter(keep), leq),
    decreases s.len(),
{
    reveal(Seq::filter);
    if s.len() > 0 {
        let head = s.drop_last();
        assert forall|i: int, j: int| 0 <= i < j < head.len() implies #[trigger] leq(
            head[i],
            head[j],
        ) by {
            assert(leq(s[i], s[j]));
        }
        filtered_stays_sorted(head, leq, keep);
        if keep(s.last()) {
            let f = head.filter(keep);
            let g = s.filter(keep);
            assert forall|i: int, j: int| 0 <= i < j < g.len() implies #[trigger] leq(
                g[i],
                g[j],
            ) by {
                if j == f.len() {
                    head.lemma_filter_contains_rev(keep, f[i]);
                    let k = choose|k: int| 0 <= k < head.len() && head[k] == f[i];
                    assert(leq(s[k], s[s.len() - 1]));
                } else {
                    assert(leq(f[i], f[j]));
                }
            }
        }
    }
}

/// The items of a merged listing: where dedup is on, libraries that are the
/// same and copies of one movie are collapsed.
pub open spec fn listed(
    items: Seq<(ItemView, i32)>,
    servers: Option<Seq<Option<i64>>>,
) -> Seq<ItemView> {
    match servers {
        Some(s) => {
            let kept = collapsed(view_keys(items, s), priorities_of(items), items.len());
            deduped_movies(kept.map_values(|i: int| items[i]))
        },
        None => items.map_values(|e: (ItemView, i32)| e.0),
    }
}

/// Makes the listing out of the interleaved answers of all servers. Where
/// dedup is on, `servers` gives the server of each item, as far as it is
/// known; the merged libraries are then registered.
pub fn get_items_from_all_servers(
    items: Vec<(MediaItem, i32)>,
    servers: Option<&Vec<Option<i64>>>,
    with_count: &Vec<bool>,
    registry: &mut ViewMergeRegistry,
) -> (r: (Vec<MediaItem>, Shape))
    requires
        servers matches Some(s) ==> s.len() == items.len(),
    ensures
        item_views(r.0@) == listed(
            entries(items@),
            match servers {
                Some(s) => Some(s@),
                None => None,
            },
        ),
        r.1 == (if exists|i: int| 0 <= i < with_count.len() && with_count[i] {
            Shape::WithCount { total_record_count: r.0@.len() as i32, start_index: 0 }
        } else {
            Shape::Bare
        }),
        match servers {
            Some(s) => {
                let all = entries(items@);
                let kept = collapsed(view_keys(all, s@), priorities_of(all), all.len());
                final(registry)@ == registered_groups(
                    old(registry)@,
                    all,
                    s@,
                    kept,
                    kept.len(),
                )
            },
            None => final(registry)@ == old(registry)@,
        },
{
    let out = match servers {
        Some(s) => {
            let merged = dedup_and_register_views(&items, s, registry);
            dedup_movies_by_provider(merged)
        },
        None => {
            let ghost all = entries(items@).map_values(|e: (ItemView, i32)| e.0);
            let mut plain: Vec<MediaItem> = Vec::new();
            for i in 0..items.len()
                invariant
                    all == entries(items@).map_values(|e: (ItemView, i32)| e.0),
                    item_views(plain@) == all.take(i as int),
            {
                let ghost before = item_views(plain@);
                plain.push(items[i].0.copy());
                assert(item_views(plain@) =~= before.push(all[i as int]));
                assert(item_views(plain@) =~= all.take(i + 1));
            }
            assert(all.take(items.len() as int) =~= all);
            plain
        },
    };
    let shape = response_shape(with_count, out.len());
    (out, shape)
}

/// Whether the id at `i` is the first text under the key, letter case aside.
pub open spec fn is_first_id(ids: Seq<(Seq<char>, JsonView)>, want: Seq<char>, i: int) -> bool {
    &&& is_id_under(ids, want, i)
    &&& forall|j: int| 0 <= j < i ==> !#[trigger] is_id_under(ids, want, j)
}

/// Whether the id at `i` is a text under the key, letter case aside.
pub open spec fn is_id_under(ids: Seq<(Seq<char>, JsonView)>, want: Seq<char>, i: int) -> bool {
    0 <= i < ids.len() && text::lowercased(ids[i].0) == want && ids[i].1 is Text
}

/// Whether there is a text under the key, letter case aside.
pub open spec fn has_id_under(ids: Seq<(Seq<char>, JsonView)>, want: Seq<char>) -> bool {
    exists|i: int| #[trigger] is_id_under(ids, want, i)
}

/// A provider id is the first text under its key, letter case aside.
pub proof fn first_id_counts(ids: Seq<(Seq<char>, JsonView)>, want: Seq<char>)
    ensures
        match id_under(ids, want) {
            Some(v) => exists|i: int| #[trigger]
                is_first_id(ids, want, i) && ids[i].1 == JsonView::Text(v),
            None => !has_id_under(ids, want),
        },
    decreases ids.len(),
{
    if ids.len() > 0 {
        let head = ids.drop_last();
        first_id_counts(head, want);
        assert forall|j: int| 0 <= j < head.len() implies #[trigger] is_id_under(ids, want, j)
            == is_id_under(head, want, j) by {}
        match id_under(head, want) {
            Some(v) => {
                let i = choose|i: int| #[trigger]
                    is_first_id(head, want, i) && head[i].1 == JsonView::Text(v);
                assert(is_id_under(head, want, i));
                assert(is_first_id(ids, want, i));
            },
            None => {
                assert forall|j: int| 0 <= j < head.len() implies !#[trigger] is_id_under(
                    ids,
                    want,
                    j,
                ) by {
                    assert(!is_id_under(head, want, j));
                }
                if id_under(ids, want) is Some {
                    assert(is_first_id(ids, want, ids.len() - 1));
                }
            },
        }
    }
}

/// Whether the text is the name, a colon and the first text under that name.
pub open spec fn spells_first_id(
    ids: Seq<(Seq<char>, JsonView)>,
    want: Seq<char>,
    key: Seq<char>,
) -> bool {
    exists|i: int| #[trigger] is_first_id(ids, want, i) && key == want.push(':') + ids[i].1->Text_0
}

/// Only items of type Movie have a dedup key, and of these just the ones with a
/// text under Imdb, Tmdb or Tvdb; the key is the first text under the first of
/// these three that there is, behind its name and a colon.
pub proof fn only_movies_have_a_dedup_key(item: ItemView)
    ensures
        movie_key(item) is Some ==> item.item_type == ItemKind::Movie,
        movie_key(item) is Some <==> item.item_type == ItemKind::Movie && (
        item.provider_ids matches Some(JsonView::Object(ids)) && (has_id_under(ids, "imdb"@)
            || has_id_under(ids, "tmdb"@) || has_id_under(ids, "tvdb"@))),
        movie_key(item) matches Some(key) ==> {
            let ids = item.provider_ids->0->Object_0;
            if has_id_under(ids, "imdb"@) {
                spells_first_id(ids, "imdb"@, key)
            } else if has_id_under(ids, "tmdb"@) {
                spells_first_id(ids, "tmdb"@, key)
            } else {
                spells_first_id(ids, "tvdb"@, key)
            }
        },
{
    reveal_strlit("imdb");
    reveal_strlit("tmdb");
    reveal_strlit("tvdb");
    reveal_strlit("imdb:");
    reveal_strlit("tmdb:");
    reveal_strlit("tvdb:");
    assert("imdb:"@ =~= "imdb"@.push(':'));
    assert("tmdb:"@ =~= "tmdb"@.push(':'));
    assert("tvdb:"@ =~= "tvdb"@.push(':'));
    if let Some(JsonView::Object(ids)) = item.provider_ids {
        found_ids_are_there(ids, "imdb"@);
        found_ids_are_there(ids, "tmdb"@);
        found_ids_are_there(ids, "tvdb"@);
    }
}

proof fn found_ids_are_there(ids: Seq<(Seq<char>, JsonView)>, want: Seq<char>)
    ensures
        id_under(ids, want) is Some <==> has_id_under(ids, want),
        id_under(ids, want) matches Some(v) ==> spells_first_id(ids, want, want.push(':') + v),
{
    first_id_counts(ids, want);
    if let Some(v) = id_under(ids, want) {
        let i = choose|i: int| #[trigger]
            is_first_id(ids, want, i) && ids[i].1 == JsonView::Text(v);
        assert(is_id_under(ids, want, i));
    }
}

proof fn update_of_what_is_filtered_out(s: Seq<int>, p: int, x: int, f: spec_fn(int) -> bool)
    requires
        0 <= p < s.len(),
        !f(s[p]),
        !f(x),
    ensures
        s.update(p, x).filter(f) == s.filter(f),
    decreases s.len(),
{
    reveal(Seq::filter);
    let t = s.update(p, x);
    if p == s.len() - 1 {
        assert(t.drop_last() =~= s.drop_last());
    } else {
        update_of_what_is_filtered_out(s.drop_last(), p, x, f);
        assert(t.drop_last() =~= s.drop_last().update(p, x));
    }
}

/// Entries without a key all remain, each once and in their order.
pub proof fn entries_without_a_key_remain(
    keys: Seq<Option<Seq<char>>>,
    priorities: Seq<i32>,
    n: nat,
    f: spec_fn(int) -> bool,
)
    requires
        n <= keys.len(),
        keys.len() == priorities.len(),
        forall|i: int| 0 <= i < n && #[trigger] f(i) ==> keys[i] is None,
    ensures
        collapsed(keys, priorities, n).filter(f) == Seq::new(n, |i: int| i).filter(f),
    decreases n,
{
    reveal(Seq::filter);
    if n > 0 {
        let m = (n - 1) as nat;
        entries_without_a_key_remain(keys, priorities, m, f);
        collapsing_keeps_first_places(keys, priorities, m);
        let kept = collapsed(keys, priorities, m);
        let all = Seq::new(n, |i: int| i);
        assert(all.drop_last() =~= Seq::new(m, |i: int| i));
        assert(kept.push(n - 1).drop_last() =~= kept);
        if let Some(key) = keys[n - 1] {
            assert(!f(n - 1));
            place_of_key_is_of_key(keys, kept, key);
            if let Some(p) = place_of_key(keys, kept, key) {
                assert(0 <= kept[p] < m);
                assert(!f(kept[p]));
                update_of_what_is_filtered_out(kept, p, n - 1, f);
            }
        }
    } else {
        assert(collapsed(keys, priorities, n) =~= Seq::new(n, |i: int| i));
    }
}

proof fn filter_of_mapped<T>(s: Seq<int>, g: spec_fn(int) -> T, h: spec_fn(T) -> bool)
    ensures
        s.map_values(g).filter(h) == s.filter(|i: int| h(g(i))).map_values(g),
    decreases s.len(),
{
    reveal(Seq::filter);
    let f = |i: int| h(g(i));
    if s.len() > 0 {
        let head = s.drop_last();
        filter_of_mapped(head, g, h);
        assert(s.map_values(g).drop_last() =~= head.map_values(g));
        if f(s.last()) {
            assert(head.filter(f).push(s.last()).map_values(g) =~= head.filter(f).map_values(
                g,
            ).push(g(s.last())));
        }
    } else {
        assert(s.map_values(g) =~= Seq::<T>::empty());
        assert(s.filter(f).map_values(g) =~= Seq::<T>::empty());
    }
}

/// Whatever is not of type Movie stays in the deduplicated listing, as often as
/// it was there and in the same order.
pub proof fn everything_but_movies_remains(items: Seq<(ItemView, i32)>)
    ensures
        deduped_movies(items).filter(|x: ItemView| x.item_type != ItemKind::Movie)
            == items.map_values(|e: (ItemView, i32)| e.0).filter(
            |x: ItemView| x.item_type != ItemKind::Movie,
        ),
{
    let h = |x: ItemView| x.item_type != ItemKind::Movie;
    let g = |i: int| items[i].0;
    let f = |i: int| h(g(i));
    let keys = movie_keys(items);
    let all = Seq::new(items.len(), |i: int| i);
    let kept = collapsed(keys, priorities_of(items), items.len());
    assert forall|i: int| 0 <= i < items.len() && #[trigger] f(i) implies keys[i] is None by {
        only_movies_have_a_dedup_key(items[i].0);
        assert(keys[i] == movie_key(items[i].0));
    }
    entries_without_a_key_remain(keys, priorities_of(items), items.len(), f);
    filter_of_mapped(kept, g, h);
    filter_of_mapped(all, g, h);
    assert(kept.map_values(g) =~= deduped_movies(items));
    assert(all.map_values(g) =~= items.map_values(|e: (ItemView, i32)| e.0));
}

/// Whether an item is a movie without a text under Imdb, Tmdb or Tvdb.
pub open spec fn is_unidentified(item: ItemView) -> bool {
    item.item_type == ItemKind::Movie && !(item.provider_ids matches Some(JsonView::Object(ids)) && (
    has_id_under(ids, "imdb"@) || has_id_under(ids, "tmdb"@) || has_id_under(ids, "tvdb"@)))
}

/// Movies that nothing identifies stay in the deduplicated listing too, as often
/// as they were there and in the same order.
pub proof fn unidentified_movies_remain(items: Seq<(ItemView, i32)>)
    ensures
        deduped_movies(items).filter(|x: ItemView| is_unidentified(x)) == items.map_values(
            |e: (ItemView, i32)| e.0,
        ).filter(|x: ItemView| is_unidentified(x)),
{
    let h = |x: ItemView| is_unidentified(x);
    let g = |i: int| items[i].0;
    let f = |i: int| h(g(i));
    let keys = movie_keys(items);
    let all = Seq::new(items.len(), |i: int| i);
    let kept = collapsed(keys, priorities_of(items), items.len());
    assert forall|i: int| 0 <= i < items.len() && #[trigger] f(i) implies keys[i] is None by {
        only_movies_have_a_dedup_key(items[i].0);
        assert(keys[i] == movie_key(items[i].0));
    }
    entries_without_a_key_remain(keys, priorities_of(items), items.len(), f);
    filter_of_mapped(kept, g, h);
    filter_of_mapped(all, g, h);
    assert(kept.map_values(g) =~= deduped_movies(items));
    assert(all.map_values(g) =~= items.map_values(|e: (ItemView, i32)| e.0));
}

/// Whether two items are movies with the same text under the key, which for both
/// is the strongest they have.
pub open spec fn same_movie(a: ItemView, b: ItemView) -> bool {
    movie_key(a) is Some && movie_key(a) == movie_key(b)
}

/// Of the copies of one movie exactly one is listed, and it is of the highest
/// priority: every copy has a listed one, and no two listed items are copies of
/// each other.
pub proof fn one_copy_of_a_movie_is_listed(items: Seq<(ItemView, i32)>, i: int)
    requires
        0 <= i < items.len(),
        movie_key(items[i].0) is Some,
    ensures
        exists|j: int|
            0 <= j < items.len() && same_movie((#[trigger] items[j]).0, items[i].0) && items[j].1
                >= items[i].1 && deduped_movies(items).contains(items[j].0),
        forall|p: int, q: int|
            0 <= p < q < deduped_movies(items).len() ==> !same_movie(
                #[trigger] deduped_movies(items)[p],
                #[trigger] deduped_movies(items)[q],
            ),
{
    let keys = movie_keys(items);
    let priorities = priorities_of(items);
    let kept = collapsed(keys, priorities, items.len());
    let shown = deduped_movies(items);
    assert forall|k: int| 0 <= k < items.len() implies #[trigger] keys[k] == movie_key(
        items[k].0,
    ) by {}
    collapsing_keeps_first_places(keys, priorities, items.len());
    collapsing_keeps_keys_apart(keys, priorities, items.len());
    collapsing_keeps_the_highest_priority(keys, priorities, items.len(), i);
    let p = choose|p: int|
        0 <= p < kept.len() && keys[#[trigger] kept[p]] == keys[i] && priorities[kept[p]]
            >= priorities[i];
    let j = kept[p];
    assert(same_movie(items[j].0, items[i].0));
    assert(shown[p] == items[j].0);
    assert forall|p: int, q: int| 0 <= p < q < shown.len() implies !same_movie(
        #[trigger] shown[p],
        #[trigger] shown[q],
    ) by {
        assert(shown[p] == items[kept[p]].0);
        assert(shown[q] == items[kept[q]].0);
    }
}

/// Whether two entries are the same one or have the same key.
pub open spec fn same_entry(keys: Seq<Option<Seq<char>>>, i: int, j: int) -> bool {
    i == j || (keys[i] is Some && keys[i] == keys[j])
}

/// Of two remaining entries the one stands first whose key came first: before
/// every entry with the key of the later one there is one with the key of the
/// earlier one.
pub proof fn what_came_first_stands_first(
    keys: Seq<Option<Seq<char>>>,
    priorities: Seq<i32>,
    n: nat,
    p: int,
    q: int,
    i: int,
)
    requires
        n <= keys.len(),
        keys.len() == priorities.len(),
        0 <= p < q < collapsed(keys, priorities, n).len(),
        0 <= i < n,
        same_entry(keys, i, collapsed(keys, priorities, n)[q]),
    ensures
        exists|j: int|
            0 <= j < i && #[trigger] same_entry(keys, j, collapsed(keys, priorities, n)[p]),
    decreases n,
{
    let m = (n - 1) as nat;
    let kept = collapsed(keys, priorities, m);
    let after = collapsed(keys, priorities, n);
    collapsing_keeps_first_places(keys, priorities, m);
    collapsing_keeps_keys_apart(keys, priorities, m);
    if keys[n - 1] is Some {
        place_of_key_is_of_key(keys, kept, keys[n - 1]->0);
    }
    assert(keys[after[p]] == keys[kept[p]]);
    assert(0 <= kept[p] < m);
    if q == kept.len() {
        assert(after[q] == n - 1);
        if i < n - 1 {
            collapsing_keeps_the_highest_priority(keys, priorities, m, i);
            assert(false);
        }
        assert(after[p] == kept[p]);
        assert(same_entry(keys, kept[p], after[p]));
    } else {
        assert(keys[after[q]] == keys[kept[q]]);
        assert(0 <= kept[q] < m);
        if i < n - 1 {
            assert(same_entry(keys, i, kept[q]));
            what_came_first_stands_first(keys, priorities, m, p, q, i);
            let j = choose|j: int| 0 <= j < i && #[trigger] same_entry(keys, j, kept[p]);
            assert(same_entry(keys, j, after[p]));
        } else {
            assert(keys[n - 1] is Some);
            assert(keys[kept[p]] != keys[kept[q]] || keys[kept[p]] is None);
            assert(after[p] == kept[p]);
            assert(same_entry(keys, kept[p], after[p]));
        }
    }
}

/// Whether a space and an opening bracket stand at the place.
pub open spec fn opens_bracket(name: Seq<char>, k: int) -> bool {
    0 <= k && k + 1 < name.len() && name[k] == ' ' && name[k + 1] == '['
}

proof fn bracket_characters(name: Seq<char>, k: int)
    requires
        0 <= k,
    ensures
        text::occurs_at(name, " ["@, k) <==> opens_bracket(name, k),
{
    reveal_strlit(" [");
    if opens_bracket(name, k) {
        assert(name.subrange(k, k + 2) =~= " ["@);
    }
    if text::occurs_at(name, " ["@, k) {
        assert(name.subrange(k, k + 2)[0] == name[k]);
        assert(name.subrange(k, k + 2)[1] == name[k + 1]);
    }
}

proof fn last_occurrence_is_last(name: Seq<char>, n: nat)
    ensures
        match last_occurrence(name, " ["@, n) {
            Some(i) => 0 <= i < n && opens_bracket(name, i) && forall|k: int|
                i < k < n ==> !#[trigger] opens_bracket(name, k),
            None => forall|k: int| 0 <= k < n ==> !#[trigger] opens_bracket(name, k),
        },
    decreases n,
{
    if n > 0 {
        bracket_characters(name, n - 1);
        last_occurrence_is_last(name, (n - 1) as nat);
    }
}

/// The base name is what stands before the last space with an opening bracket
/// behind it; a name without these is its own base name.
pub proof fn base_names_end_before_the_last_bracket(name: Seq<char>)
    ensures
        ({
            let base = base_name(name);
            &&& base.len() <= name.len()
            &&& base == name.take(base.len() as int)
            &&& base.len() < name.len() ==> opens_bracket(name, base.len() as int)
            &&& forall|k: int| k > base.len() ==> !#[trigger] opens_bracket(name, k)
            &&& base.len() == name.len() ==> forall|k: int| !#[trigger] opens_bracket(name, k)
        }),
{
    last_occurrence_is_last(name, name.len());
    assert(name.take(name.len() as int) =~= name);
}

/// The name of an item, empty where it has none.
pub open spec fn shown_name(item: ItemView) -> Seq<char> {
    match item.name {
        Some(n) => n,
        None => Seq::empty(),
    }
}

/// Whether two libraries are of one type and have the same name, the server's
/// name behind it and letter case aside.
pub open spec fn alike(a: ItemView, b: ItemView) -> bool {
    &&& a.collection_type is Some
    &&& a.collection_type == b.collection_type
    &&& text::lowercased(base_name(shown_name(a))) == text::lowercased(base_name(shown_name(b)))
}

/// Whether no library type has a bar in its name.
pub open spec fn plain_types(items: Seq<(ItemView, i32)>) -> bool {
    forall|i: int|
        0 <= i < items.len() ==> ((#[trigger] items[i]).0.collection_type matches Some(t)
            ==> !t.contains('|'))
}

/// Items have a merge key exactly where they are libraries on a known server.
/// Libraries that are alike have the same key, on whatever servers they are.
/// Two with the same key are alike: in their base names where the types are
/// equal, in their types where the base names are, and in both where no bar
/// stands in either type.
pub proof fn merge_keys_tell_libraries_apart(
    a: ItemView,
    a_server: Option<i64>,
    b: ItemView,
    b_server: Option<i64>,
)
    ensures
        view_key(a, a_server) is Some <==> a.collection_type is Some && a_server is Some,
        a_server is Some && b_server is Some && alike(a, b) ==> view_key(a, a_server) is Some
            && view_key(a, a_server) == view_key(b, b_server),
        view_key(a, a_server) is Some && view_key(a, a_server) == view_key(b, b_server) ==> {
            let x = text::lowercased(base_name(shown_name(a)));
            let y = text::lowercased(base_name(shown_name(b)));
            &&& a.collection_type == b.collection_type ==> alike(a, b)
            &&& x == y ==> alike(a, b)
            &&& !(a.collection_type->0).contains('|') && !(b.collection_type->0).contains('|')
                ==> alike(a, b)
        },
{
    reveal_strlit("|");
    if view_key(a, a_server) is Some && view_key(a, a_server) == view_key(b, b_server) {
        let x = text::lowercased(base_name(shown_name(a)));
        let y = text::lowercased(base_name(shown_name(b)));
        let t = a.collection_type->0;
        let u = b.collection_type->0;
        assert(x + "|"@ + t =~= x.push('|') + t);
        assert(y + "|"@ + u =~= y.push('|') + u);
        let k = x.push('|') + t;
        let l = y.push('|') + u;
        assert(k == l);
        if t == u {
            assert(x.len() == y.len());
            assert forall|c: int| 0 <= c < x.len() implies x[c] == y[c] by {
                assert(k[c] == x[c] && l[c] == y[c]);
            }
            assert(x =~= y);
        }
        if x == y {
            assert(t.len() == u.len());
            assert forall|c: int| 0 <= c < t.len() implies t[c] == u[c] by {
                assert(k[x.len() + 1 + c] == t[c] && l[x.len() + 1 + c] == u[c]);
            }
            assert(t =~= u);
        }
        if !t.contains('|') && !u.contains('|') {
            text::last_separator_splits(x, y, '|', t, u);
        }
    }
}

/// Every library on a known server has one listed that is alike and of at least
/// its priority, no two of those listed are alike, and everything else is
/// listed as it was.
pub proof fn one_of_the_libraries_that_are_alike_is_listed(
    items: Seq<(ItemView, i32)>,
    servers: Seq<Option<i64>>,
)
    requires
        items.len() == servers.len(),
        plain_types(items),
    ensures
        ({
            let kept = collapsed(view_keys(items, servers), priorities_of(items), items.len());
            &&& forall|p: int| 0 <= p < kept.len() ==> 0 <= #[trigger] kept[p] < items.len()
            &&& forall|i: int|
                0 <= i < items.len() && (#[trigger] items[i]).0.collection_type is Some
                    && servers[i] is Some ==> exists|p: int|
                    0 <= p < kept.len() && alike(items[#[trigger] kept[p]].0, items[i].0)
                        && servers[kept[p]] is Some && items[kept[p]].1 >= items[i].1
            &&& forall|p: int, q: int|
                0 <= p < q < kept.len() && servers[#[trigger] kept[p]] is Some
                    && servers[#[trigger] kept[q]] is Some ==> !alike(
                    items[kept[p]].0,
                    items[kept[q]].0,
                )
            &&& kept.filter(|i: int| items[i].0.collection_type is None || servers[i] is None)
                == Seq::new(items.len(), |i: int| i).filter(
                |i: int| items[i].0.collection_type is None || servers[i] is None,
            )
        }),
{
    let keys = view_keys(items, servers);
    let priorities = priorities_of(items);
    let kept = collapsed(keys, priorities, items.len());
    collapsing_keeps_first_places(keys, priorities, items.len());
    collapsing_keeps_keys_apart(keys, priorities, items.len());
    assert forall|i: int|
        0 <= i < items.len() && (#[trigger] items[i]).0.collection_type is Some
            && servers[i] is Some implies exists|p: int|
        0 <= p < kept.len() && alike(items[#[trigger] kept[p]].0, items[i].0)
            && servers[kept[p]] is Some && items[kept[p]].1 >= items[i].1 by {
        merge_keys_tell_libraries_apart(items[i].0, servers[i], items[i].0, servers[i]);
        assert(keys[i] == view_key(items[i].0, servers[i]));
        collapsing_keeps_the_highest_priority(keys, priorities, items.len(), i);
        let p = choose|p: int|
            0 <= p < kept.len() && keys[#[trigger] kept[p]] == keys[i] && priorities[kept[p]]
                >= priorities[i];
        let j = kept[p];
        assert(keys[j] == view_key(items[j].0, servers[j]));
        merge_keys_tell_libraries_apart(items[j].0, servers[j], items[i].0, servers[i]);
        assert(plain_types(items));
        assert(items[j].0.collection_type matches Some(t) ==> !t.contains('|'));
        assert(items[i].0.collection_type matches Some(t) ==> !t.contains('|'));
        assert(alike(items[kept[p]].0, items[i].0));
    }
    assert forall|p: int, q: int|
        0 <= p < q < kept.len() && servers[#[trigger] kept[p]] is Some
            && servers[#[trigger] kept[q]] is Some implies !alike(
        items[kept[p]].0,
        items[kept[q]].0,
    ) by {
        let i = kept[p];
        let j = kept[q];
        assert(keys[i] == view_key(items[i].0, servers[i]));
        assert(keys[j] == view_key(items[j].0, servers[j]));
        merge_keys_tell_libraries_apart(items[i].0, servers[i], items[j].0, servers[j]);
    }
    let f = |i: int| items[i].0.collection_type is None || servers[i] is None;
    assert forall|i: int| 0 <= i < items.len() && #[trigger] f(i) implies keys[i] is None by {
        merge_keys_tell_libraries_apart(items[i].0, servers[i], items[i].0, servers[i]);
        assert(keys[i] == view_key(items[i].0, servers[i]));
    }
    entries_without_a_key_remain(keys, priorities, items.len(), f);
}

/// The members of a group are the libraries with its key, in their order: gives
/// the places that they have in the list.
pub proof fn members_are_the_libraries_with_the_key(
    items: Seq<(ItemView, i32)>,
    servers: Seq<Option<i64>>,
    key: Seq<char>,
    n: nat,
) -> (at: Seq<int>)
    requires
        n <= items.len(),
    ensures
        at.len() == members_with(items, servers, key, n).len(),
        forall|k: int|
            0 <= k < at.len() ==> 0 <= #[trigger] at[k] < n && view_key(
                items[at[k]].0,
                servers[at[k]],
            ) == Some(key) && members_with(items, servers, key, n)[k] == (
                servers[at[k]]->0,
                items[at[k]].0.id,
            ),
        forall|j: int, k: int| 0 <= j < k < at.len() ==> #[trigger] at[j] < #[trigger] at[k],
        forall|i: int|
            0 <= i < n && view_key((#[trigger] items[i]).0, servers[i]) == Some(key)
                ==> at.contains(i),
    decreases n,
{
    if n == 0 {
        Seq::empty()
    } else {
        let before = members_are_the_libraries_with_the_key(items, servers, key, (n - 1) as nat);
        if view_key(items[n - 1].0, servers[n - 1]) == Some(key) {
            let at = before.push(n - 1);
            assert(at[before.len() as int] == n - 1);
            assert forall|i: int|
                0 <= i < n && view_key((#[trigger] items[i]).0, servers[i]) == Some(
                    key,
                ) implies at.contains(i) by {
                if i < n - 1 {
                    let k = choose|k: int| 0 <= k < before.len() && before[k] == i;
                    assert(at[k] == i);
                }
            }
            at
        } else {
            before
        }
    }
}

/// A library is in the group of another exactly where the two are alike and the
/// server of each is known: the group holds those, by server and id, in the
/// order of the list, and libraries that differ in type or base name never
/// share a group. Gives the places that the members have in the list.
pub proof fn groups_hold_the_libraries_that_are_alike(
    items: Seq<(ItemView, i32)>,
    servers: Seq<Option<i64>>,
    i: int,
) -> (at: Seq<int>)
    requires
        items.len() == servers.len(),
        plain_types(items),
        0 <= i < items.len(),
        items[i].0.collection_type is Some,
        servers[i] is Some,
    ensures
        ({
            let group = members_with(
                items,
                servers,
                view_key(items[i].0, servers[i])->0,
                items.len(),
            );
            &&& at.len() == group.len()
            &&& forall|k: int|
                0 <= k < at.len() ==> 0 <= #[trigger] at[k] < items.len() && alike(
                    items[at[k]].0,
                    items[i].0,
                ) && servers[at[k]] == Some(group[k].0) && items[at[k]].0.id == group[k].1
            &&& forall|j: int, k: int| 0 <= j < k < at.len() ==> #[trigger] at[j] < #[trigger] at[k]
            &&& forall|j: int|
                0 <= j < items.len() && servers[j] is Some && alike(
                    (#[trigger] items[j]).0,
                    items[i].0,
                ) ==> at.contains(j)
        }),
{
    merge_keys_tell_libraries_apart(items[i].0, servers[i], items[i].0, servers[i]);
    let key = view_key(items[i].0, servers[i])->0;
    let at = members_are_the_libraries_with_the_key(items, servers, key, items.len());
    assert forall|k: int| 0 <= k < at.len() implies 0 <= #[trigger] at[k] < items.len() && alike(
        items[at[k]].0,
        items[i].0,
    ) && servers[at[k]] is Some by {
        let j = at[k];
        merge_keys_tell_libraries_apart(items[j].0, servers[j], items[i].0, servers[i]);
        assert(items[j].0.collection_type matches Some(t) ==> !t.contains('|'));
        assert(items[i].0.collection_type matches Some(t) ==> !t.contains('|'));
    }
    assert forall|j: int|
        0 <= j < items.len() && servers[j] is Some && alike(
            (#[trigger] items[j]).0,
            items[i].0,
        ) implies at.contains(j) by {
        merge_keys_tell_libraries_apart(items[j].0, servers[j], items[i].0, servers[i]);
    }
    at
}

/// Libraries of different types or base names both remain in the listing: each
/// has an entry of its own that is alike.
pub proof fn different_libraries_both_remain(
    items: Seq<(ItemView, i32)>,
    servers: Seq<Option<i64>>,
    i: int,
    j: int,
)
    requires
        items.len() == servers.len(),
        plain_types(items),
        0 <= i < items.len(),
        0 <= j < items.len(),
        items[i].0.collection_type is Some,
        items[j].0.collection_type is Some,
        servers[i] is Some,
        servers[j] is Some,
        items[i].0.collection_type != items[j].0.collection_type || text::lowercased(
            base_name(shown_name(items[i].0)),
        ) != text::lowercased(base_name(shown_name(items[j].0))),
    ensures
        ({
            let kept = collapsed(view_keys(items, servers), priorities_of(items), items.len());
            exists|p: int, q: int|
                0 <= p < kept.len() && 0 <= q < kept.len() && p != q && alike(
                    items[#[trigger] kept[p]].0,
                    items[i].0,
                ) && alike(items[#[trigger] kept[q]].0, items[j].0)
        }),
{
    one_of_the_libraries_that_are_alike_is_listed(items, servers);
    let kept = collapsed(view_keys(items, servers), priorities_of(items), items.len());
    let p = choose|p: int|
        0 <= p < kept.len() && alike(items[#[trigger] kept[p]].0, items[i].0)
            && servers[kept[p]] is Some && items[kept[p]].1 >= items[i].1;
    let q = choose|q: int|
        0 <= q < kept.len() && alike(items[#[trigger] kept[q]].0, items[j].0)
            && servers[kept[q]] is Some && items[kept[q]].1 >= items[j].1;
    assert(p != q);
}

/// Whether the entry is the item at a place of a backend's answer, with the
/// backend's priority.
pub open spec fn stands_at(
    answers: Seq<(i32, Seq<ItemView>)>,
    entry: (ItemView, i32),
    at: (int, int),
) -> bool {
    &&& 0 <= at.0 < answers.len()
    &&& 0 <= at.1 < answers[at.0].1.len()
    &&& entry == (answers[at.0].1[at.1], answers[at.0].0)
}

/// Whether a place, given by backend and position, has its turn before another:
/// the position counts first, and then the backend.
pub open spec fn has_turn_before(a: (int, int), b: (int, int)) -> bool {
    a.1 < b.1 || a.1 == b.1 && a.0 < b.0
}

/// Whether the entries stand at these places, each of which has its turn before
/// the next.
pub open spec fn taken_in_turns(
    answers: Seq<(i32, Seq<ItemView>)>,
    out: Seq<(ItemView, i32)>,
    at: Seq<(int, int)>,
) -> bool {
    &&& at.len() == out.len()
    &&& forall|k: int| 0 <= k < at.len() ==> stands_at(answers, #[trigger] out[k], at[k])
    &&& forall|j: int, k: int|
        0 <= j < k < at.len() ==> has_turn_before(#[trigger] at[j], #[trigger] at[k])
}

proof fn round_is_taken_in_turns(
    out: Seq<(ItemView, i32)>,
    answers: Seq<(i32, Seq<ItemView>)>,
    i: int,
    n: nat,
    from: Seq<(int, int)>,
) -> (at: Seq<(int, int)>)
    requires
        0 <= i,
        n <= answers.len(),
        taken_in_turns(answers, out, from),
        forall|k: int| 0 <= k < from.len() ==> (#[trigger] from[k]).1 < i,
    ensures
        taken_in_turns(answers, round(out, answers, i, n), at),
        from.len() <= at.len(),
        at.take(from.len() as int) == from,
        forall|k: int|
            0 <= k < at.len() ==> (#[trigger] at[k]).1 < i || at[k].1 == i && at[k].0 < n,
        forall|b: int|
            0 <= b < n && i < (#[trigger] answers[b]).1.len() ==> at.contains((b, i)) || (
            is_live_tv(answers[b].1[i]) && exists|k: int|
                0 <= k < at.len() && has_turn_before(#[trigger] at[k], (b, i)) && is_live_tv(
                    answers[at[k].0].1[at[k].1],
                )),
    decreases n,
{
    if n == 0 {
        assert(from.take(from.len() as int) =~= from);
        from
    } else {
        let before = round_is_taken_in_turns(out, answers, i, (n - 1) as nat, from);
        let listed = round(out, answers, i, (n - 1) as nat);
        let (priority, list) = answers[n - 1];
        let after = round(out, answers, i, n);
        if i < list.len() && after.len() > listed.len() {
            let at = before.push((n - 1, i));
            assert(at.take(from.len() as int) =~= before.take(from.len() as int));
            assert forall|k: int| 0 <= k < at.len() implies stands_at(
                answers,
                #[trigger] after[k],
                at[k],
            ) by {
                if k < listed.len() {
                    assert(after[k] == listed[k]);
                }
            }
            assert(at[before.len() as int] == (n - 1, i));
            assert forall|b: int|
                0 <= b < n && i < (#[trigger] answers[b]).1.len() implies at.contains((b, i)) || (
            is_live_tv(answers[b].1[i]) && exists|k: int|
                0 <= k < at.len() && has_turn_before(#[trigger] at[k], (b, i)) && is_live_tv(
                    answers[at[k].0].1[at[k].1],
                )) by {
                if b < n - 1 {
                    if before.contains((b, i)) {
                        let k = choose|k: int| 0 <= k < before.len() && before[k] == (b, i);
                        assert(at[k] == (b, i));
                    } else {
                        let k = choose|k: int|
                            0 <= k < before.len() && has_turn_before(
                                #[trigger] before[k],
                                (b, i),
                            ) && is_live_tv(answers[before[k].0].1[before[k].1]);
                        assert(at[k] == before[k]);
                    }
                }
            }
            at
        } else {
            if i < list.len() {
                let k = choose|k: int| 0 <= k < listed.len() && is_live_tv((#[trigger] listed[k]).0);
                assert(stands_at(answers, listed[k], before[k]));
                assert(has_turn_before(before[k], (n - 1, i)));
            }
            before
        }
    }
}

proof fn rounds_are_taken_in_turns(
    answers: Seq<(i32, Seq<ItemView>)>,
    n: nat,
) -> (at: Seq<(int, int)>)
    ensures
        taken_in_turns(answers, rounds(answers, n), at),
        forall|k: int| 0 <= k < at.len() ==> (#[trigger] at[k]).1 < n,
        forall|b: int, i: int|
            0 <= b < answers.len() && 0 <= i < n && i < answers[b].1.len() ==> #[trigger] at.contains(
                (b, i),
            ) || (is_live_tv(answers[b].1[i]) && exists|k: int|
                0 <= k < at.len() && has_turn_before(#[trigger] at[k], (b, i)) && is_live_tv(
                    answers[at[k].0].1[at[k].1],
                )),
    decreases n,
{
    if n == 0 {
        Seq::empty()
    } else {
        let from = rounds_are_taken_in_turns(answers, (n - 1) as nat);
        let at = round_is_taken_in_turns(
            rounds(answers, (n - 1) as nat),
            answers,
            n - 1,
            answers.len(),
            from,
        );
        assert forall|b: int, i: int|
            0 <= b < answers.len() && 0 <= i < n && i < answers[b].1.len() implies #[trigger] at.contains(
            (b, i),
        ) || (is_live_tv(answers[b].1[i]) && exists|k: int|
            0 <= k < at.len() && has_turn_before(#[trigger] at[k], (b, i)) && is_live_tv(
                answers[at[k].0].1[at[k].1],
            )) by {
            if i < n - 1 {
                if from.contains((b, i)) {
                    let k = choose|k: int| 0 <= k < from.len() && from[k] == (b, i);
                    assert(at.take(from.len() as int)[k] == at[k]);
                    assert(at[k] == (b, i));
                } else {
                    assert(!from.contains((b, i)));
                    let k = choose|k: int|
                        0 <= k < from.len() && has_turn_before(#[trigger] from[k], (b, i))
                            && is_live_tv(answers[from[k].0].1[from[k].1]);
                    assert(at.take(from.len() as int)[k] == at[k]);
                    assert(at[k] == from[k]);
                }
            } else {
                assert(i < answers[b].1.len());
            }
        }
        at
    }
}

/// The backends take turns: first the first items of all of them in the order
/// of the backends, then the second ones, and so on. Each item is listed once,
/// with the priority of its backend, and the only ones left out are Live TV
/// libraries that come after another one. Gives the backend and the position of
/// every entry.
pub proof fn backends_take_turns(answers: Seq<(i32, Seq<ItemView>)>) -> (at: Seq<(int, int)>)
    ensures
        taken_in_turns(answers, interleaved(answers), at),
        forall|b: int, i: int|
            0 <= b < answers.len() && 0 <= i < answers[b].1.len() ==> #[trigger] at.contains(
                (b, i),
            ) || (is_live_tv(answers[b].1[i]) && exists|k: int|
                0 <= k < at.len() && has_turn_before(#[trigger] at[k], (b, i)) && is_live_tv(
                    answers[at[k].0].1[at[k].1],
                )),
        forall|j: int, k: int|
            0 <= j < k < at.len() ==> !(is_live_tv(answers[(#[trigger] at[j]).0].1[at[j].1])
                && is_live_tv(answers[(#[trigger] at[k]).0].1[at[k].1])),
{
    let n = longest(answers, answers.len());
    let at = rounds_are_taken_in_turns(answers, n);
    assert forall|b: int, i: int| 0 <= b < answers.len() && 0 <= i < answers[b].1.len() implies
        #[trigger] at.contains((b, i)) || (is_live_tv(answers[b].1[i]) && exists|k: int|
        0 <= k < at.len() && has_turn_before(#[trigger] at[k], (b, i)) && is_live_tv(
            answers[at[k].0].1[at[k].1],
        )) by {
        no_answer_is_longer(answers, answers.len(), b);
    }
    one_live_tv_library(answers, n);
    let out = interleaved(answers);
    assert forall|j: int, k: int| 0 <= j < k < at.len() implies !(is_live_tv(
        answers[(#[trigger] at[j]).0].1[at[j].1],
    ) && is_live_tv(answers[(#[trigger] at[k]).0].1[at[k].1])) by {
        assert(stands_at(answers, out[j], at[j]));
        assert(stands_at(answers, out[k], at[k]));
    }
    at
}

/// The Live TV library is the user view of the type that is spelled so.
pub proof fn live_tv_is_a_user_view_of_its_type(item: ItemView)
    ensures
        is_live_tv(item) <==> item.item_type == ItemKind::UserView && item.collection_type == Some(
            seq!['L', 'i', 'v', 'e', 'T', 'v'],
        ),
{
    reveal_strlit("LiveTv");
    assert("LiveTv"@ =~= seq!['L', 'i', 'v', 'e', 'T', 'v']);
}

/// Without dedup the listing is every item as it came; with dedup everything
/// that is neither a library on a known server nor a movie is listed as often as
/// it came, and in the same order.
pub proof fn listings_lose_libraries_and_movies_only(
    items: Seq<(ItemView, i32)>,
    servers: Seq<Option<i64>>,
)
    requires
        items.len() == servers.len(),
    ensures
        listed(items, None).len() == items.len(),
        forall|i: int|
            0 <= i < items.len() ==> #[trigger] listed(items, None)[i] == items[i].0,
        listed(items, Some(servers)).filter(
            |x: ItemView| x.collection_type is None && x.item_type != ItemKind::Movie,
        ) == listed(items, None).filter(
            |x: ItemView| x.collection_type is None && x.item_type != ItemKind::Movie,
        ),
{
    let h = |x: ItemView| x.collection_type is None && x.item_type != ItemKind::Movie;
    let keys = view_keys(items, servers);
    let kept = collapsed(keys, priorities_of(items), items.len());
    let all = Seq::new(items.len(), |i: int| i);
    let g = |i: int| items[i].0;
    let f = |i: int| h(g(i));
    assert forall|i: int| 0 <= i < items.len() && #[trigger] f(i) implies keys[i] is None by {
        merge_keys_tell_libraries_apart(items[i].0, servers[i], items[i].0, servers[i]);
        assert(keys[i] == view_key(items[i].0, servers[i]));
    }
    entries_without_a_key_remain(keys, priorities_of(items), items.len(), f);
    filter_of_mapped(kept, g, h);
    filter_of_mapped(all, g, h);
    assert(all.map_values(g) =~= listed(items, None));
    let merged = kept.map_values(|i: int| items[i]);
    assert(merged.map_values(|e: (ItemView, i32)| e.0) =~= kept.map_values(g));
    let movies = movie_keys(merged);
    let g2 = |i: int| merged[i].0;
    let f2 = |i: int| h(g2(i));
    let places = Seq::new(merged.len(), |i: int| i);
    assert forall|i: int| 0 <= i < merged.len() && #[trigger] f2(i) implies movies[i] is None by {
        only_movies_have_a_dedup_key(merged[i].0);
        assert(movies[i] == movie_key(merged[i].0));
    }
    entries_without_a_key_remain(movies, priorities_of(merged), merged.len(), f2);
    let shown = collapsed(movies, priorities_of(merged), merged.len());
    filter_of_mapped(shown, g2, h);
    filter_of_mapped(places, g2, h);
    assert(shown.map_values(g2) =~= deduped_movies(merged));
    assert(places.map_values(g2) =~= merged.map_values(|e: (ItemView, i32)| e.0));
}

}
