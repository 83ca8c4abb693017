//! Library-view merge registry.
//!
//! Same libraries across backends are collapsed into one canonical view. The
//! registry remembers, for each kept canonical view id, the per-backend views
//! it stands in for, so that browsing the merged library can fan out across
//! every member backend.
//!
//! Members are pairs of a server id and that backend's view id.
use vstd::hash_map::*;
use vstd::prelude::*;

verus! {

/// Canonical view id to the `(server id, view id)` pairs it stands in for.
pub struct ViewMergeRegistry {
    groups: StringHashMap<Vec<(i64, String)>>,
}

/// The members of a group, view ids by their characters.
pub open spec fn member_views(members: Seq<(i64, String)>) -> Seq<(i64, Seq<char>)> {
    members.map_values(|m: (i64, String)| (m.0, m.1@))
}

impl View for ViewMergeRegistry {
    type V = Map<Seq<char>, Seq<(i64, Seq<char>)>>;

    closed spec fn view(&self) -> Map<Seq<char>, Seq<(i64, Seq<char>)>> {
        self.groups@.map_values(|m: Vec<(i64, String)>| member_views(m@))
    }
}

/// A copy of a member list.
fn copy_members(members: &Vec<(i64, String)>) -> (r: Vec<(i64, String)>)
    ensures
        member_views(r@) == member_views(members@),
{
    let mut out: Vec<(i64, String)> = Vec::new();
    for i in 0..members.len()
        invariant
            member_views(out@) == member_views(members@).take(i as int),
    {
        let ghost before = member_views(out@);
        out.push((members[i].0, members[i].1.clone()));
        assert(member_views(out@) =~= before.push(member_views(members@)[i as int]));
        assert(member_views(out@) =~= member_views(members@).take(i + 1));
    }
    assert(member_views(members@).take(members.len() as int) =~= member_views(members@));
    out
}

impl ViewMergeRegistry {
    /// No merged views.
    pub fn new() -> (r: Self)
        ensures
            r@ == Map::<Seq<char>, Seq<(i64, Seq<char>)>>::empty(),
    {
        let r = ViewMergeRegistry { groups: StringHashMap::new() };
        assert(r@ =~= Map::<Seq<char>, Seq<(i64, Seq<char>)>>::empty());
        r
    }

    /// Record a merge group under its canonical view id. A group with a single
    /// member (the library is on one backend only) is not worth fanning out,
    /// so it is dropped from the registry.
    pub fn register(&mut self, canonical_view_id: String, members: Vec<(i64, String)>)
        ensures
            final(self)@ == registered(old(self)@, canonical_view_id@, member_views(members@)),
    {
        if members.len() > 1 {
            self.groups.insert(canonical_view_id, members);
            assert(self@ =~= registered(old(self)@, canonical_view_id@, member_views(members@)));
        } else {
            self.groups.remove(canonical_view_id.as_str());
            assert(self@ =~= registered(old(self)@, canonical_view_id@, member_views(members@)));
        }
    }

    /// The member backends of a merged view, or `None` if `view_id` is no
    /// merged canonical view (it is browsed on its single backend).
    pub fn members(&self, view_id: &str) -> (r: Option<Vec<(i64, String)>>)
        ensures
            r is Some <==> self@.contains_key(view_id@),
            r matches Some(m) ==> member_views(m@) == self@[view_id@],
    {
        match self.groups.get(view_id) {
            Some(m) => Some(copy_members(m)),
            None => None,
        }
    }
}

/// The registry after `members` were registered under `id`.
pub open spec fn registered(
    groups: Map<Seq<char>, Seq<(i64, Seq<char>)>>,
    id: Seq<char>,
    members: Seq<(i64, Seq<char>)>,
) -> Map<Seq<char>, Seq<(i64, Seq<char>)>> {
    if members.len() > 1 {
        groups.insert(id, members)
    } else {
        groups.remove(id)
    }
}

/// Every group that the registry holds.
pub open spec fn only_real_groups(groups: Map<Seq<char>, Seq<(i64, Seq<char>)>>) -> bool {
    forall|id: Seq<char>| groups.contains_key(id) ==> (#[trigger] groups[id]).len() > 1
}

/// A fresh registry holds merged views only, and registering keeps it so: no
/// view with a single backend is ever fanned out.
pub proof fn registry_holds_merged_views_only(
    groups: Map<Seq<char>, Seq<(i64, Seq<char>)>>,
    id: Seq<char>,
    members: Seq<(i64, Seq<char>)>,
)
    requires
        only_real_groups(groups),
    ensures
        only_real_groups(Map::<Seq<char>, Seq<(i64, Seq<char>)>>::empty()),
        only_real_groups(registered(groups, id, members)),
{
}

/// Registering one view leaves what is known of every other view alone, and
/// the last registration of a view is the one that counts.
pub proof fn registering_affects_one_view(
    groups: Map<Seq<char>, Seq<(i64, Seq<char>)>>,
    id: Seq<char>,
    first: Seq<(i64, Seq<char>)>,
    second: Seq<(i64, Seq<char>)>,
    other: Seq<char>,
)
    requires
        other != id,
    ensures
        registered(groups, id, first).contains_key(other) == groups.contains_key(other),
        groups.contains_key(other) ==> registered(groups, id, first)[other] == groups[other],
        registered(registered(groups, id, first), id, second) =~= registered(groups, id, second),
{
}

/// Two members or more are found under the id they were registered under, and
/// fewer are not found at all.
pub proof fn what_is_registered_is_found(
    groups: Map<Seq<char>, Seq<(i64, Seq<char>)>>,
    id: Seq<char>,
    members: Seq<(i64, Seq<char>)>,
)
    ensures
        registered(groups, id, members).contains_key(id) <==> members.len() >= 2,
        members.len() >= 2 ==> registered(groups, id, members)[id] == members,
{
}

}
