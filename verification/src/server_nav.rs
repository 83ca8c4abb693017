//! The server switcher of the web client.
use vstd::prelude::*;
use vstd::string::*;

use crate::text;

verus! {

/// What the switcher shows of a backend.
#[derive(Debug)]
pub struct ServerInfo {
    pub id: i64,
    pub name: String,
}

/// The ids and names that are shown.
pub open spec fn shown_servers(v: Seq<ServerInfo>) -> Seq<(i64, Seq<char>)> {
    v.map_values(|s: ServerInfo| (s.id, s.name@))
}

/// The ids and names of backends.
pub open spec fn named_servers(v: Seq<(i64, String)>) -> Seq<(i64, Seq<char>)> {
    v.map_values(|s: (i64, String)| (s.0, s.1@))
}

/// The federated backends, for the switcher.
pub fn list_servers(servers: &Vec<(i64, String)>) -> (r: Vec<ServerInfo>)
    ensures
        shown_servers(r@) == named_servers(servers@),
        r.len() == servers.len(),
        forall|i: int|
            0 <= i < r.len() ==> (#[trigger] r[i]).id == servers[i].0 && r[i].name@
                == servers[i].1@,
{
    let mut out: Vec<ServerInfo> = Vec::new();
    for i in 0..servers.len()
        invariant
            out.len() == i,
            forall|k: int|
                0 <= k < i ==> (#[trigger] out[k]).id == servers[k].0 && out[k].name@
                    == servers[k].1@,
            shown_servers(out@) == named_servers(servers@).take(i as int),
    {
        let ghost before = shown_servers(out@);
        out.push(ServerInfo { id: servers[i].0, name: servers[i].1.clone() });
        assert(shown_servers(out@) =~= before.push(named_servers(servers@)[i as int]));
        assert(shown_servers(out@) =~= named_servers(servers@).take(i + 1));
    }
    assert(named_servers(servers@).take(servers.len() as int) =~= named_servers(servers@));
    out
}

/// The value that the switcher stores for a backend, which scopes requests to
/// it.
pub fn scope_value(id: i64) -> (r: String)
    ensures
        r@ == text::decimal_int(id as int),
{
    text::decimal_i64(id)
}

/// Picking a backend in the switcher scopes requests to that backend: the
/// stored value reads back as its id.
pub proof fn switcher_scopes_to_the_backend(id: i64)
    ensures
        text::parsed_i64(text::decimal_int(id as int)) == Some(id),
{
    text::decimal_int_reads_back(id as int);
}

}
