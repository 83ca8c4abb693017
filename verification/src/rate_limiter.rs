//! Rate limiting of the authentication endpoints: how much each client may ask
//! and who the client is. Counting is left to the caller's limiter.
use vstd::prelude::*;
use vstd::string::*;

use crate::text;

verus! {

/// How many requests a client may make at once where nothing is configured.
pub const DEFAULT_MAX_REQUESTS: u32 = 5;

/// How many clients are kept track of.
pub const MAX_CLIENTS: u64 = 10_000;

/// The limits for each client.
#[derive(Debug, Clone, Copy, PartialEq, Eq, Structural)]
pub struct AuthRateLimiter {
    /// How many requests may come at once; never zero.
    pub max_requests: u32,
    /// How long it takes until one more request is allowed, in seconds.
    pub window_secs: u64,
    /// How long an idle client is remembered, in seconds.
    pub idle_secs: u64,
}

impl AuthRateLimiter {
    /// The limits for a burst and a window; a burst of zero stands for the
    /// default.
    pub fn new(max_requests: u32, window_secs: u64) -> (r: Self)
        requires
            window_secs * 10 <= u64::MAX,
        ensures
            r.max_requests == (if max_requests == 0 {
                DEFAULT_MAX_REQUESTS
            } else {
                max_requests
            }),
            r.window_secs == window_secs,
            r.idle_secs == window_secs * 10,
            r.max_requests > 0,
    {
        let burst = if max_requests == 0 {
            DEFAULT_MAX_REQUESTS
        } else {
            max_requests
        };
        AuthRateLimiter { max_requests: burst, window_secs, idle_secs: window_secs * 10 }
    }

    /// The usual limits: five requests at once, one more every ten seconds.
    pub fn default_auth_limiter() -> (r: Self)
        ensures
            r.max_requests == 5,
            r.window_secs == 10,
            r.idle_secs == 100,
    {
        Self::new(5, 10)
    }
}

/// The texts that may name the client, in the order in which they count: the
/// first entry of `X-Forwarded-For`, then `X-Real-IP`, both trimmed.
pub open spec fn client_ip_texts(
    forwarded_for: Option<Seq<char>>,
    real_ip: Option<Seq<char>>,
) -> Seq<Seq<char>> {
    let first = match forwarded_for {
        Some(x) => seq![text::trimmed(text::split_on(x, ',')[0])],
        None => Seq::<Seq<char>>::empty(),
    };
    let second = match real_ip {
        Some(x) => seq![text::trimmed(x)],
        None => Seq::<Seq<char>>::empty(),
    };
    first + second
}

/// The texts that may name the client; [`client_position`] says which counts.
pub fn extract_client_ip(forwarded_for: Option<&str>, real_ip: Option<&str>) -> (r: Vec<String>)
    ensures
        text::texts(r@) == client_ip_texts(
            match forwarded_for {
                Some(x) => Some(x@),
                None => None,
            },
            match real_ip {
                Some(x) => Some(x@),
                None => None,
            },
        ),
{
    let mut out: Vec<String> = Vec::new();
    if let Some(x) = forwarded_for {
        let parts = text::split(x, ',');
        assert(text::texts(parts@)[0] == parts[0]@);
        out.push(text::trim(parts[0].as_str()));
    }
    if let Some(x) = real_ip {
        out.push(text::trim(x));
    }
    assert(text::texts(out@) =~= client_ip_texts(
        match forwarded_for {
            Some(x) => Some(x@),
            None => None,
        },
        match real_ip {
            Some(x) => Some(x@),
            None => None,
        },
    ));
    out
}

/// Which of the texts names the client, given whether each is an address: the
/// first that is one. Where none is, direct connections share the unspecified
/// address.
pub fn client_position(is_address: &Vec<bool>) -> (r: Option<usize>)
    ensures
        match r {
            Some(i) => i < is_address.len() && is_address[i as int] && forall|k: int|
                0 <= k < i ==> !#[trigger] is_address[k],
            None => forall|k: int| 0 <= k < is_address.len() ==> !#[trigger] is_address[k],
        },
{
    for i in 0..is_address.len()
        invariant
            forall|k: int| 0 <= k < i ==> !#[trigger] is_address[k],
    {
        if is_address[i] {
            return Some(i);
        }
    }
    None
}

/// A client is named by what stands before the first comma of
/// `X-Forwarded-For`, white space aside, and then by `X-Real-IP`; a header that
/// is not there names nobody.
pub proof fn the_first_forwarded_entry_counts(
    first: Seq<char>,
    rest: Seq<char>,
    real_ip: Seq<char>,
)
    requires
        !first.contains(','),
    ensures
        client_ip_texts(Some(first), None) == seq![text::trimmed(first)],
        client_ip_texts(Some(first.push(',') + rest), None) == seq![text::trimmed(first)],
        client_ip_texts(Some(first.push(',') + rest), Some(real_ip)) == seq![
            text::trimmed(first),
            text::trimmed(real_ip),
        ],
        client_ip_texts(None, Some(real_ip)) == seq![text::trimmed(real_ip)],
        client_ip_texts(None, None).len() == 0,
{
    let parts = seq![first];
    assert(!parts[0].contains(','));
    text::split_of_join(parts, ',');
    assert(text::join(parts, seq![',']) == first);
    assert(text::split_on(first, ',')[0] == first);
    first_part_stays(first, rest);
    let none = Seq::<Seq<char>>::empty();
    assert(client_ip_texts(Some(first), None) =~= seq![text::trimmed(first)]);
    assert(client_ip_texts(Some(first.push(',') + rest), None) =~= seq![text::trimmed(first)]);
    assert(client_ip_texts(Some(first.push(',') + rest), Some(real_ip)) =~= seq![
        text::trimmed(first),
        text::trimmed(real_ip),
    ]);
    assert(client_ip_texts(None, Some(real_ip)) =~= seq![text::trimmed(real_ip)]);
}

proof fn first_part_stays(first: Seq<char>, rest: Seq<char>)
    requires
        !first.contains(','),
    ensures
        text::split_on(first.push(',') + rest, ',').len() >= 2,
        text::split_on(first.push(',') + rest, ',')[0] == first,
    decreases rest.len(),
{
    let s = first.push(',') + rest;
    if rest.len() == 0 {
        let parts = seq![first];
        text::split_of_join(parts, ',');
        assert(text::join(parts, seq![',']) == first);
        assert(s =~= first.push(','));
        assert(s.drop_last() =~= first);
    } else {
        first_part_stays(first, rest.drop_last());
        assert(s.drop_last() =~= first.push(',') + rest.drop_last());
    }
}

/// Five requests at once where nothing is configured, and ten thousand clients
/// that are kept track of.
pub proof fn usual_limits()
    ensures
        DEFAULT_MAX_REQUESTS == 5,
        MAX_CLIENTS == 10_000,
{
}

}
