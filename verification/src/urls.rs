//! The calls into the `url` crate, on plain strings.
use vstd::prelude::*;
use vstd::string::*;
use vstd::utf8::*;

use crate::match_key;

verus! {

/// What `url` makes of an address: its serialization and its path, or the
/// words of the error.
pub uninterp spec fn url_parsed(address: Seq<char>) -> Result<(Seq<char>, Seq<char>), Seq<char>>;

/// The serialization and the path of an address with one more path segment;
/// nothing for an address that is invalid or cannot have segments.
pub uninterp spec fn url_with_segment(
    address: Seq<char>,
    segment: Seq<char>,
) -> Option<(Seq<char>, Seq<char>)>;

/// An address resolved against a base, or the words of the error.
pub uninterp spec fn url_joined(
    base: Seq<char>,
    relative: Seq<char>,
) -> Result<Seq<char>, Seq<char>>;

/// The decoded query pairs of an address; nothing for an invalid one.
pub uninterp spec fn url_query_pairs(
    address: Seq<char>,
) -> Option<Seq<(Seq<char>, Seq<char>)>>;

/// An address with its query replaced by the given pairs; nothing for an
/// invalid one.
pub uninterp spec fn url_with_query(
    address: Seq<char>,
    pairs: Seq<(Seq<char>, Seq<char>)>,
) -> Option<Seq<char>>;

/// The decoded pairs of form-encoded bytes.
pub uninterp spec fn form_pairs(bytes: Seq<u8>) -> Seq<(Seq<char>, Seq<char>)>;

/// The places in an address that `url` can count to.
pub const MAX_BYTES: u64 = 0xffff_ffff;

/// A part of an address, from its start on.
#[derive(Debug, Clone, Copy, PartialEq, Eq, Structural)]
pub enum Part {
    /// The scheme.
    Scheme,
    /// Everything up to the end of the path.
    Path,
    /// Everything but the fragment.
    Address,
}

/// Whether a byte stands behind the part.
pub open spec fn ends(part: Part, byte: u8) -> bool {
    match part {
        Part::Scheme => byte == 0x3a,
        Part::Path => byte == 0x3f || byte == 0x23,
        Part::Address => byte == 0x23,
    }
}

/// Where the part ends, looked for from a place on.
pub open spec fn end_from(part: Part, bytes: Seq<u8>, i: int) -> int
    decreases bytes.len() - i,
{
    if i < 0 || i >= bytes.len() || ends(part, bytes[i]) {
        i
    } else {
        end_from(part, bytes, i + 1)
    }
}

/// How many bytes the part of a serialized address takes.
pub open spec fn end_of(part: Part, url: Seq<char>) -> int {
    end_from(part, encode_utf8(url), 0)
}

/// Whether a serialized address has a fragment.
pub open spec fn has_fragment(url: Seq<char>) -> bool {
    end_of(Part::Address, url) < encode_utf8(url).len()
}

/// Whether a serialized address has a path that cannot have segments: nothing
/// behind the scheme, or no slash.
pub open spec fn is_opaque(url: Seq<char>) -> bool {
    let at = end_of(Part::Scheme, url) + 1;
    at >= encode_utf8(url).len() || encode_utf8(url)[at] != 0x2f
}

/// How many bytes a byte takes in a query.
pub open spec fn form_cost(byte: u8) -> nat {
    if 0x30 <= byte <= 0x39 || 0x41 <= byte <= 0x5a || 0x61 <= byte <= 0x7a || byte == 0x2a || byte
        == 0x2d || byte == 0x2e || byte == 0x5f || byte == 0x20 {
        1
    } else {
        3
    }
}

/// How many bytes a text takes in a query.
pub open spec fn form_size(bytes: Seq<u8>) -> nat
    decreases bytes.len(),
{
    if bytes.len() == 0 {
        0
    } else {
        form_size(bytes.drop_last()) + form_cost(bytes.last())
    }
}

/// How many bytes pairs take in a query: a pair has a `=`, and a `&` stands
/// between two.
pub open spec fn encoded_size(pairs: Seq<(Seq<char>, Seq<char>)>) -> nat
    decreases pairs.len(),
{
    if pairs.len() == 0 {
        0
    } else {
        encoded_size(pairs.drop_last()) + form_size(encode_utf8(pairs.last().0)) + form_size(
            encode_utf8(pairs.last().1),
        ) + (if pairs.len() == 1 {
            1nat
        } else {
            2
        })
    }
}

/// Whether the query and the fragment of a serialized address stand where `url`
/// can read them.
pub open spec fn in_reach(url: Seq<char>) -> bool {
    &&& end_of(Part::Path, url) < MAX_BYTES
    &&& has_fragment(url) ==> end_of(Part::Address, url) < MAX_BYTES
}

/// Whether the query of an address stands where `url` can read it. Of an
/// address that is invalid nothing is held.
pub open spec fn is_readable(address: Seq<char>) -> bool {
    match url_parsed(address) {
        Ok((url, _)) => in_reach(url),
        Err(_) => true,
    }
}

/// Whether what stands behind the scheme of an address stands where `url` can
/// read it.
pub open spec fn is_countable(address: Seq<char>) -> bool {
    match url_parsed(address) {
        Ok((url, _)) => end_of(Part::Scheme, url) < MAX_BYTES,
        Err(_) => true,
    }
}

/// Whether the path of an address can take so many bytes more. What stands
/// behind the path moves on.
pub open spec fn can_grow(address: Seq<char>, more: nat) -> bool {
    &&& is_countable(address)
    &&& match url_parsed(address) {
        Ok((url, _)) => is_opaque(url) || {
            &&& end_of(Part::Path, url) + more <= MAX_BYTES
            &&& has_fragment(url) ==> end_of(Part::Address, url) + more <= MAX_BYTES
        },
        Err(_) => true,
    }
}

/// An address resolved against a base, or the words of the error.
pub open spec fn resolved(base: Seq<char>, relative: Seq<char>) -> Result<Seq<char>, Seq<char>> {
    if is_countable(base) {
        url_joined(base, relative)
    } else {
        Err(too_long())
    }
}

/// What is written before pairs that are added to a query: a `?` where there is
/// none yet, a `&` where it holds something.
pub open spec fn lead(url: Seq<char>) -> nat {
    let at = end_of(Part::Path, url);
    if at < encode_utf8(url).len() && encode_utf8(url)[at] == 0x3f && end_of(Part::Address, url)
        == at + 1 {
        0
    } else {
        1
    }
}

/// Whether the query of an address can take pairs of this size more.
pub open spec fn can_append(address: Seq<char>, more: nat) -> bool {
    match url_parsed(address) {
        Ok((url, _)) => in_reach(url) && (has_fragment(url) ==> end_of(Part::Address, url) + lead(
            url,
        ) + more <= MAX_BYTES),
        Err(_) => true,
    }
}

/// Whether an address can take the pairs as its query.
pub open spec fn can_take(address: Seq<char>, pairs: Seq<(Seq<char>, Seq<char>)>) -> bool {
    match url_parsed(address) {
        Ok((url, _)) => in_reach(url) && (has_fragment(url) ==> end_of(Part::Path, url) + 1
            + encoded_size(pairs) <= MAX_BYTES),
        Err(_) => true,
    }
}

/// The words for an address that is longer than `url` can hold.
pub open spec fn too_long() -> Seq<char> {
    "URLs more than 4 GB are not supported"@
}

/// The address with the pairs as its query; nothing where it is invalid or
/// would be longer than `url` can hold.
pub open spec fn requeried(
    address: Seq<char>,
    pairs: Seq<(Seq<char>, Seq<char>)>,
) -> Option<Seq<char>> {
    if can_take(address, pairs) {
        url_with_query(address, pairs)
    } else {
        None
    }
}

/// A pair of strings by their characters.
pub open spec fn pair_text(p: (String, String)) -> (Seq<char>, Seq<char>) {
    (p.0@, p.1@)
}

/// `Url::parse`, with the serialization and `Url::path` of the result.
#[verifier::external_body]
pub(crate) fn parse_url(address: &str) -> (r: Result<(String, String), String>)
    ensures
        (match r {
            Ok(p) => Ok::<_, Seq<char>>(pair_text(p)),
            Err(e) => Err(e@),
        }) == url_parsed(address@),
{
    match url::Url::parse(address) {
        Ok(u) => Ok((u.to_string(), u.path().to_string())),
        Err(e) => Err(e.to_string()),
    }
}

/// `PathSegmentsMut::push` on the parsed address, with the serialization and
/// `Url::path` of the result. A byte of the segment is written as three at
/// most, behind a slash. An empty segment leaves a path that ends with a slash.
#[verifier::external_body]
pub(crate) fn push_segment(address: &str, segment: &str) -> (r: Option<(String, String)>)
    requires
        can_grow(address@, 3 * encode_utf8(segment@).len() + 1),
    ensures
        (match r {
            Some(p) => Some(pair_text(p)),
            None => None,
        }) == url_with_segment(address@, segment@),
        r matches Some(p) ==> segment@.len() == 0 ==> p.1@.len() > 0 && p.1@.last() == '/',
{
    let mut u = url::Url::parse(address).ok()?;
    u.path_segments_mut().ok()?.push(segment);
    Some((u.to_string(), u.path().to_string()))
}

/// `Url::join` on the parsed base.
#[verifier::external_body]
fn join_url(base: &str, relative: &str) -> (r: Result<String, String>)
    requires
        is_countable(base@),
    ensures
        (match r {
            Ok(u) => Ok::<_, Seq<char>>(u@),
            Err(e) => Err(e@),
        }) == url_joined(base@, relative@),
{
    match url::Url::parse(base).and_then(|b| b.join(relative)) {
        Ok(u) => Ok(u.to_string()),
        Err(e) => Err(e.to_string()),
    }
}

/// `Url::query_pairs` on the parsed address.
#[verifier::external_body]
fn query_pairs(address: &str) -> (r: Option<Vec<(String, String)>>)
    requires
        is_readable(address@),
    ensures
        (match r {
            Some(p) => Some(match_key::pair_texts(p@)),
            None => None,
        }) == url_query_pairs(address@),
{
    let u = url::Url::parse(address).ok()?;
    Some(u.query_pairs().map(|(k, v)| (k.into_owned(), v.into_owned())).collect())
}

/// `Url::query_pairs_mut`, cleared and extended by the pairs. The pairs that
/// were written are those that `Url::query_pairs` then reads. A fragment is
/// written behind them, where its place can be counted to.
#[verifier::external_body]
fn set_query(address: &str, pairs: &Vec<(String, String)>) -> (r: Option<String>)
    requires
        can_take(address@, match_key::pair_texts(pairs@)),
    ensures
        (match r {
            Some(u) => Some(u@),
            None => None,
        }) == url_with_query(address@, match_key::pair_texts(pairs@)),
        r matches Some(u) ==> url_query_pairs(u@) == Some(match_key::pair_texts(pairs@)),
{
    let mut u = url::Url::parse(address).ok()?;
    u.query_pairs_mut().clear().extend_pairs(pairs.iter());
    Some(u.to_string())
}

/// `form_urlencoded::parse`, collected.
#[verifier::external_body]
pub(crate) fn parse_form(bytes: &[u8]) -> (r: Vec<(String, String)>)
    ensures
        match_key::pair_texts(r@) == form_pairs(bytes@),
{
    url::form_urlencoded::parse(bytes).map(|(k, v)| (k.into_owned(), v.into_owned())).collect()
}

/// The words for an address that is longer than `url` can hold.
pub(crate) fn too_long_text() -> (r: String)
    ensures
        r@ == too_long(),
{
    "URLs more than 4 GB are not supported".to_owned()
}

/// Says how many bytes the part of a serialized address takes.
fn find_end(part: Part, url: &str) -> (r: u64)
    ensures
        r == end_of(part, url@),
        r <= encode_utf8(url@).len(),
{
    let bytes = url.as_bytes();
    let mut i: usize = 0;
    while i < bytes.len()
        invariant_except_break
            end_from(part, bytes@, i as int) == end_from(part, bytes@, 0),
        invariant
            i <= bytes.len(),
            bytes@ == encode_utf8(url@),
        ensures
            i as int == end_from(part, bytes@, 0),
        decreases bytes.len() - i,
    {
        let byte = bytes[i];
        let found = match part {
            Part::Scheme => byte == 0x3a,
            Part::Path => byte == 0x3f || byte == 0x23,
            Part::Address => byte == 0x23,
        };
        if found {
            break;
        }
        i = i + 1;
    }
    i as u64
}

/// The places in a serialized address: the ends of its scheme and of its path,
/// the place of its fragment where it has one, and what is written before more
/// pairs.
struct Places {
    scheme: u64,
    path: u64,
    fragment: Option<u64>,
    lead: u64,
    opaque: bool,
}

fn places_in(url: &str) -> (r: Places)
    ensures
        r.scheme == end_of(Part::Scheme, url@),
        r.path == end_of(Part::Path, url@),
        match r.fragment {
            Some(at) => has_fragment(url@) && at == end_of(Part::Address, url@),
            None => !has_fragment(url@),
        },
        r.lead == lead(url@),
        r.opaque == is_opaque(url@),
{
    let bytes = url.as_bytes();
    let size = bytes.len() as u64;
    let scheme = find_end(Part::Scheme, url);
    let path = find_end(Part::Path, url);
    let rest = find_end(Part::Address, url);
    let fragment = if rest < size {
        Some(rest)
    } else {
        None
    };
    let empty_query = path < size && bytes[path as usize] == 0x3f && rest == path + 1;
    let lead: u64 = if empty_query {
        0
    } else {
        1
    };
    let opaque = scheme >= size || scheme + 1 >= size || bytes[(scheme + 1) as usize] != 0x2f;
    Places { scheme, path, fragment, lead, opaque }
}

fn reaches(p: &Places) -> (r: bool)
    ensures
        r == (p.path < MAX_BYTES && (p.fragment matches Some(at) ==> at < MAX_BYTES)),
{
    p.path < MAX_BYTES && match p.fragment {
        Some(at) => at < MAX_BYTES,
        None => true,
    }
}

/// Says whether the path of an address can take so many bytes more.
pub fn room_to_grow(address: &str, more: u64) -> (r: bool)
    ensures
        r == can_grow(address@, more as nat),
{
    match parse_url(address) {
        Ok((url, _)) => {
            let p = places_in(url.as_str());
            p.scheme < MAX_BYTES && (p.opaque || (p.path <= MAX_BYTES && more <= MAX_BYTES - p.path
                && match p.fragment {
                Some(at) => at <= MAX_BYTES && more <= MAX_BYTES - at,
                None => true,
            }))
        },
        Err(_) => true,
    }
}

/// Says whether the query of an address can take pairs of this size more.
/// Without a size they are larger than `url` can hold.
pub fn room_to_append(address: &str, more: Option<u64>) -> (r: bool)
    ensures
        more matches Some(n) ==> r == can_append(address@, n as nat),
        more is None ==> forall|n: nat| n > MAX_BYTES ==> r == #[trigger] can_append(address@, n),
{
    match parse_url(address) {
        Ok((url, _)) => {
            let p = places_in(url.as_str());
            reaches(&p) && match (p.fragment, more) {
                (Some(at), Some(n)) => n <= MAX_BYTES && at + p.lead <= MAX_BYTES - n,
                (Some(_), None) => false,
                (None, _) => true,
            }
        },
        Err(_) => true,
    }
}

proof fn texts_do_not_shrink(bytes: Seq<u8>)
    ensures
        bytes.len() <= form_size(bytes),
    decreases bytes.len(),
{
    if bytes.len() > 0 {
        texts_do_not_shrink(bytes.drop_last());
    }
}

/// Says how many bytes a text takes in a query; nothing where that is more than
/// `url` can hold.
pub fn size_of_text(text: &str) -> (r: Option<u64>)
    ensures
        match r {
            Some(n) => n == form_size(encode_utf8(text@)) && n <= MAX_BYTES,
            None => form_size(encode_utf8(text@)) > MAX_BYTES,
        },
{
    let bytes = text.as_bytes();
    proof {
        texts_do_not_shrink(bytes@);
    }
    if bytes.len() as u64 > MAX_BYTES {
        return None;
    }
    let mut size: u64 = 0;
    assert(form_size(bytes@.take(0)) == 0);
    for i in 0..bytes.len()
        invariant
            bytes@ == encode_utf8(text@),
            bytes.len() <= MAX_BYTES,
            size == form_size(bytes@.take(i as int)),
            size <= 3 * i,
    {
        assert(bytes@.take(i + 1).drop_last() =~= bytes@.take(i as int));
        let byte = bytes[i];
        let kept = (0x30 <= byte && byte <= 0x39) || (0x41 <= byte && byte <= 0x5a) || (0x61 <= byte
            && byte <= 0x7a) || byte == 0x2a || byte == 0x2d || byte == 0x2e || byte == 0x5f || byte
            == 0x20;
        size = size + if kept {
            1
        } else {
            3
        };
    }
    assert(bytes@.take(bytes.len() as int) =~= bytes@);
    if size > MAX_BYTES {
        None
    } else {
        Some(size)
    }
}

proof fn sizes_add_up(pairs: Seq<(Seq<char>, Seq<char>)>, n: int)
    requires
        0 <= n <= pairs.len(),
    ensures
        encoded_size(pairs.take(n)) <= encoded_size(pairs),
    decreases pairs.len(),
{
    if n == pairs.len() {
        assert(pairs.take(n) =~= pairs);
    } else {
        assert(pairs.drop_last().take(n) =~= pairs.take(n));
        sizes_add_up(pairs.drop_last(), n);
    }
}

/// How many bytes pairs take in a query; nothing where that is more than `url`
/// can hold.
fn size_of_pairs(pairs: &Vec<(String, String)>) -> (r: Option<u64>)
    ensures
        match r {
            Some(n) => n == encoded_size(match_key::pair_texts(pairs@)) && n <= MAX_BYTES,
            None => encoded_size(match_key::pair_texts(pairs@)) > MAX_BYTES,
        },
{
    let ghost all = match_key::pair_texts(pairs@);
    let mut size: u64 = 0;
    assert(encoded_size(all.take(0)) == 0);
    for i in 0..pairs.len()
        invariant
            all == match_key::pair_texts(pairs@),
            size == encoded_size(all.take(i as int)),
            size <= MAX_BYTES,
    {
        assert(all.take(i + 1).drop_last() =~= all.take(i as int));
        assert(all.take(i + 1).last() == (pairs[i as int].0@, pairs[i as int].1@));
        proof {
            sizes_add_up(all, i + 1);
        }
        match (size_of_text(pairs[i].0.as_str()), size_of_text(pairs[i].1.as_str())) {
            (Some(key), Some(value)) => {
                let marks: u64 = if i == 0 {
                    1
                } else {
                    2
                };
                size = size + key + value + marks;
            },
            _ => {
                return None;
            },
        }
        if size > MAX_BYTES {
            return None;
        }
    }
    assert(all.take(pairs.len() as int) =~= all);
    Some(size)
}

/// Resolves an address against a base.
pub fn resolve(base: &str, relative: &str) -> (r: Result<String, String>)
    ensures
        (match r {
            Ok(u) => Ok::<_, Seq<char>>(u@),
            Err(e) => Err(e@),
        }) == resolved(base@, relative@),
{
    let countable = match parse_url(base) {
        Ok((url, _)) => find_end(Part::Scheme, url.as_str()) < MAX_BYTES,
        Err(_) => true,
    };
    if countable {
        join_url(base, relative)
    } else {
        Err(too_long_text())
    }
}

/// Reads the query of an address. `None` where the address is invalid, or where
/// the query stands further on than `url` can count.
pub fn pairs_of(address: &str) -> (r: Option<Vec<(String, String)>>)
    ensures
        (match r {
            Some(p) => Some(match_key::pair_texts(p@)),
            None => None,
        }) == (if is_readable(address@) {
            url_query_pairs(address@)
        } else {
            None
        }),
{
    let readable = match parse_url(address) {
        Ok((url, _)) => reaches(&places_in(url.as_str())),
        Err(_) => true,
    };
    if readable {
        query_pairs(address)
    } else {
        None
    }
}

/// Replaces the query of an address by the pairs, which can be read back from
/// it. `None` where the address is invalid or would be longer than `url` can
/// hold.
pub fn with_query(address: &str, pairs: &Vec<(String, String)>) -> (r: Option<String>)
    ensures
        (match r {
            Some(u) => Some(u@),
            None => None,
        }) == requeried(address@, match_key::pair_texts(pairs@)),
        r matches Some(u) ==> url_query_pairs(u@) == Some(match_key::pair_texts(pairs@)),
{
    let fits = match parse_url(address) {
        Ok((url, _)) => {
            let p = places_in(url.as_str());
            reaches(&p) && match p.fragment {
                Some(_) => match size_of_pairs(pairs) {
                    Some(size) => size < MAX_BYTES && p.path <= MAX_BYTES - 1 - size,
                    None => false,
                },
                None => true,
            }
        },
        Err(_) => true,
    };
    if fits {
        set_query(address, pairs)
    } else {
        None
    }
}

/// The scheme ends at the first colon, the path at the first question mark or
/// number sign, and the address at the first number sign; each at the end of
/// the text where there is none.
pub proof fn parts_end_at_their_first_mark(part: Part, url: Seq<char>)
    ensures
        ({
            let bytes = encode_utf8(url);
            let end = end_of(part, url);
            let marks = |b: u8|
                match part {
                    Part::Scheme => b == ':' as u8,
                    Part::Path => b == '?' as u8 || b == '#' as u8,
                    Part::Address => b == '#' as u8,
                };
            &&& 0 <= end <= bytes.len()
            &&& forall|i: int| 0 <= i < end ==> !marks(#[trigger] bytes[i])
            &&& end < bytes.len() ==> marks(bytes[end])
        }),
{
    end_is_at_the_first_mark(part, encode_utf8(url), 0);
}

proof fn end_is_at_the_first_mark(part: Part, bytes: Seq<u8>, from: int)
    requires
        0 <= from <= bytes.len(),
    ensures
        from <= end_from(part, bytes, from) <= bytes.len(),
        forall|i: int|
            from <= i < end_from(part, bytes, from) ==> !ends(part, #[trigger] bytes[i]),
        end_from(part, bytes, from) < bytes.len() ==> ends(
            part,
            bytes[end_from(part, bytes, from)],
        ),
    decreases bytes.len() - from,
{
    if from < bytes.len() && !ends(part, bytes[from]) {
        end_is_at_the_first_mark(part, bytes, from + 1);
    }
}

/// In a query, letters, digits, spaces and four marks take one byte each and
/// every other byte takes three; texts take what their parts take together.
pub proof fn sizes_of_texts_add_up(a: Seq<u8>, b: Seq<u8>, byte: u8)
    ensures
        form_size(a + b) == form_size(a) + form_size(b),
        form_size(seq![byte]) == if ('0' as u8 <= byte <= '9' as u8) || ('A' as u8 <= byte
            <= 'Z' as u8) || ('a' as u8 <= byte <= 'z' as u8) || byte == '*' as u8 || byte
            == '-' as u8 || byte == '.' as u8 || byte == '_' as u8 || byte == ' ' as u8 {
            1nat
        } else {
            3
        },
    decreases b.len(),
{
    let empty = Seq::<u8>::empty();
    assert(seq![byte].drop_last() =~= empty);
    assert(form_size(empty) == 0);
    assert(form_size(seq![byte]) == form_size(seq![byte].drop_last()) + form_cost(byte));
    if b.len() > 0 {
        sizes_of_texts_add_up(a, b.drop_last(), byte);
        assert((a + b).drop_last() =~= a + b.drop_last());
    } else {
        assert(a + b =~= a);
    }
}

/// A pair takes its key, its value and the sign between them in a query, and
/// every pair but the first one byte more.
pub proof fn sizes_of_pairs_add_up(
    pairs: Seq<(Seq<char>, Seq<char>)>,
    pair: (Seq<char>, Seq<char>),
)
    ensures
        encoded_size(Seq::empty()) == 0,
        encoded_size(pairs.push(pair)) == encoded_size(pairs) + form_size(encode_utf8(pair.0)) + 1
            + form_size(encode_utf8(pair.1)) + if pairs.len() == 0 {
            0int
        } else {
            1
        },
{
    assert(pairs.push(pair).drop_last() =~= pairs);
}

/// An address can be read, resolved against, and take more in its path or its
/// query, as long as every place that has to be counted to is below four
/// gibibytes: the end of the scheme, the end of the path, and the fragment where
/// there is one. A path that cannot have segments takes nothing, and what is
/// added to a query stands behind a mark unless the query is there and empty.
pub proof fn places_are_counted_up_to_a_limit(
    address: Seq<char>,
    url: Seq<char>,
    path: Seq<char>,
    more: nat,
    pairs: Seq<(Seq<char>, Seq<char>)>,
)
    ensures
        url_parsed(address) is Err ==> is_countable(address) && is_readable(address) && can_grow(
            address,
            more,
        ) && can_append(address, more) && can_take(address, pairs),
        url_parsed(address) == Ok::<_, Seq<char>>((url, path)) ==> {
            let bytes = encode_utf8(url);
            let scheme = end_of(Part::Scheme, url);
            let query = end_of(Part::Path, url);
            let fragment = end_of(Part::Address, url);
            let is_there = fragment < bytes.len();
            let segmented = scheme + 1 < bytes.len() && bytes[scheme + 1] == '/' as u8;
            let marked = query < bytes.len() && bytes[query] == '?' as u8 && fragment == query + 1;
            let readable = query < 4294967295 && (is_there ==> fragment < 4294967295);
            &&& is_countable(address) <==> scheme < 4294967295
            &&& is_readable(address) <==> readable
            &&& can_grow(address, more) <==> scheme < 4294967295 && (segmented ==> query + more
                <= 4294967295 && (is_there ==> fragment + more <= 4294967295))
            &&& can_append(address, more) <==> readable && (is_there ==> fragment + more + (
            if marked {
                0int
            } else {
                1
            }) <= 4294967295)
            &&& can_take(address, pairs) <==> readable && (is_there ==> query + 1 + encoded_size(
                pairs,
            ) <= 4294967295)
        },
{
}

/// What is too long is refused in the same words everywhere, and what is not is
/// left to `url`.
pub proof fn only_what_is_too_long_is_refused(
    address: Seq<char>,
    relative: Seq<char>,
    pairs: Seq<(Seq<char>, Seq<char>)>,
)
    ensures
        is_countable(address) ==> resolved(address, relative) == url_joined(address, relative),
        !is_countable(address) ==> resolved(address, relative) == Err::<Seq<char>, _>(too_long()),
        can_take(address, pairs) ==> requeried(address, pairs) == url_with_query(address, pairs),
        !can_take(address, pairs) ==> requeried(address, pairs) is None,
{
}

}
