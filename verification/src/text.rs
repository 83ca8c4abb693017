//! Character-sequence operations shared by the rest of the library.
//!
//! Contracts speak of the view of a string, a `Seq<char>`.
use vstd::prelude::*;
use vstd::string::*;
use vstd::utf8::*;

verus! {

/// `String::push`: the character is appended at the end of the string.
pub assume_specification[ String::push ](s: &mut String, c: char)
    ensures
        final(s)@ == old(s)@.push(c),
;

/// The characters of a string.
pub fn chars_of(s: &str) -> (r: Vec<char>)
    ensures
        r@ == s@,
{
    let mut v: Vec<char> = Vec::new();
    for c in it: s.chars()
        invariant
            it.seq() == s@,
            v@ == s@.take(it.index() as int),
    {
        v.push(c);
    }
    v
}

/// The string made of the characters at positions `from..to`.
pub fn string_of_range(v: &Vec<char>, from: usize, to: usize) -> (r: String)
    requires
        from <= to <= v.len(),
    ensures
        r@ == v@.subrange(from as int, to as int),
{
    let mut s = String::new();
    for i in from..to
        invariant
            from <= i <= to <= v.len(),
            s@ == v@.subrange(from as int, i as int),
    {
        s.push(v[i]);
    }
    s
}

/// Whether two strings hold the same characters.
pub fn str_eq(a: &str, b: &str) -> (r: bool)
    ensures
        r == (a@ == b@),
{
    a.to_owned() == b.to_owned()
}

/// An ASCII capital letter becomes the small one, any other character stays.
pub open spec fn ascii_lower(c: char) -> char {
    if 'A' <= c && c <= 'Z' {
        (c as u32 + 32) as char
    } else {
        c
    }
}

pub fn lower_ascii(c: char) -> (r: char)
    ensures
        r == ascii_lower(c),
{
    if 'A' <= c && c <= 'Z' {
        (c as u8 + 32) as char
    } else {
        c
    }
}

/// Every ASCII capital letter replaced by the small one.
pub open spec fn ascii_lowered(s: Seq<char>) -> Seq<char> {
    s.map_values(|c: char| ascii_lower(c))
}

/// Equality up to the case of ASCII letters.
pub open spec fn same_ignoring_case(a: Seq<char>, b: Seq<char>) -> bool {
    ascii_lowered(a) == ascii_lowered(b)
}

/// Whether two strings are equal up to the case of ASCII letters.
pub fn eq_ignoring_case(a: &str, b: &str) -> (r: bool)
    ensures
        r == same_ignoring_case(a@, b@),
{
    let x = chars_of(a);
    let y = chars_of(b);
    if x.len() != y.len() {
        assert(ascii_lowered(a@).len() != ascii_lowered(b@).len());
        return false;
    }
    for i in 0..x.len()
        invariant
            x.len() == y.len(),
            x@ == a@,
            y@ == b@,
            forall|j: int| 0 <= j < i ==> ascii_lower(#[trigger] x[j]) == ascii_lower(y[j]),
    {
        if lower_ascii(x[i]) != lower_ascii(y[i]) {
            assert(ascii_lowered(a@)[i as int] != ascii_lowered(b@)[i as int]);
            return false;
        }
    }
    assert(ascii_lowered(a@) =~= ascii_lowered(b@));
    true
}

/// The lower-case equivalent of a string by the Unicode tables.
pub uninterp spec fn unicode_lowercased(s: Seq<char>) -> Seq<char>;

/// A string in lower case; where it is ASCII, its capital letters become small
/// ones.
pub open spec fn lowercased(s: Seq<char>) -> Seq<char> {
    if is_ascii_chars(s) {
        ascii_lowered(s)
    } else {
        unicode_lowercased(s)
    }
}

/// `str::to_lowercase`, a fixed mapping of strings. On a string of ASCII
/// characters it is the mapping of capital letters to small ones.
#[verifier::external_body]
pub(crate) fn to_lowercase(s: &str) -> (r: String)
    ensures
        r@ == lowercased(s@),
        !is_ascii_chars(s@) ==> r@ == unicode_lowercased(s@),
{
    s.to_lowercase()
}

/// Whether `part` occurs in `s` as consecutive characters.
pub open spec fn contains_text(s: Seq<char>, part: Seq<char>) -> bool {
    exists|i: int| #[trigger] occurs_at(s, part, i)
}

/// Whether `part` occurs in `s` at position `i`.
pub open spec fn occurs_at(s: Seq<char>, part: Seq<char>, i: int) -> bool {
    0 <= i && i + part.len() <= s.len() && s.subrange(i, i + part.len()) == part
}

/// Whether the characters of `part` stand in `s` from position `i` on.
pub fn found_at(s: &Vec<char>, part: &Vec<char>, i: usize) -> (r: bool)
    ensures
        r == occurs_at(s@, part@, i as int),
{
    if part.len() > s.len() || i > s.len() - part.len() {
        return false;
    }
    for j in 0..part.len()
        invariant
            i + part.len() <= s.len(),
            forall|k: int| 0 <= k < j ==> #[trigger] s[i + k] == part[k],
    {
        if s[i + j] != part[j] {
            assert(s@.subrange(i as int, i + part.len())[j as int] != part[j as int]);
            return false;
        }
    }
    assert(s@.subrange(i as int, i + part.len()) =~= part@) by {
        assert forall|k: int| 0 <= k < part.len() implies s@.subrange(i as int, i + part.len())[k]
            == part[k] by {
            assert(s[i + k] == part[k]);
        }
    }
    true
}

/// `str::contains` for a string pattern.
pub fn contains(s: &str, part: &str) -> (r: bool)
    ensures
        r == contains_text(s@, part@),
{
    let x = chars_of(s);
    let y = chars_of(part);
    if y.len() == 0 {
        assert(s@.subrange(0, 0) =~= part@);
        assert(occurs_at(s@, part@, 0));
        return true;
    }
    if y.len() > x.len() {
        return false;
    }
    for i in 0..x.len() - y.len() + 1
        invariant
            1 <= y.len() <= x.len(),
            x@ == s@,
            y@ == part@,
            forall|j: int| 0 <= j < i ==> !occurs_at(s@, part@, j),
    {
        if found_at(&x, &y, i) {
            return true;
        }
    }
    false
}

/// The parts of `s` between the occurrences of `sep`: every separator starts
/// a new part.
pub open spec fn split_on(s: Seq<char>, sep: char) -> Seq<Seq<char>>
    decreases s.len(),
{
    if s.len() == 0 {
        seq![Seq::<char>::empty()]
    } else {
        let before = split_on(s.drop_last(), sep);
        if s.last() == sep {
            before.push(Seq::empty())
        } else {
            before.update(before.len() - 1, before.last().push(s.last()))
        }
    }
}

/// The views of the strings in a vector.
pub open spec fn texts(v: Seq<String>) -> Seq<Seq<char>> {
    v.map_values(|s: String| s@)
}

pub proof fn split_on_nonempty(s: Seq<char>, sep: char)
    ensures
        split_on(s, sep).len() >= 1,
    decreases s.len(),
{
    if s.len() > 0 {
        split_on_nonempty(s.drop_last(), sep);
    }
}

/// `str::split` on one character, collected.
pub fn split(s: &str, sep: char) -> (r: Vec<String>)
    ensures
        texts(r@) == split_on(s@, sep),
        r.len() >= 1,
{
    let x = chars_of(s);
    let mut out: Vec<String> = Vec::new();
    let mut cur = String::new();
    assert(x@.take(0) =~= Seq::<char>::empty());
    assert(texts(out@).push(cur@) =~= split_on(x@.take(0), sep));
    for i in 0..x.len()
        invariant
            x@ == s@,
            texts(out@).push(cur@) == split_on(x@.take(i as int), sep),
    {
        let ghost before = texts(out@).push(cur@);
        assert(x@.take(i + 1).drop_last() =~= x@.take(i as int));
        if x[i] == sep {
            out.push(cur);
            cur = String::new();
            assert(texts(out@).push(cur@) =~= before.push(Seq::empty()));
        } else {
            cur.push(x[i]);
            assert(texts(out@).push(cur@) =~= before.update(
                before.len() - 1,
                before.last().push(x[i as int]),
            ));
        }
    }
    let ghost before = texts(out@).push(cur@);
    out.push(cur);
    assert(texts(out@) =~= before);
    assert(x@.take(x.len() as int) =~= x@);
    out
}

/// The parts in order with `sep` between each two.
pub open spec fn join(parts: Seq<Seq<char>>, sep: Seq<char>) -> Seq<char>
    decreases parts.len(),
{
    if parts.len() == 0 {
        Seq::empty()
    } else if parts.len() == 1 {
        parts[0]
    } else {
        join(parts.drop_last(), sep) + sep + parts.last()
    }
}

/// `[String]::join`.
pub fn join_strings(parts: &Vec<String>, sep: &str) -> (r: String)
    ensures
        r@ == join(texts(parts@), sep@),
{
    let mut out = String::new();
    for i in 0..parts.len()
        invariant
            out@ == join(texts(parts@).take(i as int), sep@),
    {
        assert(texts(parts@).take(i + 1).drop_last() =~= texts(parts@).take(i as int));
        assert(texts(parts@).take(i + 1).last() == parts[i as int]@);
        if i > 0 {
            out.append(sep);
        } else {
            assert(out@ =~= Seq::<char>::empty());
        }
        out.append(parts[i].as_str());
        if i == 0 {
            assert(out@ =~= parts[0]@);
        }
    }
    assert(texts(parts@).take(parts.len() as int) =~= texts(parts@));
    out
}

/// Joining the parts of a split with the separator gives the string back.
pub proof fn join_of_split(s: Seq<char>, sep: char)
    ensures
        join(split_on(s, sep), seq![sep]) == s,
    decreases s.len(),
{
    if s.len() == 0 {
        assert(join(split_on(s, sep), seq![sep]) =~= s);
    } else {
        let t = s.drop_last();
        join_of_split(t, sep);
        split_on_nonempty(t, sep);
        let before = split_on(t, sep);
        let after = split_on(s, sep);
        if s.last() == sep {
            assert(after.drop_last() =~= before);
            assert(join(after, seq![sep]) =~= s);
        } else {
            assert(after.drop_last() =~= before.drop_last());
            if before.len() == 1 {
                assert(join(after, seq![sep]) =~= s);
            } else {
                let head = join(before.drop_last(), seq![sep]) + seq![sep];
                assert(t == head + before.last());
                assert(join(after, seq![sep]) == head + before.last().push(s.last()));
                assert(join(after, seq![sep]) =~= t.push(s.last()));
                assert(s =~= t.push(s.last()));
            }
        }
    }
}

/// Text without the separator extends the last part of a split.
proof fn split_on_appended(s: Seq<char>, t: Seq<char>, sep: char)
    requires
        !t.contains(sep),
    ensures
        split_on(s + t, sep) == split_on(s, sep).update(
            split_on(s, sep).len() - 1,
            split_on(s, sep).last() + t,
        ),
    decreases t.len(),
{
    split_on_nonempty(s, sep);
    let before = split_on(s, sep);
    if t.len() == 0 {
        assert(s + t =~= s);
        assert(before.last() + t =~= before.last());
        assert(before.update(before.len() - 1, before.last()) =~= before);
    } else {
        let u = t.drop_last();
        assert forall|i: int| 0 <= i < u.len() implies u[i] != sep by {
            assert(t.contains(t[i]));
        }
        split_on_appended(s, u, sep);
        assert((s + t).drop_last() =~= s + u);
        assert(t.contains(t.last()));
        assert((s + t).last() == t.last());
        assert((before.last() + u).push(t.last()) =~= before.last() + t);
        let mid = split_on(s + u, sep);
        assert(mid.last() == before.last() + u);
        assert(split_on(s + t, sep) == mid.update(mid.len() - 1, mid.last().push(t.last())));
        assert(mid.update(mid.len() - 1, mid.last().push(t.last())) =~= before.update(
            before.len() - 1,
            before.last() + t,
        ));
    }
}

/// Splitting what was joined gives the parts back, where none of them holds
/// the separator.
pub proof fn split_of_join(parts: Seq<Seq<char>>, sep: char)
    requires
        parts.len() > 0,
        forall|i: int| 0 <= i < parts.len() ==> !(#[trigger] parts[i]).contains(sep),
    ensures
        split_on(join(parts, seq![sep]), sep) == parts,
    decreases parts.len(),
{
    if parts.len() == 1 {
        let empty = Seq::<char>::empty();
        assert(!parts[0].contains(sep));
        split_on_appended(empty, parts[0], sep);
        assert(empty + parts[0] =~= parts[0]);
        assert(split_on(parts[0], sep) =~= parts);
    } else {
        let head = parts.drop_last();
        assert forall|i: int| 0 <= i < head.len() implies !(#[trigger] head[i]).contains(sep) by {
            assert(head[i] == parts[i]);
        }
        split_of_join(head, sep);
        let so_far = join(head, seq![sep]);
        let with_sep = so_far + seq![sep];
        assert(with_sep.drop_last() =~= so_far);
        assert(split_on(with_sep, sep) == head.push(Seq::empty()));
        assert(!parts[parts.len() - 1].contains(sep));
        split_on_appended(with_sep, parts.last(), sep);
        assert(Seq::<char>::empty() + parts.last() =~= parts.last());
        assert(split_on(with_sep + parts.last(), sep) =~= parts);
    }
}

/// No part of a split holds the separator.
pub proof fn split_parts_are_plain(s: Seq<char>, sep: char)
    ensures
        forall|i: int|
            0 <= i < split_on(s, sep).len() ==> !(#[trigger] split_on(s, sep)[i]).contains(sep),
    decreases s.len(),
{
    if s.len() > 0 {
        split_parts_are_plain(s.drop_last(), sep);
        split_on_nonempty(s.drop_last(), sep);
        let before = split_on(s.drop_last(), sep);
        let after = split_on(s, sep);
        assert forall|i: int| 0 <= i < after.len() implies !(#[trigger] after[i]).contains(
            sep,
        ) by {
            if i < before.len() - 1 || s.last() == sep {
                if i < before.len() {
                    assert(after[i] == before[i]);
                }
            } else {
                assert(after[i] == before[i].push(s.last()));
                assert(!before[i].contains(sep));
                assert forall|k: int| 0 <= k < after[i].len() implies after[i][k] != sep by {
                    if k < before[i].len() {
                        assert(before[i].contains(before[i][k]));
                    }
                }
            }
        }
    } else {
        assert(split_on(s, sep)[0] == Seq::<char>::empty());
    }
}

/// `s` without the characters `c` at its end.
pub open spec fn without_trailing(s: Seq<char>, c: char) -> Seq<char>
    decreases s.len(),
{
    if s.len() > 0 && s.last() == c {
        without_trailing(s.drop_last(), c)
    } else {
        s
    }
}

/// `str::trim_end_matches` for one character.
pub fn trim_end_char(s: &str, c: char) -> (r: String)
    ensures
        r@ == without_trailing(s@, c),
{
    let x = chars_of(s);
    let mut n = x.len();
    assert(x@.take(n as int) =~= s@);
    while n > 0 && x[n - 1] == c
        invariant
            x@ == s@,
            n <= x.len(),
            without_trailing(s@, c) == without_trailing(x@.take(n as int), c),
        decreases n,
    {
        assert(x@.take(n as int).drop_last() =~= x@.take(n - 1));
        n = n - 1;
    }
    assert(x@.take(n as int) =~= x@.subrange(0, n as int));
    string_of_range(&x, 0, n)
}

/// The characters with the Unicode property White_Space.
pub open spec fn is_white_space(c: char) -> bool {
    let u = c as u32;
    ||| 0x9 <= u <= 0xd
    ||| u == 0x20
    ||| u == 0x85
    ||| u == 0xa0
    ||| u == 0x1680
    ||| 0x2000 <= u <= 0x200a
    ||| u == 0x2028
    ||| u == 0x2029
    ||| u == 0x202f
    ||| u == 0x205f
    ||| u == 0x3000
}

pub fn white_space(c: char) -> (r: bool)
    ensures
        r == is_white_space(c),
{
    let u = c as u32;
    (0x9 <= u && u <= 0xd) || u == 0x20 || u == 0x85 || u == 0xa0 || u == 0x1680 || (0x2000 <= u
        && u <= 0x200a) || u == 0x2028 || u == 0x2029 || u == 0x202f || u == 0x205f || u == 0x3000
}

/// `s` without the white space at its end.
pub open spec fn trimmed_end(s: Seq<char>) -> Seq<char>
    decreases s.len(),
{
    if s.len() > 0 && is_white_space(s.last()) {
        trimmed_end(s.drop_last())
    } else {
        s
    }
}

/// `s` without the white space at its start.
pub open spec fn trimmed_start(s: Seq<char>) -> Seq<char>
    decreases s.len(),
{
    if s.len() > 0 && is_white_space(s[0]) {
        trimmed_start(s.drop_first())
    } else {
        s
    }
}

/// `s` without the white space at both ends.
pub open spec fn trimmed(s: Seq<char>) -> Seq<char> {
    trimmed_start(trimmed_end(s))
}

/// Trimming leaves no white space at either end, so that trimming again
/// changes nothing.
pub proof fn trimmed_is_trimmed(s: Seq<char>)
    ensures
        trimmed(s).len() > 0 ==> !is_white_space(trimmed(s)[0]) && !is_white_space(
            trimmed(s).last(),
        ),
        trimmed(trimmed(s)) == trimmed(s),
{
    trimmed_end_last(s);
    trimmed_start_ends(trimmed_end(s));
}

proof fn trimmed_end_last(s: Seq<char>)
    ensures
        trimmed_end(s).len() > 0 ==> !is_white_space(trimmed_end(s).last()),
    decreases s.len(),
{
    if s.len() > 0 && is_white_space(s.last()) {
        trimmed_end_last(s.drop_last());
    }
}

proof fn trimmed_start_ends(s: Seq<char>)
    ensures
        trimmed_start(s).len() > 0 ==> !is_white_space(trimmed_start(s)[0]) && trimmed_start(
            s,
        ).last() == s.last(),
    decreases s.len(),
{
    if s.len() > 0 && is_white_space(s[0]) {
        trimmed_start_ends(s.drop_first());
    }
}

/// `str::trim`.
pub fn trim(s: &str) -> (r: String)
    ensures
        r@ == trimmed(s@),
{
    let x = chars_of(s);
    let mut n = x.len();
    assert(x@.take(n as int) =~= s@);
    while n > 0 && white_space(x[n - 1])
        invariant
            x@ == s@,
            n <= x.len(),
            trimmed_end(s@) == trimmed_end(x@.take(n as int)),
        decreases n,
    {
        assert(x@.take(n as int).drop_last() =~= x@.take(n - 1));
        n = n - 1;
    }
    let ghost t = x@.take(n as int);
    assert(t == trimmed_end(s@));
    let mut m: usize = 0;
    assert(t.skip(0) =~= t);
    while m < n && white_space(x[m])
        invariant
            t == x@.take(n as int),
            m <= n <= x.len(),
            trimmed_start(t) == trimmed_start(t.skip(m as int)),
        decreases n - m,
    {
        assert(t.skip(m as int)[0] == x[m as int]);
        assert(t.skip(m as int).drop_first() =~= t.skip(m + 1));
        m = m + 1;
    }
    assert(m < n ==> t.skip(m as int)[0] == x[m as int]);
    assert(t.skip(m as int) =~= x@.subrange(m as int, n as int));
    string_of_range(&x, m, n)
}

/// The character of a decimal digit.
pub open spec fn digit(d: int) -> char
    recommends
        0 <= d <= 9,
{
    (48 + d) as char
}

/// The decimal notation of a natural number.
pub open spec fn decimal(n: nat) -> Seq<char>
    decreases n,
{
    if n < 10 {
        seq![digit(n as int)]
    } else {
        decimal(n / 10).push(digit((n % 10) as int))
    }
}

/// The decimal notation of an integer, with a sign where it is negative.
pub open spec fn decimal_int(i: int) -> Seq<char> {
    if i < 0 {
        seq!['-'] + decimal((-i) as nat)
    } else {
        decimal(i as nat)
    }
}

fn digit_char(d: u8) -> (r: char)
    requires
        d <= 9,
    ensures
        r == digit(d as int),
{
    (48u8 + d) as char
}

/// `u64::to_string`.
pub fn decimal_u64(n: u64) -> (r: String)
    ensures
        r@ == decimal(n as nat),
    decreases n,
{
    let mut s = if n < 10 {
        String::new()
    } else {
        decimal_u64(n / 10)
    };
    s.push(digit_char((n % 10) as u8));
    assert(n < 10 ==> s@ =~= decimal(n as nat));
    s
}

/// `i64::to_string`.
pub fn decimal_i64(i: i64) -> (r: String)
    ensures
        r@ == decimal_int(i as int),
{
    if i < 0 {
        let mut s = String::new();
        s.push('-');
        let m: u64 = (-(i as i128)) as u64;
        s.append(decimal_u64(m).as_str());
        assert(s@ =~= decimal_int(i as int));
        s
    } else {
        decimal_u64(i as u64)
    }
}

/// Whether a character is a decimal digit of ASCII.
pub open spec fn is_digit(c: char) -> bool {
    '0' <= c && c <= '9'
}

/// The number that a run of decimal digits stands for.
pub open spec fn digits_value(s: Seq<char>) -> int
    decreases s.len(),
{
    if s.len() == 0 {
        0
    } else {
        digits_value(s.drop_last()) * 10 + (s.last() as u32 - 48)
    }
}

/// Whether a string is one or more decimal digits.
pub open spec fn all_digits(s: Seq<char>) -> bool {
    s.len() > 0 && forall|i: int| 0 <= i < s.len() ==> is_digit(#[trigger] s[i])
}

/// The digits of a signed decimal number: what follows the sign, if any.
pub open spec fn after_sign(s: Seq<char>) -> Seq<char> {
    if s.len() > 0 && (s[0] == '+' || s[0] == '-') {
        s.skip(1)
    } else {
        s
    }
}

/// The integer that a string denotes: an optional sign and decimal digits.
pub open spec fn parsed_int(s: Seq<char>) -> Option<int> {
    if !all_digits(after_sign(s)) {
        None
    } else if s[0] == '-' {
        Some(-digits_value(after_sign(s)))
    } else {
        Some(digits_value(after_sign(s)))
    }
}

/// The integer that a string denotes, where it is one of 64 bits.
pub open spec fn parsed_i64(s: Seq<char>) -> Option<i64> {
    match parsed_int(s) {
        Some(i) if i64::MIN <= i <= i64::MAX => Some(i as i64),
        _ => None,
    }
}

proof fn decimal_reads_back(n: nat)
    ensures
        all_digits(decimal(n)),
        digits_value(decimal(n)) == n,
    decreases n,
{
    if n < 10 {
        assert(decimal(n).drop_last() =~= Seq::<char>::empty());
        assert(decimal(n).last() == digit(n as int));
        assert(digits_value(decimal(n).drop_last()) == 0);
    } else {
        decimal_reads_back(n / 10);
        let head = decimal(n / 10);
        assert(decimal(n).drop_last() =~= head);
        assert(decimal(n).last() == digit((n % 10) as int));
        assert forall|i: int| 0 <= i < decimal(n).len() implies is_digit(
            #[trigger] decimal(n)[i],
        ) by {
            if i < head.len() {
                assert(decimal(n)[i] == head[i]);
            }
        }
    }
}

/// Decimal notation holds digits and the sign only.
pub proof fn decimal_int_is_plain(i: int)
    ensures
        forall|k: int|
            0 <= k < decimal_int(i).len() ==> is_digit(#[trigger] decimal_int(i)[k])
                || decimal_int(i)[k] == '-',
{
    if i < 0 {
        decimal_reads_back((-i) as nat);
        assert forall|k: int| 0 <= k < decimal_int(i).len() implies is_digit(
            #[trigger] decimal_int(i)[k],
        ) || decimal_int(i)[k] == '-' by {
            if k > 0 {
                assert(decimal_int(i)[k] == decimal((-i) as nat)[k - 1]);
            }
        }
    } else {
        decimal_reads_back(i as nat);
    }
}

/// What stands before and after the last separator can be read off a text.
pub proof fn last_separator_splits(
    a: Seq<char>,
    b: Seq<char>,
    separator: char,
    c: Seq<char>,
    d: Seq<char>,
)
    requires
        a.push(separator) + c == b.push(separator) + d,
        !c.contains(separator),
        !d.contains(separator),
    ensures
        a == b,
        c == d,
{
    let s = a.push(separator) + c;
    let t = b.push(separator) + d;
    assert(s.len() == t.len());
    if c.len() < d.len() {
        assert(s[a.len() as int] == separator);
        assert(t[a.len() as int] == d[a.len() - b.len() - 1]);
    } else if d.len() < c.len() {
        assert(t[b.len() as int] == separator);
        assert(s[b.len() as int] == c[b.len() - a.len() - 1]);
    } else {
        assert forall|i: int| 0 <= i < a.len() implies a[i] == b[i] by {
            assert(s[i] == a[i] && t[i] == b[i]);
        }
        assert(a =~= b);
        assert forall|i: int| 0 <= i < c.len() implies c[i] == d[i] by {
            assert(s[a.len() + 1 + i] == c[i] && t[b.len() + 1 + i] == d[i]);
        }
        assert(c =~= d);
    }
}

/// An integer that was written in decimal notation reads back as itself.
pub proof fn decimal_int_reads_back(i: int)
    ensures
        parsed_int(decimal_int(i)) == Some(i),
{
    if i < 0 {
        decimal_reads_back((-i) as nat);
        assert(decimal_int(i).skip(1) =~= decimal((-i) as nat));
    } else {
        decimal_reads_back(i as nat);
        assert(is_digit(decimal(i as nat)[0]));
    }
}

proof fn digits_value_grows(s: Seq<char>, i: int)
    requires
        forall|j: int| 0 <= j < s.len() ==> is_digit(#[trigger] s[j]),
        0 <= i <= s.len(),
    ensures
        0 <= digits_value(s.take(i)) <= digits_value(s),
    decreases s.len(),
{
    if i == s.len() {
        assert(s.take(i) =~= s);
        if s.len() > 0 {
            let t = s.drop_last();
            assert(forall|j: int| 0 <= j < t.len() ==> t[j] == s[j]);
            digits_value_grows(t, t.len() as int);
            assert(t.take(t.len() as int) =~= t);
            assert(is_digit(s[s.len() - 1]));
        }
    } else {
        let t = s.drop_last();
        assert(forall|j: int| 0 <= j < t.len() ==> t[j] == s[j]);
        digits_value_grows(t, i);
        assert(t.take(i) =~= s.take(i));
        assert(is_digit(s[s.len() - 1]));
    }
}

/// `str::parse::<i64>`, without the error.
pub fn parse_i64(s: &str) -> (r: Option<i64>)
    ensures
        r == parsed_i64(s@),
{
    let x = chars_of(s);
    let negative = x.len() > 0 && x[0] == '-';
    let start: usize = if x.len() > 0 && (x[0] == '+' || x[0] == '-') {
        1
    } else {
        0
    };
    let ghost d = after_sign(s@);
    assert(d =~= x@.skip(start as int));
    if start == x.len() {
        return None;
    }
    for i in start..x.len()
        invariant
            start <= i <= x.len(),
            x@ == s@,
            d == x@.skip(start as int),
            d == after_sign(s@),
            forall|j: int| start <= j < i ==> is_digit(#[trigger] x[j]),
    {
        if x[i] < '0' || x[i] > '9' {
            assert(!is_digit(d[i - start]));
            return None;
        }
    }
    assert(all_digits(d)) by {
        assert forall|j: int| 0 <= j < d.len() implies is_digit(#[trigger] d[j]) by {
            assert(is_digit(x[j + start]));
        }
    }
    let mut value: i128 = 0;
    for i in start..x.len()
        invariant
            start <= i <= x.len(),
            x@ == s@,
            d == x@.skip(start as int),
            d == after_sign(s@),
            all_digits(d),
            value == digits_value(d.take(i - start)),
            0 <= value <= 9223372036854775808,
    {
        assert(d.take(i + 1 - start).drop_last() =~= d.take(i - start));
        assert(is_digit(d[i - start]));
        assert(d.take(i + 1 - start).last() == x[i as int]);
        value = value * 10 + (x[i] as u32 - 48) as i128;
        if value > 9223372036854775808 {
            proof {
                digits_value_grows(d, i + 1 - start);
            }
            return None;
        }
    }
    assert(d.take(x.len() - start) =~= d);
    if negative {
        Some((-value) as i64)
    } else if value <= 9223372036854775807 {
        Some(value as i64)
    } else {
        None
    }
}

/// Lexicographic order by code point, the order of `String`.
pub open spec fn lex_le(a: Seq<char>, b: Seq<char>) -> bool
    decreases a.len(),
{
    if a.len() == 0 {
        true
    } else if b.len() == 0 {
        false
    } else if a[0] == b[0] {
        lex_le(a.drop_first(), b.drop_first())
    } else {
        a[0] < b[0]
    }
}

/// `a <= b` on strings.
pub fn str_le(a: &str, b: &str) -> (r: bool)
    ensures
        r == lex_le(a@, b@),
{
    let x = chars_of(a);
    let y = chars_of(b);
    let mut i: usize = 0;
    assert(x@.skip(0) =~= a@);
    assert(y@.skip(0) =~= b@);
    while i < x.len() && i < y.len() && x[i] == y[i]
        invariant
            i <= x.len(),
            i <= y.len(),
            lex_le(a@, b@) == lex_le(x@.skip(i as int), y@.skip(i as int)),
        decreases x.len() - i,
    {
        assert(x@.skip(i as int).drop_first() =~= x@.skip(i + 1));
        assert(y@.skip(i as int).drop_first() =~= y@.skip(i + 1));
        i = i + 1;
    }
    if i == x.len() {
        true
    } else if i == y.len() {
        false
    } else {
        x[i] < y[i]
    }
}

pub proof fn lex_le_reflexive(a: Seq<char>)
    ensures
        lex_le(a, a),
    decreases a.len(),
{
    if a.len() > 0 {
        lex_le_reflexive(a.drop_first());
    }
}

pub proof fn lex_le_total(a: Seq<char>, b: Seq<char>)
    ensures
        lex_le(a, b) || lex_le(b, a),
    decreases a.len(),
{
    if a.len() > 0 && b.len() > 0 {
        lex_le_total(a.drop_first(), b.drop_first());
    }
}

pub proof fn lex_le_antisymmetric(a: Seq<char>, b: Seq<char>)
    requires
        lex_le(a, b),
        lex_le(b, a),
    ensures
        a == b,
    decreases a.len(),
{
    if a.len() > 0 && b.len() > 0 {
        lex_le_antisymmetric(a.drop_first(), b.drop_first());
        assert(a =~= seq![a[0]] + a.drop_first());
        assert(b =~= seq![b[0]] + b.drop_first());
    } else {
        assert(a =~= b);
    }
}

pub proof fn lex_le_transitive(a: Seq<char>, b: Seq<char>, c: Seq<char>)
    requires
        lex_le(a, b),
        lex_le(b, c),
    ensures
        lex_le(a, c),
    decreases a.len(),
{
    if a.len() > 0 && b.len() > 0 && c.len() > 0 {
        if a[0] == b[0] && b[0] == c[0] {
            lex_le_transitive(a.drop_first(), b.drop_first(), c.drop_first());
        }
    }
}

/// The lexicographic order is a total order.
pub proof fn lex_le_is_total_ordering()
    ensures
        vstd::relations::total_ordering(|a: Seq<char>, b: Seq<char>| lex_le(a, b)),
{
    let leq = |a: Seq<char>, b: Seq<char>| lex_le(a, b);
    assert forall|a: Seq<char>| #[trigger] leq(a, a) by {
        lex_le_reflexive(a);
    }
    assert forall|a: Seq<char>, b: Seq<char>| #[trigger] leq(a, b) && #[trigger] leq(b, a) implies a
        == b by {
        lex_le_antisymmetric(a, b);
    }
    assert forall|a: Seq<char>, b: Seq<char>, c: Seq<char>| #[trigger]
        leq(a, b) && #[trigger] leq(b, c) implies leq(a, c) by {
        lex_le_transitive(a, b, c);
    }
    assert forall|a: Seq<char>, b: Seq<char>| #[trigger] leq(a, b) || #[trigger] leq(b, a) by {
        lex_le_total(a, b);
    }
}

/// Whether two characters are the same letter of ASCII, one of them perhaps
/// capital, or the same character.
pub open spec fn same_letter(c: char, d: char) -> bool {
    ||| c == d
    ||| 'A' <= c <= 'Z' && d as int == c as int + 32
    ||| 'A' <= d <= 'Z' && c as int == d as int + 32
}

/// Whether two texts agree letter for letter, ASCII case aside.
pub open spec fn letters_agree(a: Seq<char>, b: Seq<char>) -> bool {
    a.len() == b.len() && forall|k: int| 0 <= k < a.len() ==> same_letter(#[trigger] a[k], b[k])
}

proof fn lowered_letters_agree(c: char, d: char)
    ensures
        ascii_lower(c) == ascii_lower(d) <==> same_letter(c, d),
{
}

/// Texts are the same with case aside exactly where they have as many
/// characters and agree in each, up to the case of a letter from A to Z.
pub proof fn ignoring_case_is_letter_by_letter(a: Seq<char>, b: Seq<char>)
    ensures
        same_ignoring_case(a, b) <==> letters_agree(a, b),
{
    if same_ignoring_case(a, b) {
        assert(ascii_lowered(a).len() == ascii_lowered(b).len());
        assert forall|k: int| 0 <= k < a.len() implies same_letter(#[trigger] a[k], b[k]) by {
            assert(ascii_lowered(a)[k] == ascii_lowered(b)[k]);
            lowered_letters_agree(a[k], b[k]);
        }
    }
    if letters_agree(a, b) {
        assert forall|k: int| 0 <= k < a.len() implies ascii_lowered(a)[k] == ascii_lowered(b)[k] by {
            assert(same_letter(a[k], b[k]));
            lowered_letters_agree(a[k], b[k]);
        }
        assert(ascii_lowered(a) =~= ascii_lowered(b));
    }
}

/// Lowering ASCII text turns each letter from A to Z into the one that stands
/// thirty-two places on, and leaves every other character and the length.
pub proof fn lowering_turns_capitals_only(s: Seq<char>)
    ensures
        ascii_lowered(s).len() == s.len(),
        forall|k: int|
            0 <= k < s.len() ==> if 'A' <= #[trigger] s[k] <= 'Z' {
                ascii_lowered(s)[k] as int == s[k] as int + 32
            } else {
                ascii_lowered(s)[k] == s[k]
            },
        is_ascii_chars(s) ==> lowercased(s) == ascii_lowered(s),
{
}

/// A text contains another exactly where the characters of the other stand in
/// it one after the other.
pub proof fn containing_is_standing_in_it(s: Seq<char>, part: Seq<char>)
    ensures
        contains_text(s, part) <==> exists|i: int|
            0 <= i <= s.len() - part.len() && #[trigger] s.skip(i).take(part.len() as int) == part,
{
    if contains_text(s, part) {
        let i = choose|i: int| #[trigger] occurs_at(s, part, i);
        assert(s.skip(i).take(part.len() as int) =~= s.subrange(i, i + part.len()));
    }
    if exists|i: int|
        0 <= i <= s.len() - part.len() && #[trigger] s.skip(i).take(part.len() as int) == part {
        let i = choose|i: int|
            0 <= i <= s.len() - part.len() && #[trigger] s.skip(i).take(part.len() as int) == part;
        assert(s.skip(i).take(part.len() as int) =~= s.subrange(i, i + part.len()));
        assert(occurs_at(s, part, i));
    }
}

/// Only the given character is taken off the end, and all of it: what is left
/// is the start of the text and does not end with it, and what was taken off is
/// nothing else.
pub proof fn only_the_trailing_character_goes(s: Seq<char>, c: char)
    ensures
        ({
            let r = without_trailing(s, c);
            &&& r.len() <= s.len()
            &&& r == s.take(r.len() as int)
            &&& r.len() > 0 ==> r.last() != c
            &&& forall|k: int| r.len() <= k < s.len() ==> #[trigger] s[k] == c
        }),
    decreases s.len(),
{
    if s.len() > 0 && s.last() == c {
        only_the_trailing_character_goes(s.drop_last(), c);
        let r = without_trailing(s, c);
        assert(s.drop_last().take(r.len() as int) =~= s.take(r.len() as int));
        assert forall|k: int| r.len() <= k < s.len() implies #[trigger] s[k] == c by {
            if k < s.len() - 1 {
                assert(s.drop_last()[k] == c);
            }
        }
    } else {
        assert(s.take(s.len() as int) =~= s);
    }
}

/// The characters with the property White_Space are these and no others: the
/// five from tab to carriage return, the spaces of Latin-1 with the next line,
/// and those of the blocks further on.
pub proof fn white_space_characters(c: char)
    ensures
        is_white_space(c) <==> seq![
            0x9int,
            0xa,
            0xb,
            0xc,
            0xd,
            0x20,
            0x85,
            0xa0,
            0x1680,
            0x2000,
            0x2001,
            0x2002,
            0x2003,
            0x2004,
            0x2005,
            0x2006,
            0x2007,
            0x2008,
            0x2009,
            0x200a,
            0x2028,
            0x2029,
            0x202f,
            0x205f,
            0x3000,
        ].contains(c as int),
{
    let all = seq![
        0x9int,
        0xa,
        0xb,
        0xc,
        0xd,
        0x20,
        0x85,
        0xa0,
        0x1680,
        0x2000,
        0x2001,
        0x2002,
        0x2003,
        0x2004,
        0x2005,
        0x2006,
        0x2007,
        0x2008,
        0x2009,
        0x200a,
        0x2028,
        0x2029,
        0x202f,
        0x205f,
        0x3000,
    ];
    let u = c as int;
    if 0x9 <= u <= 0xd {
        assert(all[u - 0x9] == u);
    } else if u == 0x20 {
        assert(all[5] == u);
    } else if u == 0x85 {
        assert(all[6] == u);
    } else if u == 0xa0 {
        assert(all[7] == u);
    } else if u == 0x1680 {
        assert(all[8] == u);
    } else if 0x2000 <= u <= 0x200a {
        assert(all[u - 0x2000 + 9] == u);
    } else if u == 0x2028 {
        assert(all[20] == u);
    } else if u == 0x2029 {
        assert(all[21] == u);
    } else if u == 0x202f {
        assert(all[22] == u);
    } else if u == 0x205f {
        assert(all[23] == u);
    } else if u == 0x3000 {
        assert(all[24] == u);
    } else {
        assert(!all.contains(u));
    }
}

/// Trimming takes off white space at both ends and nothing else: what is left
/// stands in the text, everything before and behind it is white space, and it
/// has none at its own ends.
pub proof fn only_outer_white_space_goes(s: Seq<char>) -> (from: int)
    ensures
        0 <= from <= from + trimmed(s).len() <= s.len(),
        trimmed(s) == s.subrange(from, from + trimmed(s).len()),
        forall|k: int| 0 <= k < from ==> is_white_space(#[trigger] s[k]),
        forall|k: int| from + trimmed(s).len() <= k < s.len() ==> is_white_space(#[trigger] s[k]),
        trimmed(s).len() > 0 ==> !is_white_space(trimmed(s)[0]) && !is_white_space(
            trimmed(s).last(),
        ),
{
    trimmed_is_trimmed(s);
    trailing_white_space_goes(s);
    let t = trimmed_end(s);
    let from = leading_white_space_goes(t);
    assert(trimmed(s) =~= s.subrange(from, from + trimmed(s).len()));
    assert forall|k: int| 0 <= k < from implies is_white_space(#[trigger] s[k]) by {
        assert(t[k] == s[k]);
    }
    from
}

proof fn trailing_white_space_goes(s: Seq<char>)
    ensures
        trimmed_end(s).len() <= s.len(),
        trimmed_end(s) == s.take(trimmed_end(s).len() as int),
        forall|k: int| trimmed_end(s).len() <= k < s.len() ==> is_white_space(#[trigger] s[k]),
    decreases s.len(),
{
    if s.len() > 0 && is_white_space(s.last()) {
        trailing_white_space_goes(s.drop_last());
        let r = trimmed_end(s);
        assert(s.drop_last().take(r.len() as int) =~= s.take(r.len() as int));
        assert forall|k: int| r.len() <= k < s.len() implies is_white_space(#[trigger] s[k]) by {
            if k < s.len() - 1 {
                assert(s.drop_last()[k] == s[k]);
            }
        }
    } else {
        assert(s.take(s.len() as int) =~= s);
    }
}

proof fn leading_white_space_goes(s: Seq<char>) -> (from: int)
    ensures
        0 <= from <= s.len(),
        trimmed_start(s) == s.skip(from),
        forall|k: int| 0 <= k < from ==> is_white_space(#[trigger] s[k]),
    decreases s.len(),
{
    if s.len() > 0 && is_white_space(s[0]) {
        let from = leading_white_space_goes(s.drop_first());
        assert(s.drop_first().skip(from) =~= s.skip(from + 1));
        assert forall|k: int| 0 <= k < from + 1 implies is_white_space(#[trigger] s[k]) by {
            if k > 0 {
                assert(s.drop_first()[k - 1] == s[k]);
            }
        }
        from + 1
    } else {
        assert(s.skip(0) =~= s);
        0
    }
}

/// One text comes before another exactly where it is the start of the other, or
/// has the smaller character at the first place where they differ.
pub proof fn order_is_decided_at_the_first_difference(a: Seq<char>, b: Seq<char>)
    ensures
        lex_le(a, b) <==> {
            ||| a.len() <= b.len() && a == b.take(a.len() as int)
            ||| exists|i: int|
                0 <= i < a.len() && i < b.len() && (#[trigger] a[i]) < b[i] && a.take(i) == b.take(i)
        },
    decreases a.len(),
{
    if a.len() == 0 {
        assert(a =~= b.take(0));
    } else if b.len() > 0 {
        if a[0] == b[0] {
            let (x, y) = (a.drop_first(), b.drop_first());
            order_is_decided_at_the_first_difference(x, y);
            if x.len() <= y.len() && x == y.take(x.len() as int) {
                assert(a =~= b.take(a.len() as int)) by {
                    assert forall|k: int| 1 <= k < a.len() implies a[k] == b[k] by {
                        assert(x[k - 1] == y.take(x.len() as int)[k - 1]);
                    }
                }
            }
            if a.len() <= b.len() && a == b.take(a.len() as int) {
                assert(x =~= y.take(x.len() as int)) by {
                    assert forall|k: int| 0 <= k < x.len() implies x[k] == y[k] by {
                        assert(a[k + 1] == b.take(a.len() as int)[k + 1]);
                    }
                }
            }
            if exists|i: int|
                0 <= i < x.len() && i < y.len() && (#[trigger] x[i]) < y[i] && x.take(i) == y.take(i) {
                let i = choose|i: int|
                    0 <= i < x.len() && i < y.len() && (#[trigger] x[i]) < y[i] && x.take(i)
                        == y.take(i);
                assert(a[i + 1] < b[i + 1]);
                assert(a.take(i + 1) =~= b.take(i + 1)) by {
                    assert forall|k: int| 1 <= k < i + 1 implies a[k] == b[k] by {
                        assert(x.take(i)[k - 1] == y.take(i)[k - 1]);
                    }
                }
            }
            if exists|i: int|
                0 <= i < a.len() && i < b.len() && (#[trigger] a[i]) < b[i] && a.take(i) == b.take(i) {
                let i = choose|i: int|
                    0 <= i < a.len() && i < b.len() && (#[trigger] a[i]) < b[i] && a.take(i)
                        == b.take(i);
                assert(i > 0);
                assert(x[i - 1] < y[i - 1]);
                assert(x.take(i - 1) =~= y.take(i - 1)) by {
                    assert forall|k: int| 0 <= k < i - 1 implies x[k] == y[k] by {
                        assert(a.take(i)[k + 1] == b.take(i)[k + 1]);
                    }
                }
            }
        } else {
            if a[0] < b[0] {
                assert(a.take(0) =~= b.take(0));
            }
            if a.len() <= b.len() && a == b.take(a.len() as int) {
                assert(a[0] == b.take(a.len() as int)[0]);
            }
            if exists|i: int|
                0 <= i < a.len() && i < b.len() && (#[trigger] a[i]) < b[i] && a.take(i) == b.take(i) {
                let i = choose|i: int|
                    0 <= i < a.len() && i < b.len() && (#[trigger] a[i]) < b[i] && a.take(i)
                        == b.take(i);
                if i > 0 {
                    assert(a.take(i)[0] == b.take(i)[0]);
                }
            }
        }
    } else {
        assert(a.len() > b.len());
    }
}

/// Reading a number weighs its digits by their places: the number of a text
/// with one more digit is ten times that of the text and the digit, and a sign
/// of minus turns it round.
pub proof fn digits_count_by_their_places(s: Seq<char>, d: int)
    requires
        0 <= d <= 9,
        all_digits(s),
    ensures
        parsed_int(s.push((48 + d) as char)) == Some(10 * parsed_int(s)->0 + d),
        parsed_int(seq![(48 + d) as char]) == Some(d),
        parsed_int(seq!['-'] + s) == Some(-parsed_int(s)->0),
        parsed_int(seq!['+'] + s) == parsed_int(s),
{
    let c = (48 + d) as char;
    let t = s.push(c);
    assert(is_digit(s[0]));
    assert(t[0] == s[0]);
    assert(after_sign(t) == t && after_sign(s) == s);
    assert forall|i: int| 0 <= i < t.len() implies is_digit(#[trigger] t[i]) by {
        if i < s.len() {
            assert(t[i] == s[i]);
        }
    }
    assert(t.drop_last() =~= s);
    let one = seq![c];
    assert(one.drop_last() =~= Seq::<char>::empty());
    assert(digits_value(one.drop_last()) == 0);
    assert(digits_value(one) == d);
    assert(all_digits(one));
    assert((seq!['-'] + s).skip(1) =~= s);
    assert((seq!['+'] + s).skip(1) =~= s);
}

/// Whatever is no optional sign and decimal digits is no number.
pub proof fn only_digits_are_numbers(s: Seq<char>)
    ensures
        parsed_int(s) is Some ==> s.len() > 0 && ('0' <= s.last() <= '9') && forall|i: int|
            1 <= i < s.len() ==> '0' <= #[trigger] s[i] <= '9',
        parsed_int(s) is Some ==> '0' <= s[0] <= '9' || ((s[0] == '+' || s[0] == '-') && s.len()
            > 1),
        parsed_i64(s) matches Some(n) ==> parsed_int(s) == Some(n as int),
        parsed_int(s) matches Some(n) ==> i64::MIN <= n <= i64::MAX ==> parsed_i64(s) == Some(
            n as i64,
        ),
{
    let d = after_sign(s);
    if parsed_int(s) is Some {
        assert forall|i: int| 1 <= i < s.len() implies '0' <= #[trigger] s[i] <= '9' by {
            if d.len() == s.len() {
                assert(is_digit(d[i]));
            } else {
                assert(is_digit(d[i - 1]));
            }
        }
        assert(is_digit(d[0]));
    }
}

}
