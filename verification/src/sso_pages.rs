//! What single sign-on shows to the user, and the names it gives to new ones.
use vstd::prelude::*;
use vstd::string::*;
use vstd::utf8::*;

use crate::json;
use crate::json::{Json, JsonView};
use crate::text;

verus! {

/// The characters that a derived username may hold.
pub open spec fn safe_char(c: char) -> bool {
    ('a' <= c && c <= 'z') || ('A' <= c && c <= 'Z') || ('0' <= c && c <= '9') || c == '.' || c
        == '_' || c == '-'
}

fn is_safe(c: char) -> (r: bool)
    ensures
        r == safe_char(c),
{
    ('a' <= c && c <= 'z') || ('A' <= c && c <= 'Z') || ('0' <= c && c <= '9') || c == '.' || c
        == '_' || c == '-'
}

/// The safe characters of a text.
pub open spec fn cleaned(s: Seq<char>) -> Seq<char>
    decreases s.len(),
{
    if s.len() == 0 {
        Seq::empty()
    } else if safe_char(s.last()) {
        cleaned(s.drop_last()).push(s.last())
    } else {
        cleaned(s.drop_last())
    }
}

/// What a username is derived from: the local part of the email, or the
/// subject.
pub open spec fn name_source(email: Option<Seq<char>>, subject: Seq<char>) -> Seq<char> {
    match email {
        Some(e) => {
            let local = text::split_on(e, '@')[0];
            if local.len() > 0 {
                local
            } else {
                subject
            }
        },
        None => subject,
    }
}

/// The username for an identity: what is safe of its source or, where nothing
/// is, `sso-` and the beginning of what is safe of the subject.
pub open spec fn derived_username(email: Option<Seq<char>>, subject: Seq<char>) -> Seq<char> {
    let name = cleaned(name_source(email, subject));
    let rest = cleaned(subject);
    if name.len() > 0 {
        name
    } else if rest.len() <= 12 {
        "sso-"@ + rest
    } else {
        "sso-"@ + rest.take(12)
    }
}

fn clean(s: &str) -> (r: String)
    ensures
        r@ == cleaned(s@),
{
    let chars = text::chars_of(s);
    let mut out = String::new();
    for i in 0..chars.len()
        invariant
            chars@ == s@,
            out@ == cleaned(chars@.take(i as int)),
    {
        assert(chars@.take(i + 1).drop_last() =~= chars@.take(i as int));
        if is_safe(chars[i]) {
            out.push(chars[i]);
        }
    }
    assert(chars@.take(chars.len() as int) =~= chars@);
    out
}

/// Derives a username from the local part of the email or from the subject,
/// restricted to safe characters.
pub fn derive_username(email: &Option<String>, subject: &str) -> (r: String)
    ensures
        r@ == derived_username(json::opt_text(*email), subject@),
{
    let raw = match email {
        Some(e) => {
            let parts = text::split(e.as_str(), '@');
            assert(text::texts(parts@)[0] == parts[0]@);
            if parts[0].as_str().is_empty() {
                subject.to_owned()
            } else {
                parts[0].clone()
            }
        },
        None => subject.to_owned(),
    };
    let name = clean(raw.as_str());
    if !name.as_str().is_empty() {
        return name;
    }
    let rest = clean(subject);
    let chars = text::chars_of(rest.as_str());
    let n: usize = if chars.len() <= 12 {
        chars.len()
    } else {
        12
    };
    let head = text::string_of_range(&chars, 0, n);
    assert(head@ =~= rest@.take(n as int));
    assert(rest@.take(rest@.len() as int) =~= rest@);
    "sso-".to_owned().concat(head.as_str())
}

proof fn cleaned_is_safe(s: Seq<char>)
    ensures
        forall|i: int| 0 <= i < cleaned(s).len() ==> safe_char(#[trigger] cleaned(s)[i]),
    decreases s.len(),
{
    if s.len() > 0 {
        cleaned_is_safe(s.drop_last());
        let head = cleaned(s.drop_last());
        assert forall|i: int| 0 <= i < cleaned(s).len() implies safe_char(
            #[trigger] cleaned(s)[i],
        ) by {
            if i < head.len() {
                assert(cleaned(s)[i] == head[i]);
            }
        }
    }
}

/// A derived username is never empty and holds safe characters only, whatever
/// the email and the subject are.
pub proof fn derived_usernames_are_safe(email: Option<Seq<char>>, subject: Seq<char>)
    ensures
        derived_username(email, subject).len() > 0,
        forall|i: int|
            0 <= i < derived_username(email, subject).len() ==> safe_char(
                #[trigger] derived_username(email, subject)[i],
            ),
{
    reveal_strlit("sso-");
    cleaned_is_safe(name_source(email, subject));
    cleaned_is_safe(subject);
    let name = derived_username(email, subject);
    assert forall|i: int| 0 <= i < name.len() implies safe_char(#[trigger] name[i]) by {
        if cleaned(name_source(email, subject)).len() == 0 && i >= 4 {
            assert(name[i] == cleaned(subject)[i - 4]);
        }
    }
}

/// A character as it is written in HTML text.
pub open spec fn escaped_char(c: char) -> Seq<char> {
    if c == '&' {
        "&amp;"@
    } else if c == '<' {
        "&lt;"@
    } else if c == '>' {
        "&gt;"@
    } else if c == '"' {
        "&quot;"@
    } else if c == '\'' {
        "&#x27;"@
    } else {
        seq![c]
    }
}

/// A text as it is written in HTML.
pub open spec fn escaped(s: Seq<char>) -> Seq<char>
    decreases s.len(),
{
    if s.len() == 0 {
        Seq::empty()
    } else {
        escaped(s.drop_last()) + escaped_char(s.last())
    }
}

/// Minimal HTML escape for any text of a provider that is shown on a page.
pub fn esc(s: &str) -> (r: String)
    ensures
        r@ == escaped(s@),
{
    let chars = text::chars_of(s);
    let mut out = String::new();
    for i in 0..chars.len()
        invariant
            chars@ == s@,
            out@ == escaped(chars@.take(i as int)),
    {
        assert(chars@.take(i + 1).drop_last() =~= chars@.take(i as int));
        let ghost before = out@;
        let c = chars[i];
        if c == '&' {
            out.append("&amp;");
        } else if c == '<' {
            out.append("&lt;");
        } else if c == '>' {
            out.append("&gt;");
        } else if c == '"' {
            out.append("&quot;");
        } else if c == '\'' {
            out.append("&#x27;");
        } else {
            out.push(c);
            assert(out@ =~= before + escaped_char(c));
        }
    }
    assert(chars@.take(chars.len() as int) =~= chars@);
    out
}

/// Whether a character can open or close markup or an attribute.
pub open spec fn is_markup(c: char) -> bool {
    c == '<' || c == '>' || c == '"' || c == '\''
}

/// Escaped text cannot break out of where it stands: it holds no character
/// that opens or closes markup or an attribute.
pub proof fn escaped_text_is_inert(s: Seq<char>)
    ensures
        forall|i: int| 0 <= i < escaped(s).len() ==> !is_markup(#[trigger] escaped(s)[i]),
    decreases s.len(),
{
    if s.len() > 0 {
        escaped_text_is_inert(s.drop_last());
        reveal_strlit("&amp;");
        reveal_strlit("&lt;");
        reveal_strlit("&gt;");
        reveal_strlit("&quot;");
        reveal_strlit("&#x27;");
        let head = escaped(s.drop_last());
        let tail = escaped_char(s.last());
        assert forall|i: int| 0 <= i < escaped(s).len() implies !is_markup(
            #[trigger] escaped(s)[i],
        ) by {
            if i < head.len() {
                assert(escaped(s)[i] == head[i]);
            } else {
                assert(escaped(s)[i] == tail[i - head.len()]);
            }
        }
    }
}

/// Escaping goes over concatenation: what a text becomes does not depend on
/// what stands beside it.
pub proof fn escaping_goes_over_concatenation(a: Seq<char>, b: Seq<char>)
    ensures
        escaped(a + b) == escaped(a) + escaped(b),
    decreases b.len(),
{
    if b.len() == 0 {
        assert(a + b =~= a);
        assert(escaped(a) + escaped(b) =~= escaped(a));
    } else {
        escaping_goes_over_concatenation(a, b.drop_last());
        assert((a + b).drop_last() =~= a + b.drop_last());
        assert((a + b).last() == b.last());
        assert(escaped(a) + escaped(b.drop_last()) + escaped_char(b.last()) =~= escaped(a)
            + escaped(b));
    }
}

/// The character that an HTML text starts with, and how many characters it
/// takes to write it.
pub open spec fn decoded_head(s: Seq<char>) -> (char, int) {
    if s.len() >= 5 && text::occurs_at(s, "&amp;"@, 0) {
        ('&', 5)
    } else if s.len() >= 4 && text::occurs_at(s, "&lt;"@, 0) {
        ('<', 4)
    } else if s.len() >= 4 && text::occurs_at(s, "&gt;"@, 0) {
        ('>', 4)
    } else if s.len() >= 6 && text::occurs_at(s, "&quot;"@, 0) {
        ('"', 6)
    } else if s.len() >= 6 && text::occurs_at(s, "&#x27;"@, 0) {
        ('\'', 6)
    } else {
        (s[0], 1)
    }
}

/// The text that an HTML text shows.
pub open spec fn unescaped(s: Seq<char>) -> Seq<char>
    decreases s.len(),
{
    if s.len() == 0 {
        Seq::empty()
    } else {
        seq![decoded_head(s).0] + unescaped(s.skip(decoded_head(s).1))
    }
}

proof fn occurrence_at_the_front(s: Seq<char>, part: Seq<char>)
    requires
        text::occurs_at(s, part, 0),
    ensures
        forall|k: int| 0 <= k < part.len() ==> #[trigger] s[k] == part[k],
{
    let head = s.subrange(0, part.len() as int);
    assert forall|k: int| 0 <= k < part.len() implies #[trigger] s[k] == part[k] by {
        assert(head[k] == s[k]);
    }
}

proof fn escaped_head_is_decoded(c: char, rest: Seq<char>)
    ensures
        decoded_head(escaped_char(c) + rest) == (c, escaped_char(c).len() as int),
{
    reveal_strlit("&amp;");
    reveal_strlit("&lt;");
    reveal_strlit("&gt;");
    reveal_strlit("&quot;");
    reveal_strlit("&#x27;");
    let own = escaped_char(c);
    let s = own + rest;
    assert(s.subrange(0, own.len() as int) =~= own);
    assert(forall|k: int| 0 <= k < own.len() ==> s[k] == own[k]);
    if text::occurs_at(s, "&amp;"@, 0) {
        occurrence_at_the_front(s, "&amp;"@);
        assert(s[0] == '&' && s[1] == 'a');
    }
    if text::occurs_at(s, "&lt;"@, 0) {
        occurrence_at_the_front(s, "&lt;"@);
        assert(s[0] == '&' && s[1] == 'l');
    }
    if text::occurs_at(s, "&gt;"@, 0) {
        occurrence_at_the_front(s, "&gt;"@);
        assert(s[0] == '&' && s[1] == 'g');
    }
    if text::occurs_at(s, "&quot;"@, 0) {
        occurrence_at_the_front(s, "&quot;"@);
        assert(s[0] == '&' && s[1] == 'q');
    }
    if text::occurs_at(s, "&#x27;"@, 0) {
        occurrence_at_the_front(s, "&#x27;"@);
        assert(s[0] == '&' && s[1] == '#');
    }
    assert(s[0] == own[0]);
    if own.len() > 1 {
        assert(s[1] == own[1]);
    }
}

/// A page shows an escaped text as it was: decoding gives it back.
pub proof fn escaped_text_reads_back(s: Seq<char>)
    ensures
        unescaped(escaped(s)) == s,
    decreases s.len(),
{
    if s.len() == 0 {
        assert(escaped(s) =~= Seq::<char>::empty());
    } else {
        let c = s[0];
        let rest = s.skip(1);
        escaped_text_reads_back(rest);
        escaping_goes_over_concatenation(seq![c], rest);
        assert(seq![c] + rest =~= s);
        assert(seq![c].drop_last() =~= Seq::<char>::empty());
        assert(escaped(seq![c].drop_last()) =~= Seq::<char>::empty());
        assert(escaped(seq![c]) =~= escaped_char(c));
        escaped_head_is_decoded(c, escaped(rest));
        reveal_strlit("&amp;");
        reveal_strlit("&lt;");
        reveal_strlit("&gt;");
        reveal_strlit("&quot;");
        reveal_strlit("&#x27;");
        let whole = escaped_char(c) + escaped(rest);
        assert(escaped(s) == whole);
        assert(whole.skip(escaped_char(c).len() as int) =~= escaped(rest));
        assert(seq![c] + rest =~= s);
    }
}

/// A text with every `<` written as a Unicode escape.
pub open spec fn without_lt(s: Seq<char>) -> Seq<char>
    decreases s.len(),
{
    if s.len() == 0 {
        Seq::empty()
    } else if s.last() == '<' {
        without_lt(s.drop_last()) + "\\u003c"@
    } else {
        without_lt(s.drop_last()).push(s.last())
    }
}

fn replace_lt(s: &str) -> (r: String)
    ensures
        r@ == without_lt(s@),
{
    let chars = text::chars_of(s);
    let mut out = String::new();
    for i in 0..chars.len()
        invariant
            chars@ == s@,
            out@ == without_lt(chars@.take(i as int)),
    {
        assert(chars@.take(i + 1).drop_last() =~= chars@.take(i as int));
        if chars[i] == '<' {
            out.append("\\u003c");
        } else {
            out.push(chars[i]);
        }
    }
    assert(chars@.take(chars.len() as int) =~= chars@);
    out
}

/// No script can be closed from within the embedded text: it holds no `<`.
pub proof fn embedded_text_has_no_lt(s: Seq<char>)
    ensures
        !without_lt(s).contains('<'),
    decreases s.len(),
{
    if s.len() > 0 {
        embedded_text_has_no_lt(s.drop_last());
        reveal_strlit("\\u003c");
        let head = without_lt(s.drop_last());
        assert forall|i: int| 0 <= i < without_lt(s).len() implies without_lt(s)[i] != '<' by {
            if i < head.len() {
                assert(without_lt(s)[i] == head[i]);
                assert(head.contains(head[i]));
            }
        }
    }
}

/// The credential store of the web client for one server.
pub open spec fn credentials(
    server_id: Seq<char>,
    server_name: Seq<char>,
    user_id: Seq<char>,
    token: Seq<char>,
) -> JsonView {
    JsonView::Object(
        seq![
            (
                "Servers"@,
                JsonView::List(
                    seq![
                        JsonView::Object(
                            seq![
                                ("Id"@, JsonView::Text(server_id)),
                                ("Name"@, JsonView::Text(server_name)),
                                ("AccessToken"@, JsonView::Text(token)),
                                ("UserId"@, JsonView::Text(user_id)),
                                ("ManualAddress"@, JsonView::Text(""@)),
                                ("DateLastAccessed"@, JsonView::Number(Some(0))),
                                ("LastConnectionMode"@, JsonView::Number(Some(1))),
                            ],
                        ),
                    ],
                ),
            ),
        ],
    )
}

/// The page that completes a login, with the credentials as given.
pub open spec fn completing_page(credentials_text: Seq<char>) -> Seq<char> {
    "<!doctype html><html><head><meta charset=utf-8><title>Signing in…</title></head><body style=\"font-family:sans-serif;text-align:center;margin-top:4rem\"><p>Signing you in…</p><script>(function(){try{var c="@
        + credentials_text
        + ";c.Servers[0].ManualAddress=window.location.origin;c.Servers[0].DateLastAccessed=Date.now();localStorage.setItem('jellyfin_credentials',JSON.stringify(c));}catch(e){}window.location.replace('/');})();</script><noscript><a href=\"/\">Continue to Jellyfin</a></noscript></body></html>"@
}

/// The page for a printed credential store; an empty one stands in where it
/// could not be printed.
pub open spec fn page_for(printed: Result<Seq<char>, Seq<char>>) -> Seq<char> {
    completing_page(
        without_lt(
            match printed {
                Ok(s) => s,
                Err(_) => "{\"Servers\":[]}"@,
            },
        ),
    )
}

/// Makes the page for a printed credential store.
pub fn completing_page_of(printed: Result<String, String>) -> (r: String)
    ensures
        r@ == page_for(json::print_contents(printed)),
{
    let creds = match printed {
        Ok(s) => s,
        Err(_) => "{\"Servers\":[]}".to_owned(),
    };
    let safe = replace_lt(creds.as_str());
    "<!doctype html><html><head><meta charset=utf-8><title>Signing in…</title></head><body style=\"font-family:sans-serif;text-align:center;margin-top:4rem\"><p>Signing you in…</p><script>(function(){try{var c=".to_owned().concat(
    safe.as_str(),
    ).concat(
        ";c.Servers[0].ManualAddress=window.location.origin;c.Servers[0].DateLastAccessed=Date.now();localStorage.setItem('jellyfin_credentials',JSON.stringify(c));}catch(e){}window.location.replace('/');})();</script><noscript><a href=\"/\">Continue to Jellyfin</a></noscript></body></html>",
    )
}

/// Completes a login: the page writes the web client's credential store and
/// goes on into the app.
pub fn login_complete_page(server_id: &str, server_name: &str, user_id: &str, token: &str) -> (r:
    String)
    ensures
        r@ == page_for(
            json::json_printed(credentials(server_id@, server_name@, user_id@, token@)),
        ),
{
    let mut server: Vec<(String, Json)> = Vec::new();
    server.push(("Id".to_owned(), Json::text(server_id)));
    server.push(("Name".to_owned(), Json::text(server_name)));
    server.push(("AccessToken".to_owned(), Json::text(token)));
    server.push(("UserId".to_owned(), Json::text(user_id)));
    server.push(("ManualAddress".to_owned(), Json::text("")));
    server.push(("DateLastAccessed".to_owned(), Json::Number(Some(0))));
    server.push(("LastConnectionMode".to_owned(), Json::Number(Some(1))));
    let ghost wanted = credentials(server_id@, server_name@, user_id@, token@);
    let ghost list = wanted->Object_0[0].1->List_0;
    assert(json::entry_contents(server@) =~= list[0]->Object_0);
    let mut servers: Vec<Json> = Vec::new();
    servers.push(Json::object(server));
    assert(json::all_contents(servers@) =~= list);
    let mut top: Vec<(String, Json)> = Vec::new();
    top.push(("Servers".to_owned(), Json::list(servers)));
    assert(json::entry_contents(top@) =~= wanted->Object_0);
    let creds = Json::object(top);
    proof {
        reveal_with_fuel(json::printable, 4);
        assert(json::printable(list[0], 98));
        assert(json::printable(wanted->Object_0[0].1, 99));
        assert(json::printable(wanted, 100));
    }
    completing_page_of(json::print_json(&creds))
}

/// The part of the link page that offers a new account.
pub open spec fn create_section() -> Seq<char> {
    "<hr style=\"margin:1.5rem 0\"><p style=\"color:#666\">Don't have a Jellyswarrm account yet?</p><form method=post action=\"/sso/link\"><input type=hidden name=create value=1><button type=submit style=\"width:100%\">Create a new account</button></form>"@
}

/// The page that is shown to an identity without an account.
pub open spec fn link_page_text(email: Option<Seq<char>>, auto_provision: bool) -> Seq<char> {
    "<!doctype html><html><head><meta charset=utf-8><meta name=viewport content=\"width=device-width,initial-scale=1\"><title>Link your account</title></head><body style=\"font-family:sans-serif;max-width:24rem;margin:3rem auto;padding:0 1rem\"><h1>Link your account</h1><p>Signed in as <strong>"@
        + escaped(
        match email {
            Some(e) => e,
            None => "your SSO account"@,
        },
    )
        + "</strong> via SSO. Enter your existing Jellyswarrm username and password <em>once</em> to link this login to your account and its servers.</p><form method=post action=\"/sso/link\"><p><label>Username<br><input name=username autocomplete=username required style=\"width:100%;padding:.5rem\"></label></p><p><label>Password<br><input name=password type=password autocomplete=current-password required style=\"width:100%;padding:.5rem\"></label></p><button type=submit style=\"width:100%;padding:.6rem\">Link &amp; sign in</button></form>"@
        + (if auto_provision {
        create_section()
    } else {
        ""@
    }) + "</body></html>"@
}

/// Shown to an identity without an account: link an existing one or, if that
/// is allowed, create a new one.
pub fn link_page(email: Option<&str>, auto_provision: bool) -> (r: String)
    ensures
        r@ == link_page_text(
            match email {
                Some(e) => Some(e@),
                None => None,
            },
            auto_provision,
        ),
{
    let create = if auto_provision {
        "<hr style=\"margin:1.5rem 0\"><p style=\"color:#666\">Don't have a Jellyswarrm account yet?</p><form method=post action=\"/sso/link\"><input type=hidden name=create value=1><button type=submit style=\"width:100%\">Create a new account</button></form>"
    } else {
        ""
    };
    let shown = match email {
        Some(e) => esc(e),
        None => esc("your SSO account"),
    };
    "<!doctype html><html><head><meta charset=utf-8><meta name=viewport content=\"width=device-width,initial-scale=1\"><title>Link your account</title></head><body style=\"font-family:sans-serif;max-width:24rem;margin:3rem auto;padding:0 1rem\"><h1>Link your account</h1><p>Signed in as <strong>".to_owned().concat(
    shown.as_str(),
    ).concat(
        "</strong> via SSO. Enter your existing Jellyswarrm username and password <em>once</em> to link this login to your account and its servers.</p><form method=post action=\"/sso/link\"><p><label>Username<br><input name=username autocomplete=username required style=\"width:100%;padding:.5rem\"></label></p><p><label>Password<br><input name=password type=password autocomplete=current-password required style=\"width:100%;padding:.5rem\"></label></p><button type=submit style=\"width:100%;padding:.6rem\">Link &amp; sign in</button></form>",
    ).concat(create).concat("</body></html>")
}

/// The SHA-256 digest of bytes.
pub uninterp spec fn sha256_of(bytes: Seq<u8>) -> Seq<u8>;

/// `Sha256::digest`: a function of the bytes, 32 bytes long.
#[verifier::external_body]
fn sha256(bytes: &[u8]) -> (r: Vec<u8>)
    ensures
        r@ == sha256_of(bytes@),
        r@.len() == 32,
{
    <sha2::Sha256 as sha2::Digest>::digest(bytes).to_vec()
}

/// A hexadecimal digit.
pub open spec fn hex_digit(n: u8) -> char {
    "0123456789abcdef"@[n as int]
}

/// Bytes in hexadecimal: two digits for each, small letters.
pub open spec fn hex_text(bytes: Seq<u8>) -> Seq<char>
    decreases bytes.len(),
{
    if bytes.len() == 0 {
        Seq::empty()
    } else {
        hex_text(bytes.drop_last()).push(hex_digit(bytes.last() / 16)).push(
            hex_digit(bytes.last() % 16),
        )
    }
}

/// `hex::encode`: two digits of `0123456789abcdef` for each byte, the higher
/// half first.
#[verifier::external_body]
fn hex_encode(bytes: &Vec<u8>) -> (r: String)
    ensures
        r@ == hex_text(bytes@),
{
    hex::encode(bytes)
}

proof fn hex_text_len(bytes: Seq<u8>)
    ensures
        hex_text(bytes).len() == 2 * bytes.len(),
    decreases bytes.len(),
{
    if bytes.len() > 0 {
        hex_text_len(bytes.drop_last());
    }
}

/// How often another name is tried for a new user.
pub const MAX_NAME_ATTEMPTS: u32 = 6;

/// What the suffix of a name is made of: the identity and the attempt.
pub open spec fn suffix_source(issuer: Seq<char>, subject: Seq<char>, attempt: u32) -> Seq<char> {
    issuer + "|"@ + subject + "|"@ + text::decimal(attempt as nat)
}

/// The name of an attempt, given the digest of the identity and the attempt:
/// the base name first, then with eight digits of the digest.
pub open spec fn name_of_attempt(base: Seq<char>, attempt: u32, digest: Seq<u8>) -> Seq<char> {
    if attempt == 0 {
        base
    } else {
        base + "-"@ + hex_text(digest).take(8)
    }
}

/// The name of an attempt.
pub fn attempt_name(base: &str, attempt: u32, digest: &Vec<u8>) -> (r: String)
    requires
        digest.len() >= 4,
    ensures
        r@ == name_of_attempt(base@, attempt, digest@),
{
    if attempt == 0 {
        return base.to_owned();
    }
    let hex = hex_encode(digest);
    proof {
        hex_text_len(digest@);
    }
    let chars = text::chars_of(hex.as_str());
    let suffix = text::string_of_range(&chars, 0, 8);
    assert(suffix@ =~= hex_text(digest@).take(8));
    base.to_owned().concat("-").concat(suffix.as_str())
}

/// The name that a new user of an identity gets at an attempt: derived from the
/// identity, and told apart by it once a name was taken.
pub open spec fn candidate_of(
    issuer: Seq<char>,
    subject: Seq<char>,
    email: Option<Seq<char>>,
    attempt: u32,
) -> Seq<char> {
    name_of_attempt(
        derived_username(email, subject),
        attempt,
        sha256_of(encode_utf8(suffix_source(issuer, subject, attempt))),
    )
}

/// The name to try for a new user of an identity.
pub fn candidate_name(issuer: &str, subject: &str, email: &Option<String>, attempt: u32) -> (r:
    String)
    ensures
        r@ == candidate_of(issuer@, subject@, json::opt_text(*email), attempt),
{
    let base = derive_username(email, subject);
    if attempt == 0 {
        return base;
    }
    let source = issuer.to_owned().concat("|").concat(subject).concat("|").concat(
        text::decimal_u64(attempt as u64).as_str(),
    );
    let digest = sha256(source.as_str().as_bytes());
    attempt_name(base.as_str(), attempt, &digest)
}

/// Every name that is tried after the first starts with the base name and a
/// dash, so that users can tell whose it is.
pub proof fn later_names_extend_the_base(base: Seq<char>, attempt: u32, digest: Seq<u8>)
    requires
        attempt > 0,
        digest.len() >= 4,
    ensures
        name_of_attempt(base, attempt, digest).len() == base.len() + 9,
        name_of_attempt(base, attempt, digest).take(base.len() as int) == base,
{
    hex_text_len(digest);
    reveal_strlit("-");
    assert(name_of_attempt(base, attempt, digest).take(base.len() as int) =~= base);
}

/// Whether a character is a letter or a digit of ASCII, a full stop, an
/// underscore or a hyphen.
pub open spec fn plain_name_char(c: char) -> bool {
    let n = c as int;
    97 <= n <= 122 || 65 <= n <= 90 || 48 <= n <= 57 || n == 46 || n == 95 || n == 45
}

/// Cleaning leaves out what is not safe, and keeps everything else in its order.
pub proof fn cleaning_leaves_out_what_is_not_safe(s: Seq<char>)
    ensures
        cleaned(s) == s.filter(|c: char| plain_name_char(c)),
    decreases s.len(),
{
    reveal(Seq::filter);
    let keep = |c: char| plain_name_char(c);
    if s.len() > 0 {
        cleaning_leaves_out_what_is_not_safe(s.drop_last());
        assert(safe_char(s.last()) == keep(s.last()));
    } else {
        assert(cleaned(s) =~= s.filter(keep));
    }
}

proof fn first_part_of_split(first: Seq<char>, rest: Seq<char>, sep: char)
    requires
        !first.contains(sep),
    ensures
        text::split_on(first.push(sep) + rest, sep).len() >= 2,
        text::split_on(first.push(sep) + rest, sep)[0] == first,
        text::split_on(first, sep)[0] == first,
    decreases rest.len(),
{
    let parts = seq![first];
    text::split_of_join(parts, sep);
    assert(text::join(parts, seq![sep]) == first);
    let s = first.push(sep) + rest;
    if rest.len() == 0 {
        assert(s =~= first.push(sep));
        assert(s.drop_last() =~= first);
    } else {
        first_part_of_split(first, rest.drop_last(), sep);
        assert(s.drop_last() =~= first.push(sep) + rest.drop_last());
    }
}

/// A name is made of what stands before the first at sign of the email, where
/// something does, and of the subject otherwise.
pub proof fn names_come_from_the_local_part(
    local: Seq<char>,
    rest: Seq<char>,
    subject: Seq<char>,
)
    requires
        !local.contains('@'),
    ensures
        name_source(Some(local.push('@') + rest), subject) == if local.len() > 0 {
            local
        } else {
            subject
        },
        name_source(Some(local), subject) == if local.len() > 0 {
            local
        } else {
            subject
        },
        name_source(None, subject) == subject,
{
    first_part_of_split(local, rest, '@');
}

/// A derived name is all that is safe of its source; where nothing is, it is
/// `sso-` and at most the first twelve safe characters of the subject.
pub proof fn derived_names_keep_what_is_safe(email: Option<Seq<char>>, subject: Seq<char>)
    ensures
        ({
            let own = name_source(email, subject).filter(|c: char| plain_name_char(c));
            let rest = subject.filter(|c: char| plain_name_char(c));
            &&& own.len() > 0 ==> derived_username(email, subject) == own
            &&& own.len() == 0 && rest.len() <= 12 ==> derived_username(email, subject) == seq![
                's',
                's',
                'o',
                '-',
            ] + rest
            &&& own.len() == 0 && rest.len() > 12 ==> derived_username(email, subject) == seq![
                's',
                's',
                'o',
                '-',
            ] + rest.take(12)
        }),
{
    reveal_strlit("sso-");
    assert("sso-"@ =~= seq!['s', 's', 'o', '-']);
    cleaning_leaves_out_what_is_not_safe(name_source(email, subject));
    cleaning_leaves_out_what_is_not_safe(subject);
}

/// Only `<` is rewritten in embedded text, and what a text becomes does not
/// depend on what stands beside it: everything else stays as it is.
pub proof fn only_lt_is_rewritten(a: Seq<char>, b: Seq<char>)
    ensures
        without_lt(a + b) == without_lt(a) + without_lt(b),
        without_lt(seq!['<']) == seq!['\\', 'u', '0', '0', '3', 'c'],
        !a.contains('<') ==> without_lt(a) == a,
    decreases a.len() + b.len(),
{
    reveal_strlit("\\u003c");
    assert("\\u003c"@ =~= seq!['\\', 'u', '0', '0', '3', 'c']);
    let empty = Seq::<char>::empty();
    assert(seq!['<'].drop_last() =~= empty);
    assert(without_lt(empty) =~= empty);
    assert(without_lt(seq!['<']) =~= empty + "\\u003c"@);
    if b.len() > 0 {
        only_lt_is_rewritten(a, b.drop_last());
        assert((a + b).drop_last() =~= a + b.drop_last());
        assert((a + b).last() == b.last());
        assert(without_lt(a + b) =~= without_lt(a) + without_lt(b));
    } else {
        assert(a + b =~= a);
        assert(without_lt(a) + without_lt(b) =~= without_lt(a));
        if a.len() > 0 {
            only_lt_is_rewritten(a.drop_last(), empty);
            if !a.contains('<') {
                assert forall|i: int| 0 <= i < a.len() - 1 implies a.drop_last()[i] != '<' by {
                    assert(a.contains(a[i]));
                }
                assert(a.contains(a.last()));
                assert(a.drop_last().push(a.last()) =~= a);
            }
        } else {
            assert(without_lt(a) =~= a);
        }
    }
}

/// The credential store is for one server, under its id and name, and holds the
/// user and the token.
pub proof fn credentials_hold_user_and_token(
    server_id: Seq<char>,
    server_name: Seq<char>,
    user_id: Seq<char>,
    token: Seq<char>,
)
    ensures
        json::field(credentials(server_id, server_name, user_id, token), "Servers"@)
            matches Some(JsonView::List(servers)) && servers.len() == 1 && {
            let s = servers[0];
            &&& json::field(s, "Id"@) == Some(JsonView::Text(server_id))
            &&& json::field(s, "Name"@) == Some(JsonView::Text(server_name))
            &&& json::field(s, "AccessToken"@) == Some(JsonView::Text(token))
            &&& json::field(s, "UserId"@) == Some(JsonView::Text(user_id))
            &&& json::field(s, "ManualAddress"@) == Some(JsonView::Text(Seq::empty()))
            &&& json::field(s, "DateLastAccessed"@) == Some(JsonView::Number(Some(0)))
            &&& json::field(s, "LastConnectionMode"@) == Some(JsonView::Number(Some(1)))
        },
{
    reveal_strlit("Servers");
    reveal_strlit("Id");
    reveal_strlit("Name");
    reveal_strlit("AccessToken");
    reveal_strlit("UserId");
    reveal_strlit("ManualAddress");
    reveal_strlit("DateLastAccessed");
    reveal_strlit("LastConnectionMode");
    reveal_strlit("");
    assert(""@ =~= Seq::<char>::empty());
    assert("Id"@.len() == 2 && "Name"@.len() == 4 && "AccessToken"@.len() == 11 && "UserId"@.len()
        == 6 && "ManualAddress"@.len() == 13 && "DateLastAccessed"@.len() == 16
        && "LastConnectionMode"@.len() == 18);
    reveal_with_fuel(json::lookup, 9);
}

/// The page that completes a login embeds the credential store without any `<`,
/// and an empty store where there is none; pages for different stores differ in
/// nothing else.
pub proof fn pages_embed_the_credentials(printed: Seq<char>, words: Seq<char>)
    ensures
        text::contains_text(page_for(Ok(printed)), without_lt(printed)),
        page_for(Err(words)) == page_for(Ok("{\"Servers\":[]}"@)),
        page_for(Ok(printed)).len() - without_lt(printed).len() == page_for(
            Ok(Seq::empty()),
        ).len(),
{
    let head = "<!doctype html><html><head><meta charset=utf-8><title>Signing in…</title></head><body style=\"font-family:sans-serif;text-align:center;margin-top:4rem\"><p>Signing you in…</p><script>(function(){try{var c="@;
    let page = page_for(Ok(printed));
    let own = without_lt(printed);
    assert(page.subrange(head.len() as int, (head.len() + own.len()) as int) =~= own);
    assert(text::occurs_at(page, own, head.len() as int));
    assert(without_lt(Seq::empty()).len() == 0);
}

/// The page for an identity without an account shows the email, escaped, and
/// offers a new account exactly where that is allowed; it is the same otherwise.
pub proof fn accounts_are_offered_where_allowed(email: Seq<char>)
    ensures
        text::contains_text(link_page_text(Some(email), true), escaped(email)),
        text::contains_text(link_page_text(Some(email), false), escaped(email)),
        text::contains_text(link_page_text(Some(email), true), create_section()),
        link_page_text(Some(email), true).len() == link_page_text(Some(email), false).len()
            + create_section().len(),
        exists|at: int|
            0 <= at <= link_page_text(Some(email), false).len() && link_page_text(
                Some(email),
                true,
            ) == #[trigger] link_page_text(Some(email), false).take(at) + create_section()
                + link_page_text(Some(email), false).skip(at),
        link_page_text(None, true) == link_page_text(Some("your SSO account"@), true),
        link_page_text(None, false) == link_page_text(Some("your SSO account"@), false),
{
    reveal_strlit("");
    let head = "<!doctype html><html><head><meta charset=utf-8><meta name=viewport content=\"width=device-width,initial-scale=1\"><title>Link your account</title></head><body style=\"font-family:sans-serif;max-width:24rem;margin:3rem auto;padding:0 1rem\"><h1>Link your account</h1><p>Signed in as <strong>"@;
    let middle = "</strong> via SSO. Enter your existing Jellyswarrm username and password <em>once</em> to link this login to your account and its servers.</p><form method=post action=\"/sso/link\"><p><label>Username<br><input name=username autocomplete=username required style=\"width:100%;padding:.5rem\"></label></p><p><label>Password<br><input name=password type=password autocomplete=current-password required style=\"width:100%;padding:.5rem\"></label></p><button type=submit style=\"width:100%;padding:.6rem\">Link &amp; sign in</button></form>"@;
    let shown = escaped(email);
    let with = link_page_text(Some(email), true);
    let without = link_page_text(Some(email), false);
    let section = create_section();
    let at: int = (head.len() + shown.len() + middle.len()) as int;
    assert(with.subrange(head.len() as int, (head.len() + shown.len()) as int) =~= shown);
    assert(text::occurs_at(with, shown, head.len() as int));
    assert(without.subrange(head.len() as int, (head.len() + shown.len()) as int) =~= shown);
    assert(text::occurs_at(without, shown, head.len() as int));
    assert(with.subrange(at, at + section.len()) =~= section);
    assert(text::occurs_at(with, section, at));
    assert(with =~= without.take(at) + section + without.skip(at));
}

/// The first name is the derived one as it is; later ones have a hyphen and the
/// first four bytes of the digest in hexadecimal behind it.
pub proof fn later_names_end_with_four_bytes(base: Seq<char>, attempt: u32, digest: Seq<u8>)
    requires
        digest.len() >= 4,
    ensures
        name_of_attempt(base, 0, digest) == base,
        attempt > 0 ==> name_of_attempt(base, attempt, digest) == base.push('-') + hex_text(
            digest.take(4),
        ),
{
    reveal_strlit("-");
    hex_of_prefix(digest, 4);
    if attempt > 0 {
        assert(name_of_attempt(base, attempt, digest) =~= base.push('-') + hex_text(
            digest.take(4),
        ));
    }
}

proof fn hex_of_prefix(bytes: Seq<u8>, n: int)
    requires
        0 <= n <= bytes.len(),
    ensures
        hex_text(bytes).len() == 2 * bytes.len(),
        hex_text(bytes).take(2 * n) == hex_text(bytes.take(n)),
    decreases bytes.len(),
{
    hex_text_len(bytes);
    if n == bytes.len() {
        assert(bytes.take(n) =~= bytes);
        assert(hex_text(bytes).take(2 * n) =~= hex_text(bytes));
    } else {
        hex_of_prefix(bytes.drop_last(), n);
        assert(bytes.drop_last().take(n) =~= bytes.take(n));
        assert(hex_text(bytes).take(2 * n) =~= hex_text(bytes.drop_last()).take(2 * n));
    }
}

/// Every byte becomes two digits, the higher half first.
pub proof fn bytes_have_two_digits(bytes: Seq<u8>, i: int)
    requires
        0 <= i < bytes.len(),
    ensures
        hex_text(bytes).len() == 2 * bytes.len(),
        hex_text(bytes)[2 * i] == hex_digit((bytes[i] / 16) as u8),
        hex_text(bytes)[2 * i + 1] == hex_digit((bytes[i] % 16) as u8),
{
    hex_of_prefix(bytes, i + 1);
    hex_text_len(bytes.take(i));
    assert(bytes.take(i + 1).drop_last() =~= bytes.take(i));
    let part = hex_text(bytes).take(2 * (i + 1));
    assert(part[2 * i] == hex_text(bytes)[2 * i]);
    assert(part[2 * i + 1] == hex_text(bytes)[2 * i + 1]);
}

/// The digest is taken of the issuer, the subject and the number of the attempt
/// with bars between them, so that every attempt has another source.
pub proof fn attempts_have_sources_of_their_own(
    issuer: Seq<char>,
    subject: Seq<char>,
    a: u32,
    b: u32,
)
    ensures
        suffix_source(issuer, subject, a) == issuer.push('|') + subject.push('|')
            + text::decimal_int(a as int),
        suffix_source(issuer, subject, a) == suffix_source(issuer, subject, b) ==> a == b,
{
    reveal_strlit("|");
    assert(suffix_source(issuer, subject, a) =~= issuer.push('|') + subject.push('|')
        + text::decimal_int(a as int));
    let head = issuer.push('|') + subject;
    assert(suffix_source(issuer, subject, a) =~= head.push('|') + text::decimal_int(a as int));
    assert(suffix_source(issuer, subject, b) =~= head.push('|') + text::decimal_int(b as int));
    if suffix_source(issuer, subject, a) == suffix_source(issuer, subject, b) {
        text::decimal_int_is_plain(a as int);
        text::decimal_int_is_plain(b as int);
        text::last_separator_splits(
            head,
            head,
            '|',
            text::decimal_int(a as int),
            text::decimal_int(b as int),
        );
        text::decimal_int_reads_back(a as int);
        text::decimal_int_reads_back(b as int);
    }
}

/// Six more names are tried once the first is taken.
pub proof fn six_more_names_are_tried()
    ensures
        MAX_NAME_ATTEMPTS == 6,
{
}

}
