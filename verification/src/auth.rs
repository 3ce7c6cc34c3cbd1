//! Sign-in for synchronisation: the sync settings, the sign-in address
//! and whether a stored login token is still good.
use vstd::prelude::*;

use jsonwebtoken::{decode, Algorithm, DecodingKey, Validation};
use vstd::utf8::encode_utf8;

use crate::lines::{is_white_space, line_bounds, lines_of, white_space};
use crate::text::{chars_equal, chars_of, push_char, slice_range, string_of};
use crate::timeline::{decimal, push_decimal};

verus! {

/// Where the synchronisation service runs.
pub struct SyncConfig {
    pub workers_url: String,
}

impl Default for SyncConfig {
    /// No service set.
    fn default() -> (res: SyncConfig)
        ensures
            res.workers_url@.len() == 0,
    {
        SyncConfig { workers_url: String::new() }
    }
}

impl SyncConfig {
    /// Whether a service address is set.
    pub fn is_configured(&self) -> (res: bool)
        ensures
            res == (self.workers_url@.len() > 0),
    {
        let c = chars_of(self.workers_url.as_str());
        c.len() > 0
    }

    /// Whether the settings file may be written: it may when it does not
    /// exist, and otherwise unless its permissions read as read-only
    /// (`read_only` is none when they could not be read).
    pub fn is_editable(file_exists: bool, read_only: Option<bool>) -> (res: bool)
        ensures
            res == (!file_exists || read_only != Some(true)),
    {
        if !file_exists {
            return true;
        }
        match read_only {
            Some(r) => !r,
            None => true,
        }
    }
}

/// Bytes a URL carries as they are: ASCII letters and digits, `-`, `.`,
/// `_` and `~`.
pub open spec fn unreserved(b: u8) -> bool {
    (48 <= b <= 57) || (65 <= b <= 90) || (97 <= b <= 122) || b == 45 || b == 46 || b == 95 || b == 126
}

/// The uppercase hexadecimal digit of `n` (below 16).
pub open spec fn hex_upper(n: int) -> char {
    if n < 10 {
        (48 + n) as char
    } else {
        (55 + n) as char
    }
}

/// Percent-encoding: every byte but the unreserved ones becomes `%`
/// followed by two uppercase hexadecimal digits.
pub open spec fn percent_encoded(bytes: Seq<u8>) -> Seq<char>
    decreases bytes.len(),
{
    if bytes.len() == 0 {
        Seq::empty()
    } else {
        let b = bytes.last();
        percent_encoded(bytes.drop_last()) + if unreserved(b) {
            seq![b as char]
        } else {
            seq!['%', hex_upper(b as int / 16), hex_upper(b as int % 16)]
        }
    }
}

/// Percent-encodes the UTF-8 bytes of `s` (urlencoding `encode`), which its
/// documentation states: every byte except alphanumerics and `-`, `_`,
/// `.`, `~` is encoded.
#[verifier::external_body]
fn url_encode(s: &str) -> (res: String)
    ensures
        res@ == percent_encoded(encode_utf8(s@)),
{
    urlencoding::encode(s).into_owned()
}

/// `s` without its trailing `/` characters.
pub open spec fn trim_trailing_slashes(s: Seq<char>) -> Seq<char>
    decreases s.len(),
{
    if s.len() > 0 && s.last() == '/' {
        trim_trailing_slashes(s.drop_last())
    } else {
        s
    }
}

/// `s` without its trailing `/` characters.
pub fn without_trailing_slashes(s: &str) -> (res: String)
    ensures
        res@ == trim_trailing_slashes(s@),
{
    let c = chars_of(s);
    let mut n = c.len();
    assert(c@.take(n as int) =~= c@);
    while n > 0 && c[n - 1] == '/'
        invariant
            n <= c.len(),
            c@ == s@,
            trim_trailing_slashes(s@) == trim_trailing_slashes(c@.take(n as int)),
        decreases n,
    {
        assert(c@.take(n as int).drop_last() =~= c@.take(n - 1));
        n -= 1;
    }
    let kept = slice_range(&c, 0, n);
    assert(kept@ =~= c@.take(n as int));
    string_of(&kept)
}

/// The sign-in address: the service address without trailing slashes,
/// then `/auth/google?app_redirect=` and the percent-encoded address to
/// come back to.
pub fn build_auth_url(workers_url: &str, app_redirect: &str) -> (res: String)
    ensures
        res@ == trim_trailing_slashes(workers_url@) + "/auth/google?app_redirect="@ + percent_encoded(
            encode_utf8(app_redirect@),
        ),
{
    let mut out = without_trailing_slashes(workers_url);
    proof {
        reveal_strlit("/auth/google?app_redirect=");
    }
    out.append("/auth/google?app_redirect=");
    let enc = url_encode(app_redirect);
    out.append(enc.as_str());
    out
}

/// The `exp` claim that jsonwebtoken reads from `token` when decoding it
/// with signature, expiry and audience checks off and no claim required;
/// none when it cannot be decoded or has no integer `exp`.
pub uninterp spec fn jwt_exp(token: Seq<char>) -> Option<i64>;

/// Reads the expiry of a login token (jsonwebtoken `decode` with signature
/// validation, expiry and audience checks off and no required claims, into
/// a JSON value whose `exp` is read as an integer). The contract names the
/// result.
#[verifier::external_body]
fn token_expiry(token: &str) -> (res: Option<i64>)
    ensures
        res == jwt_exp(token@),
{
    let mut validation = Validation::new(Algorithm::HS256);
    validation.insecure_disable_signature_validation();
    validation.validate_exp = false;
    validation.validate_aud = false;
    validation.required_spec_claims.clear();
    match decode::<serde_json::Value>(token, &DecodingKey::from_secret(&[]), &validation) {
        Ok(data) => data.claims.get("exp").and_then(|v| v.as_i64()),
        Err(_) => None,
    }
}

/// Seconds before its expiry from which a token no longer counts as good.
pub const TOKEN_EXPIRY_MARGIN: i64 = 300;

/// Whether a token with this expiry is still good at `now` (seconds since
/// the Unix epoch): it expires more than five minutes later.
pub open spec fn token_good(exp: Option<i64>, now: i64) -> bool {
    match exp {
        Some(e) => e > now + TOKEN_EXPIRY_MARGIN,
        None => false,
    }
}

/// Whether the expiry of a decoded token is more than five minutes after
/// `now` (seconds since the Unix epoch); false for no expiry.
pub fn expiry_is_good(exp: Option<i64>, now: i64) -> (res: bool)
    ensures
        res == token_good(exp, now),
{
    match exp {
        Some(e) => (e as i128) > (now as i128) + (TOKEN_EXPIRY_MARGIN as i128),
        None => false,
    }
}

/// Whether a login token can be decoded and expires more than five
/// minutes after `now` (seconds since the Unix epoch).
pub fn is_token_valid(token: &str, now: i64) -> (res: bool)
    ensures
        res == token_good(jwt_exp(token@), now),
{
    expiry_is_good(token_expiry(token), now)
}

/// The whitespace-separated words of `s` (std `str::split_whitespace`).
pub open spec fn words(s: Seq<char>) -> Seq<Seq<char>>
    decreases s.len(),
{
    if s.len() == 0 {
        Seq::empty()
    } else {
        let w = words(s.drop_last());
        let c = s.last();
        if is_white_space(c) {
            w
        } else if s.len() >= 2 && !is_white_space(s[s.len() - 2]) {
            w.update(w.len() - 1, w.last().push(c))
        } else {
            w.push(seq![c])
        }
    }
}

/// The request target of the first line of an HTTP request (its second
/// word), empty when there is none.
pub open spec fn request_path(request: Seq<char>) -> Seq<char> {
    let first = if lines_of(request).len() > 0 { lines_of(request)[0] } else { Seq::empty() };
    let w = words(first);
    if w.len() > 1 { w[1] } else { Seq::empty() }
}

fn second_word(line: &Vec<char>) -> (res: Vec<char>)
    ensures
        res@ == (if words(line@).len() > 1 { words(line@)[1] } else { Seq::empty() }),
{
    let mut out: Vec<Vec<char>> = Vec::new();
    let mut i: usize = 0;
    assert(line@.take(0) =~= Seq::<char>::empty());
    while i < line.len()
        invariant
            i <= line.len(),
            out@.map_values(|x: Vec<char>| x@) == words(line@.take(i as int)),
            i > 0 && !is_white_space(line@[i - 1]) ==> out@.len() > 0,
        decreases line.len() - i,
    {
        let ghost before = out@.map_values(|x: Vec<char>| x@);
        let c = line[i];
        proof {
            assert(line@.take(i + 1).drop_last() =~= line@.take(i as int));
            assert(line@.take(i + 1).last() == c);
            if i > 0 {
                assert(line@.take(i + 1)[i - 1] == line@[i - 1]);
            }
        }
        if !white_space(c) {
            if i > 0 && !white_space(line[i - 1]) {
                let mut last = out.pop().unwrap();
                last.push(c);
                out.push(last);
                assert(out@.map_values(|x: Vec<char>| x@) =~= before.update(
                    before.len() - 1,
                    before.last().push(c),
                ));
            } else {
                let mut fresh: Vec<char> = Vec::new();
                fresh.push(c);
                assert(fresh@ =~= seq![c]);
                out.push(fresh);
                assert(out@.map_values(|x: Vec<char>| x@) =~= before.push(seq![c]));
            }
        }
        i += 1;
    }
    assert(line@.take(line.len() as int) =~= line@);
    if out.len() > 1 {
        let w = &out[1];
        let mut r: Vec<char> = Vec::new();
        let mut k: usize = 0;
        while k < w.len()
            invariant
                k <= w.len(),
                r@ == w@.take(k as int),
            decreases w.len() - k,
        {
            r.push(w[k]);
            assert(w@.take(k + 1) =~= w@.take(k as int).push(w@[k as int]));
            k += 1;
        }
        assert(w@.take(w.len() as int) =~= w@);
        r
    } else {
        Vec::new()
    }
}

/// The request target of an HTTP request's first line, empty when there
/// is none.
pub fn callback_path(request: &str) -> (res: String)
    ensures
        res@ == request_path(request@),
{
    let c = chars_of(request);
    let bounds = line_bounds(&c);
    let first: Vec<char> = if bounds.len() > 0 {
        let (a, b) = bounds[0];
        slice_range(&c, a, b)
    } else {
        Vec::new()
    };
    let w = second_word(&first);
    string_of(&w)
}

/// The address the sign-in page sends the browser back to, as the
/// loopback listener on `port` sees it.
pub open spec fn callback_url(port: u16, path: Seq<char>) -> Seq<char> {
    "http://127.0.0.1:"@ + decimal(port as nat) + path
}

/// The full address of a callback request received on `port`.
pub fn callback_address(port: u16, path: &str) -> (res: String)
    ensures
        res@ == callback_url(port, path@),
{
    proof {
        reveal_strlit("http://127.0.0.1:");
    }
    let mut out = String::from_str("http://127.0.0.1:");
    push_decimal(&mut out, port as u32);
    out.append(path);
    out
}

/// What the url crate reads from the address `url`: none when it does not
/// parse as a URL; otherwise its query as key and value pairs, in order,
/// each percent-decoded.
pub uninterp spec fn url_query(url: Seq<char>) -> Option<Seq<(Seq<char>, Seq<char>)>>;

/// The pairs as plain text sequences.
pub open spec fn pairs_view(v: Seq<(String, String)>) -> Seq<(Seq<char>, Seq<char>)> {
    v.map_values(|p: (String, String)| (p.0@, p.1@))
}

/// Reads the query pairs of an address (url `Url::parse`, then
/// `Url::query_pairs`, each key and value taken as an owned string). The
/// contract names the result.
#[verifier::external_body]
fn query_pairs_of(url: &str) -> (res: Option<Vec<(String, String)>>)
    ensures
        match res {
            None => url_query(url@) is None,
            Some(v) => url_query(url@) == Some(pairs_view(v@)),
        },
{
    match url::Url::parse(url) {
        Ok(u) => Some(u.query_pairs().map(|(k, v)| (k.into_owned(), v.into_owned())).collect()),
        Err(_) => None,
    }
}

/// The value of the first pair whose key is `token`, if any.
pub open spec fn first_token(pairs: Seq<(Seq<char>, Seq<char>)>) -> Option<Seq<char>>
    decreases pairs.len(),
{
    if pairs.len() == 0 {
        None
    } else if pairs[0].0 == "token"@ {
        Some(pairs[0].1)
    } else {
        first_token(pairs.drop_first())
    }
}

/// The value of the first query pair whose key is `token`.
pub fn token_of(pairs: &Vec<(String, String)>) -> (res: Option<String>)
    ensures
        match first_token(pairs_view(pairs@)) {
            None => res is None,
            Some(t) => res matches Some(s) && s@ == t,
        },
{
    let key = chars_of("token");
    let ghost all = pairs_view(pairs@);
    let mut i: usize = 0;
    assert(all.subrange(0, all.len() as int) =~= all);
    while i < pairs.len()
        invariant
            i <= pairs.len(),
            all == pairs_view(pairs@),
            key@ == "token"@,
            first_token(all) == first_token(all.subrange(i as int, all.len() as int)),
        decreases pairs.len() - i,
    {
        let ghost rest = all.subrange(i as int, all.len() as int);
        assert(rest[0] == all[i as int]);
        let k = chars_of(pairs[i].0.as_str());
        if chars_equal(&k, &key) {
            let v = pairs[i].1.clone();
            return Some(v);
        }
        assert(rest.drop_first() =~= all.subrange(i + 1, all.len() as int));
        i += 1;
    }
    assert(all.subrange(i as int, all.len() as int).len() == 0);
    None
}

/// The value of the `token` parameter of an address, as the url crate
/// reads the address: none when it does not parse as a URL; otherwise the
/// first `token` parameter, if any.
pub fn token_param(url: &str) -> (res: Option<Option<String>>)
    ensures
        match url_query(url@) {
            None => res is None,
            Some(q) => match first_token(q) {
                None => res == Some(None::<String>),
                Some(t) => res matches Some(Some(s)) && s@ == t,
            },
        },
{
    match query_pairs_of(url) {
        None => None,
        Some(pairs) => Some(token_of(&pairs)),
    }
}

/// What the sign-in callback brought.
pub enum CallbackOutcome {
    /// A token, to be stored.
    Token(String),
    /// A valid callback without a token.
    NoToken,
    /// Not a valid callback address.
    Invalid,
}

/// What a callback request received on `port` brings: the `token`
/// parameter of the address its request target forms.
pub fn callback_outcome(request: &str, port: u16) -> (res: CallbackOutcome)
    ensures
        match url_query(callback_url(port, request_path(request@))) {
            None => res is Invalid,
            Some(q) => match first_token(q) {
                None => res is NoToken,
                Some(t) => res matches CallbackOutcome::Token(s) && s@ == t,
            },
        },
{
    let path = callback_path(request);
    let url = callback_address(port, path.as_str());
    match token_param(url.as_str()) {
        None => CallbackOutcome::Invalid,
        Some(None) => CallbackOutcome::NoToken,
        Some(Some(t)) => CallbackOutcome::Token(t),
    }
}

/// The page shown in the browser after a callback: success once the token
/// was stored, otherwise why the login failed.
pub fn callback_page(outcome: &CallbackOutcome) -> (res: &'static str)
    ensures
        res@ == (match outcome {
            CallbackOutcome::Token(_) => "<html><body><p>Login successful. You can close this tab.</p></body></html>"@,
            CallbackOutcome::NoToken => "<html><body><p>Login failed: no token received.</p></body></html>"@,
            CallbackOutcome::Invalid => "<html><body><p>Login failed: invalid callback.</p></body></html>"@,
        }),
{
    match outcome {
        CallbackOutcome::Token(_) => "<html><body><p>Login successful. You can close this tab.</p></body></html>",
        CallbackOutcome::NoToken => "<html><body><p>Login failed: no token received.</p></body></html>",
        CallbackOutcome::Invalid => "<html><body><p>Login failed: invalid callback.</p></body></html>",
    }
}

} // verus!
