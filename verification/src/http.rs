//! Provisioning HTTP server logic.
//!
//! The server exists to funnel an operator's browser to the configuration
//! page and to take one credentials submission.  Everything it decides —
//! the captive-portal redirect on a foreign Host, the three routes, the
//! form parsing, the JSON replies — is computed here from the request's
//! plain values; the transport merely carries the bytes.

use vstd::prelude::*;

verus! {

use vstd::string::StrSliceExecFns;
use vstd::utf8::encode_utf8;
use vstd::utf8::{valid_utf8, decode_utf8, decode_utf8_encode_utf8, encode_utf8_decode_utf8};
use crate::bupt::{AuthError, BuptAccount};
use crate::net::NetConfig;
use crate::percent::{percent_decoding, percent_decode_bytes};
use crate::text::{byte_index, bytes_eq, bytes_to_string, dec_digits, find_byte,
    lemma_byte_index_bounds, lemma_byte_index_at, sub_bytes, u64_to_dec};

/// The request surface the server serves.
#[derive(Clone, Copy, PartialEq, Eq, Structural)]
pub enum HttpMethod {
    Get,
    Post,
}

/// One request, reduced to the values the routing logic reads.
pub struct HttpRequest {
    pub method: HttpMethod,
    /// The Host header, if the client sent one.
    pub host: Option<Vec<u8>>,
    pub uri: Vec<u8>,
    /// The Content-Type header, if any.
    pub content_type: Option<Vec<u8>>,
    pub body: Vec<u8>,
}

/// One response, as the values the transport writes out.
pub struct HttpResponse {
    pub status: u16,
    pub content_type: Option<Vec<u8>>,
    pub location: Option<Vec<u8>>,
    pub body: Vec<u8>,
}

/// One file of the embedded frontend bundle.
pub struct Asset {
    pub path: Vec<u8>,
    pub content: Vec<u8>,
}

/// Whether the request's Host names the server's own canonical address.
pub open spec fn host_ok(req: HttpRequest, canonical: Seq<u8>) -> bool {
    req.host matches Some(h) && h@ == canonical
}

/// Where a foreign-host request is redirected: the canonical root.
pub open spec fn redirect_location(canonical: Seq<u8>) -> Seq<u8> {
    encode_utf8("http://"@) + canonical + encode_utf8("/"@)
}

/// The captive-portal redirect: a 302 to the canonical root with nothing
/// else in it.
pub open spec fn is_redirect_to_canonical(resp: HttpResponse, canonical: Seq<u8>) -> bool {
    &&& resp.status == 302
    &&& resp.location matches Some(l) && l@ == redirect_location(canonical)
    &&& resp.content_type is None
    &&& resp.body@.len() == 0
}

/// Builds the captive-portal redirect response.
pub fn redirect_to_canonical(canonical: &Vec<u8>) -> (r: HttpResponse)
    ensures
        is_redirect_to_canonical(r, canonical@),
{
    let mut l = ("http://").as_bytes_vec();
    let mut host = sub_bytes(canonical, 0, canonical.len());
    l.append(&mut host);
    let mut slash = ("/").as_bytes_vec();
    l.append(&mut slash);
    proof {
        assert(canonical@.subrange(0, canonical@.len() as int) =~= canonical@);
    }
    HttpResponse { status: 302, content_type: None, location: Some(l), body: Vec::new() }
}

/// The content the bundle holds under `path`: the first entry with that
/// path, if any.
pub open spec fn asset_content(assets: Seq<Asset>, path: Seq<u8>) -> Option<Seq<u8>>
    decreases assets.len(),
{
    if assets.len() == 0 {
        None
    } else if assets[0].path@ == path {
        Some(assets[0].content@)
    } else {
        asset_content(assets.drop_first(), path)
    }
}

/// Looks a path up in the bundle and hands back a copy of its content.
pub fn lookup_asset(assets: &Vec<Asset>, path: &Vec<u8>) -> (r: Option<Vec<u8>>)
    ensures
        match r {
            Some(c) => asset_content(assets@, path@) == Some(c@),
            None => asset_content(assets@, path@) is None,
        },
{
    let n = assets.len();
    let mut i: usize = 0;
    proof {
        assert(assets@.skip(0) =~= assets@);
    }
    while i < n
        invariant
            i <= n,
            n == assets@.len(),
            asset_content(assets@, path@) == asset_content(assets@.skip(i as int), path@),
        decreases n - i,
    {
        proof {
            assert(assets@.skip(i as int)[0] == assets@[i as int]);
            assert(assets@.skip(i as int).drop_first() =~= assets@.skip(i + 1));
        }
        if bytes_eq(&assets[i].path, path) {
            let c = sub_bytes(&assets[i].content, 0, assets[i].content.len());
            proof {
                assert(assets@[i as int].content@.subrange(
                    0,
                    assets@[i as int].content@.len() as int,
                ) =~= assets@[i as int].content@);
            }
            return Some(c);
        }
        i += 1;
    }
    proof {
        assert(assets@.skip(n as int) =~= Seq::<Asset>::empty());
    }
    None
}

/// The extension of a URI: what follows its last `.`, or the whole URI
/// when it has none.
pub open spec fn ext_of(uri: Seq<u8>) -> Seq<u8>
    decreases uri.len(),
    via ext_of_decreases
{
    if uri.len() == 0 {
        uri
    } else {
        let i = byte_index(uri, 0x2e);
        if i == uri.len() {
            uri
        } else {
            ext_of(uri.skip(i + 1))
        }
    }
}

#[via_fn]
proof fn ext_of_decreases(uri: Seq<u8>) {
    lemma_byte_index_bounds(uri, 0x2e);
}

/// The MIME type served for an extension: the three types of the frontend
/// table, and a generic byte-stream type for everything else.
pub open spec fn mime_of(ext: Seq<u8>) -> Seq<u8> {
    if ext == encode_utf8("html"@) {
        encode_utf8("text/html"@)
    } else if ext == encode_utf8("js"@) {
        encode_utf8("application/javascript"@)
    } else if ext == encode_utf8("css"@) {
        encode_utf8("text/css"@)
    } else {
        encode_utf8("application/octet-stream"@)
    }
}

proof fn lemma_ext_of_no_dot(uri: Seq<u8>)
    requires
        forall|j: int| 0 <= j < uri.len() ==> uri[j] != 0x2e,
    ensures
        ext_of(uri) == uri,
{
    if uri.len() > 0 {
        lemma_byte_index_at(uri, 0x2e, uri.len() as int);
    }
}

proof fn lemma_ext_of_last_dot(uri: Seq<u8>, k: int)
    requires
        0 <= k < uri.len(),
        uri[k] == 0x2e,
        forall|j: int| k < j < uri.len() ==> uri[j] != 0x2e,
    ensures
        ext_of(uri) == uri.skip(k + 1),
    decreases uri.len(),
{
    lemma_byte_index_bounds(uri, 0x2e);
    let i = byte_index(uri, 0x2e);
    assert(i <= k) by {
        if i > k {
            lemma_byte_index_found(uri, 0x2e);
        }
    }
    if i == k {
        assert forall|j: int| 0 <= j < uri.skip(k + 1).len() implies #[trigger] uri.skip(
            k + 1,
        )[j] != 0x2e by {
            assert(uri.skip(k + 1)[j] == uri[k + 1 + j]);
        }
        lemma_ext_of_no_dot(uri.skip(k + 1));
    } else {
        lemma_byte_index_found(uri, 0x2e);
        assert(uri.skip(i + 1)[k - i - 1] == uri[k]);
        assert forall|j: int| k - i - 1 < j < uri.skip(i + 1).len() implies #[trigger] uri.skip(
            i + 1,
        )[j] != 0x2e by {
            assert(uri.skip(i + 1)[j] == uri[i + 1 + j]);
        }
        lemma_ext_of_last_dot(uri.skip(i + 1), k - i - 1);
        assert(uri.skip(i + 1).skip(k - i) =~= uri.skip(k + 1));
    }
}

/// Below `byte_index` the byte does not occur, and at it the byte stands
/// when the index is inside the sequence.
pub proof fn lemma_byte_index_found(s: Seq<u8>, b: u8)
    ensures
        forall|j: int| 0 <= j < byte_index(s, b) ==> s[j] != b,
        byte_index(s, b) < s.len() ==> s[byte_index(s, b)] == b,
    decreases s.len(),
{
    lemma_byte_index_bounds(s, b);
    if s.len() > 0 && s[0] != b {
        lemma_byte_index_found(s.drop_first(), b);
        lemma_byte_index_bounds(s.drop_first(), b);
        let i = byte_index(s, b);
        assert forall|j: int| 0 <= j < i implies s[j] != b by {
            if j > 0 {
                assert(s.drop_first()[j - 1] != b);
            }
        }
        if i < s.len() {
            assert(s.drop_first()[i - 1] == b);
        }
    }
}

/// Resolves the MIME type for a URI from its extension.
pub fn mime_for(uri: &Vec<u8>) -> (r: Vec<u8>)
    ensures
        r@ == mime_of(ext_of(uri@)),
{
    let n = uri.len();
    let mut i: usize = n;
    while i > 0
        invariant
            i <= n,
            n == uri@.len(),
            forall|j: int| i <= j < n ==> uri@[j] != 0x2e,
        decreases i,
    {
        if uri[i - 1] == 0x2e {
            let ext = sub_bytes(uri, i, n);
            proof {
                lemma_ext_of_last_dot(uri@, i - 1);
                assert(uri@.skip(i as int) =~= uri@.subrange(i as int, n as int));
            }
            return mime_for_ext(&ext);
        }
        i -= 1;
    }
    proof {
        lemma_ext_of_no_dot(uri@);
    }
    mime_for_ext(uri)
}

fn mime_for_ext(ext: &Vec<u8>) -> (r: Vec<u8>)
    ensures
        r@ == mime_of(ext@),
{
    if bytes_eq(ext, &("html").as_bytes_vec()) {
        ("text/html").as_bytes_vec()
    } else if bytes_eq(ext, &("js").as_bytes_vec()) {
        ("application/javascript").as_bytes_vec()
    } else if bytes_eq(ext, &("css").as_bytes_vec()) {
        ("text/css").as_bytes_vec()
    } else {
        ("application/octet-stream").as_bytes_vec()
    }
}

/// `s` without its leading slashes, as the wildcard route sees a path.
pub open spec fn strip_slashes(s: Seq<u8>) -> Seq<u8>
    decreases s.len(),
{
    if s.len() > 0 && s[0] == 0x2f {
        strip_slashes(s.drop_first())
    } else {
        s
    }
}

proof fn lemma_strip_slashes_at(s: Seq<u8>, f: int)
    requires
        0 <= f <= s.len(),
        forall|j: int| 0 <= j < f ==> s[j] == 0x2f,
        f < s.len() ==> s[f] != 0x2f,
    ensures
        strip_slashes(s) == s.subrange(f, s.len() as int),
    decreases f,
{
    if f == 0 {
        assert(s.subrange(0, s.len() as int) =~= s);
    } else {
        lemma_strip_slashes_at(s.drop_first(), f - 1);
        assert(s.drop_first().subrange(f - 1, s.drop_first().len() as int) =~= s.subrange(
            f,
            s.len() as int,
        ));
    }
}

fn first_non_slash(s: &Vec<u8>) -> (f: usize)
    ensures
        f <= s@.len(),
        forall|j: int| 0 <= j < f ==> s@[j] == 0x2f,
        f < s@.len() ==> s@[f as int] != 0x2f,
{
    let n = s.len();
    let mut i: usize = 0;
    while i < n
        invariant
            i <= n,
            n == s@.len(),
            forall|j: int| 0 <= j < i ==> s@[j] == 0x2f,
        decreases n - i,
    {
        if s[i] != 0x2f {
            return i;
        }
        i += 1;
    }
    n
}

/// Removes the leading slashes of a URI to get the bundle path.
pub fn strip_leading_slashes(s: &Vec<u8>) -> (r: Vec<u8>)
    ensures
        r@ == strip_slashes(s@),
{
    let n = s.len();
    let f = first_non_slash(s);
    proof {
        lemma_strip_slashes_at(s@, f as int);
    }
    sub_bytes(s, f, n)
}

/// The lowercase hex digit for a value below 16.
pub open spec fn lower_hex(n: u8) -> u8 {
    if n < 10 {
        (0x30 + n) as u8
    } else {
        (0x61 + (n - 10)) as u8
    }
}

/// How one byte of a JSON string value is written: quote and backslash get
/// a backslash escape, the five short control escapes are used where they
/// exist, every other control byte becomes `\u00xx`, and all else stands
/// as it is.
pub open spec fn json_escape_byte(b: u8) -> Seq<u8> {
    if b == 0x22 {
        seq![0x5cu8, 0x22]
    } else if b == 0x5c {
        seq![0x5cu8, 0x5c]
    } else if b == 0x08 {
        seq![0x5cu8, 0x62]
    } else if b == 0x09 {
        seq![0x5cu8, 0x74]
    } else if b == 0x0a {
        seq![0x5cu8, 0x6e]
    } else if b == 0x0c {
        seq![0x5cu8, 0x66]
    } else if b == 0x0d {
        seq![0x5cu8, 0x72]
    } else if b < 0x20 {
        seq![0x5cu8, 0x75, 0x30, 0x30, lower_hex(b / 16), lower_hex(b % 16)]
    } else {
        seq![b]
    }
}

/// A byte string escaped for use inside a JSON string value.
pub open spec fn json_escaped(s: Seq<u8>) -> Seq<u8>
    decreases s.len(),
{
    if s.len() == 0 {
        seq![]
    } else {
        json_escape_byte(s[0]) + json_escaped(s.drop_first())
    }
}

proof fn lemma_json_escaped_snoc(s: Seq<u8>, b: u8)
    ensures
        json_escaped(s.push(b)) == json_escaped(s) + json_escape_byte(b),
    decreases s.len(),
{
    if s.len() == 0 {
        reveal_with_fuel(json_escaped, 2);
        assert(s.push(b)[0] == b);
        assert(s.push(b).drop_first() =~= Seq::<u8>::empty());
        assert(json_escaped(s.push(b)) =~= json_escaped(s) + json_escape_byte(b));
    } else {
        assert(s.push(b)[0] == s[0]);
        assert(s.push(b).drop_first() =~= s.drop_first().push(b));
        lemma_json_escaped_snoc(s.drop_first(), b);
        assert(json_escaped(s.push(b)) == json_escape_byte(s[0]) + (json_escaped(s.drop_first())
            + json_escape_byte(b)));
        assert(json_escape_byte(s[0]) + (json_escaped(s.drop_first()) + json_escape_byte(b)) =~= (
        json_escape_byte(s[0]) + json_escaped(s.drop_first())) + json_escape_byte(b));
    }
}

fn push_json_escaped(out: &mut Vec<u8>, b: u8)
    ensures
        final(out)@ == old(out)@ + json_escape_byte(b),
{
    if b == 0x22 {
        out.push(0x5c);
        out.push(0x22);
    } else if b == 0x5c {
        out.push(0x5c);
        out.push(0x5c);
    } else if b == 0x08 {
        out.push(0x5c);
        out.push(0x62);
    } else if b == 0x09 {
        out.push(0x5c);
        out.push(0x74);
    } else if b == 0x0a {
        out.push(0x5c);
        out.push(0x6e);
    } else if b == 0x0c {
        out.push(0x5c);
        out.push(0x66);
    } else if b == 0x0d {
        out.push(0x5c);
        out.push(0x72);
    } else if b < 0x20 {
        out.push(0x5c);
        out.push(0x75);
        out.push(0x30);
        out.push(0x30);
        out.push(if b / 16 < 10 {
            0x30 + b / 16
        } else {
            0x61 + (b / 16 - 10)
        });
        out.push(if b % 16 < 10 {
            0x30 + b % 16
        } else {
            0x61 + (b % 16 - 10)
        });
    } else {
        out.push(b);
    }
    proof {
        assert(out@ =~= old(out)@ + json_escape_byte(b));
    }
}

/// The JSON body reporting a successful login.
pub open spec fn json_ok_spec() -> Seq<u8> {
    encode_utf8("{\"code\":0}"@)
}

/// The JSON body reporting a rejected login with its reason.
pub open spec fn json_err_spec(msg: Seq<u8>) -> Seq<u8> {
    encode_utf8("{\"code\":1,\"message\":\""@) + json_escaped(msg) + encode_utf8("\"}"@)
}

/// Builds the success payload.
pub fn json_ok_body() -> (r: Vec<u8>)
    ensures
        r@ == json_ok_spec(),
{
    ("{\"code\":0}").as_bytes_vec()
}

/// Builds the failure payload around an escaped message.
pub fn json_err_body(msg: &Vec<u8>) -> (r: Vec<u8>)
    ensures
        r@ == json_err_spec(msg@),
{
    let mut r = ("{\"code\":1,\"message\":\"").as_bytes_vec();
    let n = msg.len();
    let mut i: usize = 0;
    while i < n
        invariant
            i <= n,
            n == msg@.len(),
            r@ == encode_utf8("{\"code\":1,\"message\":\""@) + json_escaped(msg@.take(i as int)),
        decreases n - i,
    {
        push_json_escaped(&mut r, msg[i]);
        proof {
            assert(msg@.take(i + 1) =~= msg@.take(i as int).push(msg@[i as int]));
            lemma_json_escaped_snoc(msg@.take(i as int), msg@[i as int]);
        }
        i += 1;
    }
    let mut tail = ("\"}").as_bytes_vec();
    r.append(&mut tail);
    proof {
        assert(msg@.take(n as int) =~= msg@);
        assert(r@ =~= json_err_spec(msg@));
    }
    r
}

/// The message reported for each way a login run can fail.
pub open spec fn auth_error_message_spec(e: AuthError) -> Seq<u8> {
    match e {
        AuthError::MissingLocation => encode_utf8("no Location header found in response"@),
        AuthError::UnexpectedStatus(s) => encode_utf8("unexpected status code: "@) + dec_digits(
            s as nat,
        ),
        AuthError::UnexpectedRedirect => encode_utf8("unexpected redirect"@),
        AuthError::TooManyRedirects => encode_utf8("too many redirects"@),
        AuthError::Rejected(reason) => encode_utf8("BUPT-portal authentication failed: "@)
            + reason@,
        AuthError::Transport => encode_utf8("transport error"@),
    }
}

/// Renders a login failure as its human-readable message.
pub fn auth_error_message(e: &AuthError) -> (r: Vec<u8>)
    ensures
        r@ == auth_error_message_spec(*e),
{
    match e {
        AuthError::MissingLocation => ("no Location header found in response").as_bytes_vec(),
        AuthError::UnexpectedStatus(s) => {
            let mut r = ("unexpected status code: ").as_bytes_vec();
            let mut d = u64_to_dec(*s as u64);
            r.append(&mut d);
            r
        },
        AuthError::UnexpectedRedirect => ("unexpected redirect").as_bytes_vec(),
        AuthError::TooManyRedirects => ("too many redirects").as_bytes_vec(),
        AuthError::Rejected(reason) => {
            let mut r = ("BUPT-portal authentication failed: ").as_bytes_vec();
            let mut d = sub_bytes(reason, 0, reason.len());
            r.append(&mut d);
            proof {
                assert(reason@.subrange(0, reason@.len() as int) =~= reason@);
            }
            r
        },
        AuthError::Transport => ("transport error").as_bytes_vec(),
    }
}

/// The one-shot rendezvous between the login handler and the waiting
/// orchestrator: signalled at most once, never reset.
pub struct Rendezvous {
    pub signaled: bool,
}

impl Rendezvous {
    /// A fresh, unsignalled rendezvous.
    pub fn new() -> (r: Self)
        ensures
            !r.signaled,
    {
        Rendezvous { signaled: false }
    }

    /// Signals completion; allowed only once.
    pub fn signal(&mut self)
        requires
            !old(self).signaled,
        ensures
            final(self).signaled,
    {
        self.signaled = true;
    }

    /// Whether the rendezvous has been signalled.
    pub fn is_signaled(&self) -> (r: bool)
        ensures
            r == self.signaled,
    {
        self.signaled
    }
}

/// Why a submitted login form is rejected.
#[derive(Clone, Copy, Debug, PartialEq, Eq, Structural)]
pub enum FormError {
    /// A `&`-separated piece had no `=` in it.
    InvalidPair,
    /// A decoded key or value was not valid UTF-8.
    BadEncoding,
    /// No `username` field was submitted.
    MissingUsername,
    /// No `password` field was submitted.
    MissingPassword,
}

/// What one `key=value` piece does to the fields collected so far: a piece
/// without `=` is an error; otherwise key and value (the text between the
/// first and second `=`) are percent-decoded, must decode to UTF-8, and a
/// `username` or `password` key stores its value, any other key is
/// ignored.
pub open spec fn pair_step(
    pair: Seq<u8>,
    u: Option<Seq<char>>,
    p: Option<Seq<char>>,
) -> Result<(Option<Seq<char>>, Option<Seq<char>>), FormError> {
    let j = byte_index(pair, 0x3d);
    if j == pair.len() {
        Err(FormError::InvalidPair)
    } else {
        let key = pair.take(j);
        let rest = pair.skip(j + 1);
        let value = rest.take(byte_index(rest, 0x3d));
        let kd = percent_decoding(key);
        let vd = percent_decoding(value);
        if !valid_utf8(kd) || !valid_utf8(vd) {
            Err(FormError::BadEncoding)
        } else if kd == encode_utf8("username"@) {
            Ok((Some(decode_utf8(vd)), p))
        } else if kd == encode_utf8("password"@) {
            Ok((u, Some(decode_utf8(vd))))
        } else {
            Ok((u, p))
        }
    }
}

/// Folds [`pair_step`] over the `&`-separated pieces of a form body and
/// demands both fields at the end.
pub open spec fn form_fold(
    s: Seq<u8>,
    u: Option<Seq<char>>,
    p: Option<Seq<char>>,
) -> Result<(Seq<char>, Seq<char>), FormError>
    decreases s.len(),
    via form_fold_decreases
{
    let i = byte_index(s, 0x26);
    match pair_step(s.take(i), u, p) {
        Err(e) => Err(e),
        Ok((u2, p2)) => if i == s.len() {
            match u2 {
                None => Err(FormError::MissingUsername),
                Some(uu) => match p2 {
                    None => Err(FormError::MissingPassword),
                    Some(pp) => Ok((uu, pp)),
                },
            }
        } else {
            form_fold(s.skip(i + 1), u2, p2)
        },
    }
}

#[via_fn]
proof fn form_fold_decreases(s: Seq<u8>, u: Option<Seq<char>>, p: Option<Seq<char>>) {
    lemma_byte_index_bounds(s, 0x26);
}

/// What a login form body parses to: the two decoded credentials, or the
/// first error the left-to-right parse runs into.
pub open spec fn login_form_spec(body: Seq<u8>) -> Result<(Seq<char>, Seq<char>), FormError> {
    form_fold(body, Option::None, Option::None)
}

pub open spec fn opt_chars(o: Option<String>) -> Option<Seq<char>> {
    match o {
        Option::None => Option::None,
        Option::Some(s) => Option::Some(s@),
    }
}

/// Parses a submitted login form body into an account.
pub fn parse_login_form(body: &Vec<u8>) -> (r: Result<BuptAccount, FormError>)
    ensures
        match r {
            Ok(acc) => login_form_spec(body@) matches Ok(pair) && acc.username@ == pair.0
                && acc.password@ == pair.1,
            Err(e) => login_form_spec(body@) matches Err(e2) && e == e2,
        },
{
    proof {
        assert(body@.skip(0) =~= body@);
    }
    parse_form_from(body, 0, None, None)
}

fn parse_form_from(body: &Vec<u8>, start: usize, u: Option<String>, p: Option<String>) -> (r:
    Result<BuptAccount, FormError>)
    requires
        start <= body@.len(),
    ensures
        ({
            let sr = form_fold(body@.skip(start as int), opt_chars(u), opt_chars(p));
            match r {
                Ok(acc) => sr matches Ok(pair) && acc.username@ == pair.0 && acc.password@
                    == pair.1,
                Err(e) => sr matches Err(e2) && e == e2,
            }
        }),
    decreases body@.len() - start,
{
    let ghost suffix = body@.skip(start as int);
    let n = body.len();
    let amp = find_byte(body, start, 0x26);
    let seg_end = match amp {
        Some(a) => a,
        None => n,
    };
    proof {
        assert forall|j: int| 0 <= j < seg_end - start implies #[trigger] suffix[j] != 0x26 by {
            assert(suffix[j] == body@[start + j]);
        }
        if seg_end < n {
            assert(suffix[seg_end - start] == body@[seg_end as int]);
        }
        lemma_byte_index_at(suffix, 0x26, seg_end - start as int);
    }
    let pair = sub_bytes(body, start, seg_end);
    proof {
        assert(pair@ =~= suffix.take(seg_end - start as int));
    }
    let eq1 = find_byte(&pair, 0, 0x3d);
    let jj = match eq1 {
        Some(j) => j,
        None => {
            proof {
                lemma_byte_index_at(pair@, 0x3d, pair@.len() as int);
            }
            return Err(FormError::InvalidPair);
        },
    };
    proof {
        lemma_byte_index_at(pair@, 0x3d, jj as int);
    }
    let key = sub_bytes(&pair, 0, jj);
    let rest = sub_bytes(&pair, jj + 1, pair.len());
    proof {
        assert(key@ =~= pair@.take(jj as int));
        assert(rest@ =~= pair@.skip(jj + 1));
    }
    let eq2 = find_byte(&rest, 0, 0x3d);
    let vend = match eq2 {
        Some(k) => k,
        None => rest.len(),
    };
    proof {
        lemma_byte_index_at(rest@, 0x3d, vend as int);
    }
    let value = sub_bytes(&rest, 0, vend);
    proof {
        assert(value@ =~= rest@.take(vend as int));
    }
    let kd = percent_decode_bytes(&key);
    let vd = percent_decode_bytes(&value);
    let ghost kdv = kd@;
    let ghost vdv = vd@;
    let kstr = match bytes_to_string(kd) {
        Some(ks) => ks,
        None => {
            return Err(FormError::BadEncoding);
        },
    };
    let vstr = match bytes_to_string(vd) {
        Some(vs) => vs,
        None => {
            return Err(FormError::BadEncoding);
        },
    };
    proof {
        decode_utf8_encode_utf8(kdv);
        encode_utf8_decode_utf8("username"@);
        encode_utf8_decode_utf8("password"@);
    }
    let is_user = kstr == ("username").to_owned();
    let is_pass = kstr == ("password").to_owned();
    let (u2, p2): (Option<String>, Option<String>) = if is_user {
        (Some(vstr), p)
    } else if is_pass {
        (u, Some(vstr))
    } else {
        (u, p)
    };
    proof {
        assert(pair_step(suffix.take(seg_end - start as int), opt_chars(u), opt_chars(p)) == Ok::<
            (Option<Seq<char>>, Option<Seq<char>>),
            FormError,
        >((opt_chars(u2), opt_chars(p2))));
    }
    match amp {
        None => {
            match u2 {
                None => Err(FormError::MissingUsername),
                Some(us) => match p2 {
                    None => Err(FormError::MissingPassword),
                    Some(ps) => Ok(BuptAccount { username: us, password: ps }),
                },
            }
        },
        Some(a) => {
            proof {
                assert(body@.skip(a + 1) =~= suffix.skip(seg_end - start + 1));
            }
            parse_form_from(body, a + 1, u2, p2)
        },
    }
}

/// What the server does with one request: respond at once, or run the
/// authentication handshake for a submitted form.
pub enum ServerStep {
    Respond(HttpResponse),
    AttemptLogin(BuptAccount),
}

/// Whether the request announces a form-encoded body.
pub open spec fn form_content_type(req: HttpRequest) -> bool {
    req.content_type matches Some(ct) && ct@ == encode_utf8("application/x-www-form-urlencoded"@)
}

/// A bundle lookup's response: the content under its MIME type, or a bare
/// 404 when the bundle has nothing under the path.
pub open spec fn is_asset_response(
    resp: HttpResponse,
    content: Option<Seq<u8>>,
    mime: Seq<u8>,
) -> bool {
    match content {
        Option::Some(c) => resp.status == 200 && (resp.content_type matches Some(m) && m@
            == mime) && resp.body@ == c && resp.location is None,
        Option::None => resp.status == 404 && resp.content_type is None && resp.location is None
            && resp.body@.len() == 0,
    }
}

/// A bare status response with nothing else in it.
pub open spec fn is_plain_status(resp: HttpResponse, status: u16) -> bool {
    resp.status == status && resp.content_type is None && resp.location is None
        && resp.body@.len() == 0
}

/// Routes one request.  Any request whose Host is not the canonical
/// address is redirected to the canonical root, whatever it asked for;
/// `GET /` serves the index page; `POST /login` demands a form body and
/// hands a parsed submission to the authentication handshake; every other
/// GET serves the bundle under the path, and every other POST is 404.
pub fn handle_request(req: &HttpRequest, canonical: &Vec<u8>, assets: &Vec<Asset>) -> (r:
    ServerStep)
    ensures
        !host_ok(*req, canonical@) ==> (r matches ServerStep::Respond(resp)
            && is_redirect_to_canonical(resp, canonical@)),
        host_ok(*req, canonical@) ==> match req.method {
            HttpMethod::Get => (r matches ServerStep::Respond(resp) && (if req.uri@
                == encode_utf8("/"@) {
                is_asset_response(
                    resp,
                    asset_content(assets@, encode_utf8("index.html"@)),
                    encode_utf8("text/html"@),
                )
            } else {
                is_asset_response(
                    resp,
                    asset_content(assets@, strip_slashes(req.uri@)),
                    mime_of(ext_of(req.uri@)),
                )
            })),
            HttpMethod::Post => if req.uri@ == encode_utf8("/login"@) {
                if !form_content_type(*req) {
                    r matches ServerStep::Respond(resp) && is_plain_status(resp, 400)
                } else {
                    match login_form_spec(req.body@) {
                        Ok(pair) => r matches ServerStep::AttemptLogin(acc) && acc.username@
                            == pair.0 && acc.password@ == pair.1,
                        Err(_) => r matches ServerStep::Respond(resp) && is_plain_status(
                            resp,
                            400,
                        ),
                    }
                }
            } else {
                r matches ServerStep::Respond(resp) && is_plain_status(resp, 404)
            },
        },
{
    let host_good = match &req.host {
        Some(h) => bytes_eq(h, canonical),
        None => false,
    };
    if !host_good {
        return ServerStep::Respond(redirect_to_canonical(canonical));
    }
    match &req.method {
        HttpMethod::Get => {
            let is_root = bytes_eq(&req.uri, &("/").as_bytes_vec());
            let content: Option<Vec<u8>>;
            let mime: Vec<u8>;
            if is_root {
                content = lookup_asset(assets, &("index.html").as_bytes_vec());
                mime = ("text/html").as_bytes_vec();
            } else {
                let path = strip_leading_slashes(&req.uri);
                content = lookup_asset(assets, &path);
                mime = mime_for(&req.uri);
            }
            match content {
                Some(c) => ServerStep::Respond(
                    HttpResponse {
                        status: 200,
                        content_type: Some(mime),
                        location: None,
                        body: c,
                    },
                ),
                None => ServerStep::Respond(
                    HttpResponse {
                        status: 404,
                        content_type: None,
                        location: None,
                        body: Vec::new(),
                    },
                ),
            }
        },
        HttpMethod::Post => {
            if bytes_eq(&req.uri, &("/login").as_bytes_vec()) {
                let ct_ok = match &req.content_type {
                    Some(ct) => bytes_eq(
                        ct,
                        &("application/x-www-form-urlencoded").as_bytes_vec(),
                    ),
                    None => false,
                };
                if !ct_ok {
                    return ServerStep::Respond(
                        HttpResponse {
                            status: 400,
                            content_type: None,
                            location: None,
                            body: Vec::new(),
                        },
                    );
                }
                match parse_login_form(&req.body) {
                    Ok(acc) => ServerStep::AttemptLogin(acc),
                    Err(_) => ServerStep::Respond(
                        HttpResponse {
                            status: 400,
                            content_type: None,
                            location: None,
                            body: Vec::new(),
                        },
                    ),
                }
            } else {
                ServerStep::Respond(
                    HttpResponse {
                        status: 404,
                        content_type: None,
                        location: None,
                        body: Vec::new(),
                    },
                )
            }
        },
    }
}

/// Everything the login route does once the handshake has finished: the
/// JSON reply to the browser, the configuration to persist, and whether
/// to release the waiting orchestrator.
pub struct LoginEffects {
    pub response: HttpResponse,
    pub persist: Option<NetConfig>,
    pub signal: bool,
}

/// Decides the login route's effects.  Success answers with the success
/// payload, persists the submitted credentials as the portal
/// configuration, and signals the rendezvous; failure answers with the
/// failure payload and its reason, persists nothing and signals nothing,
/// leaving the operator free to retry.
pub fn login_outcome_effects(account: &BuptAccount, outcome: &Result<(), AuthError>) -> (r:
    LoginEffects)
    ensures
        outcome is Ok ==> r.response.status == 200 && r.response.body@ == json_ok_spec()
            && r.response.content_type is None && r.response.location is None && (
        r.persist matches Some(NetConfig::BuptPortal(a)) && a.username@ == account.username@
            && a.password@ == account.password@) && r.signal,
        (*outcome) matches Err(e) ==> r.response.status == 200 && r.response.body@ == json_err_spec(
            auth_error_message_spec(e),
        ) && r.response.content_type is None && r.response.location is None && r.persist is None
            && !r.signal,
{
    match outcome {
        Ok(_) => LoginEffects {
            response: HttpResponse {
                status: 200,
                content_type: None,
                location: None,
                body: json_ok_body(),
            },
            persist: Some(NetConfig::BuptPortal(account.clone())),
            signal: true,
        },
        Err(e) => LoginEffects {
            response: HttpResponse {
                status: 200,
                content_type: None,
                location: None,
                body: json_err_body(&auth_error_message(e)),
            },
            persist: None,
            signal: false,
        },
    }
}

} // verus!
