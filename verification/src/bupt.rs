//! Campus-portal authentication client.
//!
//! The handshake against the upstream captive portal is a short fixed
//! sequence: probe a well-known URL, follow redirects, post the credentials,
//! probe again to confirm.  Every decision in that sequence is made here by
//! the [`LoginMachine`]; the caller performs the HTTP calls the machine asks
//! for and feeds each reply back in.

use vstd::prelude::*;

verus! {

use vstd::string::StrSliceExecFns;
use vstd::string::StringExecFns;
use vstd::utf8::encode_utf8;
use vstd::utf8::is_ascii_chars;
use vstd::utf8::is_ascii_chars_encode_utf8;
use crate::percent::{percent_encoding, percent_encode_bytes};
use crate::text::{find_sub, find_sub_spec, sub_bytes};

/// The well-known generate-204 URL probed to learn the authentication state.
pub open spec fn check_url_spec() -> Seq<char> {
    "http://connect.rom.miui.com/generate_204?cmd=redirect&arubalp=12345"@
}

/// The probe URL as a `String`.
pub fn check_url() -> (r: String)
    ensures
        r@ == check_url_spec(),
{
    ("http://connect.rom.miui.com/generate_204?cmd=redirect&arubalp=12345").to_owned()
}

/// The portal's login endpoint.
pub open spec fn login_url_spec() -> Seq<char> {
    "http://10.3.8.216/login"@
}

/// The login endpoint as a `String`.
pub fn login_url() -> (r: String)
    ensures
        r@ == login_url_spec(),
{
    ("http://10.3.8.216/login").to_owned()
}

/// Campus-portal credentials.  The password never leaves the struct in a
/// diagnostic form other than the masked rendering of [`Self::masked`].
pub struct BuptAccount {
    pub username: String,
    pub password: String,
}

impl Clone for BuptAccount {
    fn clone(&self) -> (r: Self)
        ensures
            r == *self,
    {
        BuptAccount { username: self.username.clone(), password: self.password.clone() }
    }
}

/// A run of `n` mask characters.
pub open spec fn mask_chars(n: nat) -> Seq<char>
    decreases n,
{
    if n == 0 {
        Seq::empty()
    } else {
        mask_chars((n - 1) as nat).push('*')
    }
}

/// The diagnostic rendering of an account: the username in the clear, the
/// password replaced by one `*` per character.
pub open spec fn masked_account_view(a: BuptAccount) -> Seq<char> {
    "BuptAccount { username: "@ + a.username@ + ", password: "@ + mask_chars(a.password@.len())
        + " }"@
}

impl BuptAccount {
    /// Renders the account for diagnostics with the password masked.
    pub fn masked(&self) -> (r: String)
        ensures
            r@ == masked_account_view(*self),
    {
        let mut r = ("BuptAccount { username: ").to_owned();
        r.append(self.username.as_str());
        r.append(", password: ");
        let n = self.password.as_str().unicode_len();
        let mut i: usize = 0;
        while i < n
            invariant
                i <= n,
                n == self.password@.len(),
                r@ == "BuptAccount { username: "@ + self.username@ + ", password: "@ + mask_chars(
                    i as nat,
                ),
            decreases n - i,
        {
            r.append("*");
            proof {
                reveal_strlit("*");
                assert("*"@ =~= seq!['*']);
                assert(r@ =~= "BuptAccount { username: "@ + self.username@ + ", password: "@
                    + mask_chars((i + 1) as nat));
            }
            i += 1;
        }
        r.append(" }");
        proof {
            assert(r@ =~= masked_account_view(*self));
        }
        r
    }
}

/// What a probe of the portal reported.
pub enum AuthOutcome {
    /// The portal answered with its no-content status: the device is already
    /// let through.
    Authenticated,
    /// The portal served a login page; the session cookie it set, if any,
    /// comes along.
    NotAuthenticated(Option<String>),
}

/// Why a login run failed.
pub enum AuthError {
    /// A redirect status arrived without a Location header.
    MissingLocation,
    /// A status code outside the protocol arrived.
    UnexpectedStatus(u16),
    /// The login POST itself was answered with a redirect.
    UnexpectedRedirect,
    /// The probe redirect chain exceeded the hop bound.
    TooManyRedirects,
    /// The portal rejected the credentials; the extracted reason comes along.
    Rejected(Vec<u8>),
    /// An HTTP call could not be carried out at all.
    Transport,
}

/// What one probe reply asks for next.
pub enum ProbeStep {
    /// The probe is conclusive.
    Done(AuthOutcome),
    /// The reply was a redirect: probe the new location.
    Follow(String),
    /// The reply was outside the protocol.
    Fail(AuthError),
}

/// Index of the first `;` in `s`, or the length of `s` if there is none.
pub open spec fn semi_index(s: Seq<char>) -> int
    decreases s.len(),
{
    if s.len() == 0 {
        0
    } else if s[0] == ';' {
        0
    } else {
        1 + semi_index(s.drop_first())
    }
}

/// The cookie a `Set-Cookie` header value names: everything before the
/// first `;`, or the whole value if there is none.
pub open spec fn cookie_prefix(s: Seq<char>) -> Seq<char> {
    s.subrange(0, semi_index(s))
}

proof fn lemma_semi_index_at(s: Seq<char>, i: int)
    requires
        0 <= i <= s.len(),
        forall|j: int| 0 <= j < i ==> s[j] != ';',
        i < s.len() ==> s[i] == ';',
    ensures
        semi_index(s) == i,
    decreases i,
{
    if i == 0 {
    } else {
        lemma_semi_index_at(s.drop_first(), i - 1);
    }
}

/// Extracts the session cookie from a `Set-Cookie` header value: the text
/// before the first `;`, or the whole value if no `;` occurs.
pub fn extract_cookie(set_cookie: &str) -> (r: String)
    ensures
        r@ == cookie_prefix(set_cookie@),
{
    let n = set_cookie.unicode_len();
    let mut i: usize = 0;
    while i < n
        invariant
            i <= n,
            n == set_cookie@.len(),
            forall|j: int| 0 <= j < i ==> set_cookie@[j] != ';',
        decreases n - i,
    {
        if set_cookie.get_char(i) == ';' {
            proof {
                lemma_semi_index_at(set_cookie@, i as int);
            }
            return set_cookie.substring_char(0, i).to_owned();
        }
        i += 1;
    }
    proof {
        lemma_semi_index_at(set_cookie@, n as int);
        assert(set_cookie@.subrange(0, n as int) =~= set_cookie@);
    }
    set_cookie.to_owned()
}

/// Classifies one probe reply.  The mapping is total and exact: 204 means
/// authenticated; 302 with a Location means follow it and without one is a
/// protocol error; 200 means not authenticated, carrying the cookie up to
/// the first `;` of the Set-Cookie value if one was set; every other status
/// is a protocol error.
pub fn classify_probe(status: u16, location: Option<String>, set_cookie: Option<String>) -> (r:
    ProbeStep)
    ensures
        status == 204 ==> r == ProbeStep::Done(AuthOutcome::Authenticated),
        status == 302 && location is Some ==> (r matches ProbeStep::Follow(u) && u
            == location->Some_0),
        status == 302 && location is None ==> r == ProbeStep::Fail(AuthError::MissingLocation),
        status == 200 ==> (match set_cookie {
            Some(sc) => r matches ProbeStep::Done(AuthOutcome::NotAuthenticated(Some(c))) && c@
                == cookie_prefix(sc@),
            None => r == ProbeStep::Done(AuthOutcome::NotAuthenticated(None)),
        }),
        status != 204 && status != 302 && status != 200 ==> r == ProbeStep::Fail(
            AuthError::UnexpectedStatus(status),
        ),
{
    if status == 204 {
        ProbeStep::Done(AuthOutcome::Authenticated)
    } else if status == 302 {
        match location {
            Some(l) => ProbeStep::Follow(l),
            None => ProbeStep::Fail(AuthError::MissingLocation),
        }
    } else if status == 200 {
        match set_cookie {
            Some(sc) => ProbeStep::Done(
                AuthOutcome::NotAuthenticated(Some(extract_cookie(sc.as_str()))),
            ),
            None => ProbeStep::Done(AuthOutcome::NotAuthenticated(None)),
        }
    } else {
        ProbeStep::Fail(AuthError::UnexpectedStatus(status))
    }
}

/// The form body of the login POST: `user=<username>&pass=<password>`, both
/// credentials percent-encoded over their UTF-8 bytes.
pub open spec fn login_body_spec(username: Seq<char>, password: Seq<char>) -> Seq<u8> {
    encode_utf8("user="@) + percent_encoding(encode_utf8(username)) + encode_utf8("&pass="@)
        + percent_encoding(encode_utf8(password))
}

/// Builds the login POST body for an account.
pub fn login_body(account: &BuptAccount) -> (r: Vec<u8>)
    ensures
        r@ == login_body_spec(account.username@, account.password@),
{
    let mut r = ("user=").as_bytes_vec();
    let mut eu = percent_encode_bytes(&account.username.as_str().as_bytes_vec());
    r.append(&mut eu);
    let mut amp = ("&pass=").as_bytes_vec();
    r.append(&mut amp);
    let mut ep = percent_encode_bytes(&account.password.as_str().as_bytes_vec());
    r.append(&mut ep);
    proof {
        assert(r@ =~= login_body_spec(account.username@, account.password@));
    }
    r
}

/// The bound on probe redirect hops; one chain longer than this fails with
/// [`AuthError::TooManyRedirects`].
pub const MAX_REDIRECT_HOPS: u8 = 10;

/// One HTTP call the login machine asks its driver to perform.
pub enum HttpCall {
    /// GET the URL with redirect-following disabled.
    Get(String),
    /// POST the body to the URL as a form, sending the cookie (possibly
    /// empty) in a Cookie header.
    Post { url: String, cookie: String, body: Vec<u8> },
}

/// What one HTTP call came back with.
pub struct HttpReply {
    pub status: u16,
    pub location: Option<String>,
    pub set_cookie: Option<String>,
    pub body: Vec<u8>,
}

/// Where a login run stands.
pub enum LoginPhase {
    /// Probing the authentication state; `url` is the next GET.
    Probing { hops: u8, url: String },
    /// The probe found a login page; the credentials POST is pending.
    AwaitingPost { cookie: String },
    /// The POST got a plain answer; a probe confirms whether it worked.
    /// The POST reply's body is kept to extract a failure reason from.
    Verifying { hops: u8, url: String, post_body: Vec<u8> },
    /// The run is over.
    Complete { outcome: Result<(), AuthError> },
}

/// The login handshake as a step machine: the driver performs the
/// [`Self::pending_call`], feeds the reply to [`Self::step`], and repeats
/// until [`Self::is_complete`]; the `Complete` phase then carries the
/// outcome.
pub struct LoginMachine {
    pub account: BuptAccount,
    pub phase: LoginPhase,
}

/// The exact transition the machine takes on one reply.
pub open spec fn step_rel(pre: LoginMachine, reply: HttpReply, post: LoginMachine) -> bool {
    &&& post.account == pre.account
    &&& match pre.phase {
        LoginPhase::Probing { hops, url } => {
            if reply.status == 204 {
                post.phase == (LoginPhase::Complete { outcome: Ok(()) })
            } else if reply.status == 302 {
                match reply.location {
                    Some(l) => if hops >= MAX_REDIRECT_HOPS {
                        post.phase == (LoginPhase::Complete {
                            outcome: Err(AuthError::TooManyRedirects),
                        })
                    } else {
                        post.phase matches LoginPhase::Probing { hops: h2, url: u2 } && h2 == hops
                            + 1 && u2@ == l@
                    },
                    None => post.phase == (LoginPhase::Complete {
                        outcome: Err(AuthError::MissingLocation),
                    }),
                }
            } else if reply.status == 200 {
                post.phase matches LoginPhase::AwaitingPost { cookie } && cookie@ == (
                match reply.set_cookie {
                    Some(sc) => cookie_prefix(sc@),
                    None => Seq::<char>::empty(),
                })
            } else {
                post.phase == (LoginPhase::Complete {
                    outcome: Err(AuthError::UnexpectedStatus(reply.status)),
                })
            }
        },
        LoginPhase::AwaitingPost { cookie } => {
            if reply.status == 302 {
                match reply.location {
                    Some(_) => post.phase == (LoginPhase::Complete {
                        outcome: Err(AuthError::UnexpectedRedirect),
                    }),
                    None => post.phase == (LoginPhase::Complete {
                        outcome: Err(AuthError::MissingLocation),
                    }),
                }
            } else if reply.status == 200 {
                post.phase matches LoginPhase::Verifying { hops, url, post_body } && hops == 0
                    && url@ == check_url_spec() && post_body@ == reply.body@
            } else {
                post.phase == (LoginPhase::Complete {
                    outcome: Err(AuthError::UnexpectedStatus(reply.status)),
                })
            }
        },
        LoginPhase::Verifying { hops, url, post_body } => {
            if reply.status == 204 {
                post.phase == (LoginPhase::Complete { outcome: Ok(()) })
            } else if reply.status == 302 {
                match reply.location {
                    Some(l) => if hops >= MAX_REDIRECT_HOPS {
                        post.phase == (LoginPhase::Complete {
                            outcome: Err(AuthError::TooManyRedirects),
                        })
                    } else {
                        post.phase matches LoginPhase::Verifying {
                            hops: h2,
                            url: u2,
                            post_body: pb2,
                        } && h2 == hops + 1 && u2@ == l@ && pb2@ == post_body@
                    },
                    None => post.phase == (LoginPhase::Complete {
                        outcome: Err(AuthError::MissingLocation),
                    }),
                }
            } else if reply.status == 200 {
                post.phase matches LoginPhase::Complete { outcome } && outcome matches Err(
                    AuthError::Rejected(reason),
                ) && reason@ == error_reason_spec(post_body@)
            } else {
                post.phase == (LoginPhase::Complete {
                    outcome: Err(AuthError::UnexpectedStatus(reply.status)),
                })
            }
        },
        LoginPhase::Complete { outcome: _ } => false,
    }
}

/// Starts a login run.  The machine opens with a probe of the well-known
/// check URL; a 204 there ends the run successfully without any further
/// call, so logging in twice in a row performs no second handshake.
pub fn login(account: BuptAccount) -> (m: LoginMachine)
    ensures
        m.account == account,
        m.phase matches LoginPhase::Probing { hops, url } && hops == 0 && url@
            == check_url_spec(),
{
    LoginMachine { account, phase: LoginPhase::Probing { hops: 0, url: check_url() } }
}

impl LoginMachine {
    /// The HTTP call the driver must perform next, or `None` when the run
    /// is over.
    pub fn pending_call(&self) -> (r: Option<HttpCall>)
        ensures
            match self.phase {
                LoginPhase::Probing { hops: _, url } => r matches Some(HttpCall::Get(u)) && u@
                    == url@,
                LoginPhase::AwaitingPost { cookie } => r matches Some(
                    HttpCall::Post { url, cookie: c, body },
                ) && url@ == login_url_spec() && c@ == cookie@ && body@ == login_body_spec(
                    self.account.username@,
                    self.account.password@,
                ),
                LoginPhase::Verifying { hops: _, url, post_body: _ } => r matches Some(
                    HttpCall::Get(u),
                ) && u@ == url@,
                LoginPhase::Complete { outcome: _ } => r is None,
            },
    {
        match &self.phase {
            LoginPhase::Probing { hops: _, url } => Some(HttpCall::Get(url.clone())),
            LoginPhase::AwaitingPost { cookie } => Some(
                HttpCall::Post {
                    url: login_url(),
                    cookie: cookie.clone(),
                    body: login_body(&self.account),
                },
            ),
            LoginPhase::Verifying { hops: _, url, post_body: _ } => Some(
                HttpCall::Get(url.clone()),
            ),
            LoginPhase::Complete { outcome: _ } => None,
        }
    }

    /// Feeds the reply to the pending call into the machine.
    pub fn step(&mut self, reply: HttpReply)
        requires
            !(old(self).phase is Complete),
        ensures
            step_rel(*old(self), reply, *final(self)),
    {
        let next: LoginPhase = match &self.phase {
            LoginPhase::Probing { hops, url: _ } => {
                let hops = *hops;
                match classify_probe(reply.status, reply.location, reply.set_cookie) {
                    ProbeStep::Done(AuthOutcome::Authenticated) => LoginPhase::Complete {
                        outcome: Ok(()),
                    },
                    ProbeStep::Done(AuthOutcome::NotAuthenticated(c)) => {
                        let cookie = match c {
                            Some(c) => c,
                            None => String::new(),
                        };
                        LoginPhase::AwaitingPost { cookie }
                    },
                    ProbeStep::Follow(l) => {
                        if hops >= MAX_REDIRECT_HOPS {
                            LoginPhase::Complete { outcome: Err(AuthError::TooManyRedirects) }
                        } else {
                            LoginPhase::Probing { hops: hops + 1, url: l }
                        }
                    },
                    ProbeStep::Fail(e) => LoginPhase::Complete { outcome: Err(e) },
                }
            },
            LoginPhase::AwaitingPost { cookie: _ } => {
                if reply.status == 302 {
                    match reply.location {
                        Some(_) => LoginPhase::Complete {
                            outcome: Err(AuthError::UnexpectedRedirect),
                        },
                        None => LoginPhase::Complete {
                            outcome: Err(AuthError::MissingLocation),
                        },
                    }
                } else if reply.status == 200 {
                    LoginPhase::Verifying { hops: 0, url: check_url(), post_body: reply.body }
                } else {
                    LoginPhase::Complete {
                        outcome: Err(AuthError::UnexpectedStatus(reply.status)),
                    }
                }
            },
            LoginPhase::Verifying { hops, url: _, post_body } => {
                let hops = *hops;
                match classify_probe(reply.status, reply.location, reply.set_cookie) {
                    ProbeStep::Done(AuthOutcome::Authenticated) => LoginPhase::Complete {
                        outcome: Ok(()),
                    },
                    ProbeStep::Done(AuthOutcome::NotAuthenticated(_)) => LoginPhase::Complete {
                        outcome: Err(AuthError::Rejected(extract_error_reason(post_body))),
                    },
                    ProbeStep::Follow(l) => {
                        if hops >= MAX_REDIRECT_HOPS {
                            LoginPhase::Complete { outcome: Err(AuthError::TooManyRedirects) }
                        } else {
                            LoginPhase::Verifying {
                                hops: hops + 1,
                                url: l,
                                post_body: crate::text::sub_bytes(post_body, 0, post_body.len()),
                            }
                        }
                    },
                    ProbeStep::Fail(e) => LoginPhase::Complete { outcome: Err(e) },
                }
            },
            LoginPhase::Complete { outcome: _ } => {
                proof {
                    assert(false);
                }
                LoginPhase::Complete { outcome: Err(AuthError::Transport) }
            },
        };
        proof {
            match &self.phase {
                LoginPhase::Verifying { hops: _, url: _, post_body } => {
                    assert(post_body@.subrange(0, post_body@.len() as int) =~= post_body@);
                },
                _ => {},
            }
        }
        self.phase = next;
    }

    /// Records that the pending call could not be carried out at all.
    pub fn note_transport_failure(&mut self)
        ensures
            final(self).account == old(self).account,
            final(self).phase == (LoginPhase::Complete { outcome: Err(AuthError::Transport) }),
    {
        self.phase = LoginPhase::Complete { outcome: Err(AuthError::Transport) };
    }

    /// Whether the run is over.
    pub fn is_complete(&self) -> (r: bool)
        ensures
            r == (self.phase is Complete),
    {
        match &self.phase {
            LoginPhase::Complete { outcome: _ } => true,
            _ => false,
        }
    }

    /// Whether the run is over and succeeded.
    pub fn succeeded(&self) -> (r: bool)
        ensures
            r == (self.phase matches LoginPhase::Complete { outcome } && outcome is Ok),
    {
        match &self.phase {
            LoginPhase::Complete { outcome } => outcome.is_ok(),
            _ => false,
        }
    }
}

/// Law: a login run that finds the portal already authenticated completes
/// successfully on its single opening probe.  The machine never passes
/// through the posting phase, so no POST is ever asked of the driver:
/// logging in while authenticated is a no-op beyond that one GET.
pub proof fn lemma_login_idempotent(m0: LoginMachine, reply: HttpReply, m1: LoginMachine)
    requires
        m0.phase matches LoginPhase::Probing { hops: _, url: _ },
        reply.status == 204,
        step_rel(m0, reply, m1),
    ensures
        m1.phase == (LoginPhase::Complete { outcome: Ok::<(), AuthError>(()) }),
        !(m0.phase is AwaitingPost),
        !(m1.phase is AwaitingPost),
{
}

/// An ASCII whitespace byte.
pub open spec fn is_space(b: u8) -> bool {
    b == 0x20 || b == 0x09 || b == 0x0a || b == 0x0b || b == 0x0c || b == 0x0d
}

/// `s` without its leading whitespace.
pub open spec fn trim_front(s: Seq<u8>) -> Seq<u8>
    decreases s.len(),
{
    if s.len() == 0 {
        s
    } else if is_space(s[0]) {
        trim_front(s.drop_first())
    } else {
        s
    }
}

/// `s` without its trailing whitespace.
pub open spec fn trim_back(s: Seq<u8>) -> Seq<u8>
    decreases s.len(),
{
    if s.len() == 0 {
        s
    } else if is_space(s.last()) {
        trim_back(s.drop_last())
    } else {
        s
    }
}

/// `s` without leading and trailing whitespace.
pub open spec fn trim_spec(s: Seq<u8>) -> Seq<u8> {
    trim_back(trim_front(s))
}

fn is_space_byte(b: u8) -> (r: bool)
    ensures
        r == is_space(b),
{
    b == 0x20 || b == 0x09 || b == 0x0a || b == 0x0b || b == 0x0c || b == 0x0d
}

proof fn lemma_trim_front_at(s: Seq<u8>, f: int)
    requires
        0 <= f <= s.len(),
        forall|j: int| 0 <= j < f ==> is_space(s[j]),
        f < s.len() ==> !is_space(s[f]),
    ensures
        trim_front(s) == s.subrange(f, s.len() as int),
    decreases f,
{
    if f == 0 {
        assert(s.subrange(0, s.len() as int) =~= s);
    } else {
        lemma_trim_front_at(s.drop_first(), f - 1);
        assert(s.drop_first().subrange(f - 1, s.drop_first().len() as int) =~= s.subrange(
            f,
            s.len() as int,
        ));
    }
}

proof fn lemma_trim_back_at(s: Seq<u8>, e: int)
    requires
        0 <= e <= s.len(),
        forall|j: int| e <= j < s.len() ==> is_space(s[j]),
        e > 0 ==> !is_space(s[e - 1]),
    ensures
        trim_back(s) == s.subrange(0, e),
    decreases s.len() - e,
{
    if e == s.len() {
        assert(s.subrange(0, s.len() as int) =~= s);
    } else {
        lemma_trim_back_at(s.drop_last(), e);
        assert(s.drop_last().subrange(0, e) =~= s.subrange(0, e));
    }
}

fn first_non_space(s: &Vec<u8>) -> (f: usize)
    ensures
        f <= s@.len(),
        forall|j: int| 0 <= j < f ==> is_space(s@[j]),
        f < s@.len() ==> !is_space(s@[f as int]),
{
    let n = s.len();
    let mut i: usize = 0;
    while i < n
        invariant
            i <= n,
            n == s@.len(),
            forall|j: int| 0 <= j < i ==> is_space(s@[j]),
        decreases n - i,
    {
        if !is_space_byte(s[i]) {
            return i;
        }
        i += 1;
    }
    n
}

fn space_suffix_start(s: &Vec<u8>) -> (e: usize)
    ensures
        e <= s@.len(),
        forall|j: int| e <= j < s@.len() ==> is_space(s@[j]),
        e > 0 ==> !is_space(s@[e - 1]),
{
    let mut i: usize = s.len();
    while i > 0
        invariant
            i <= s@.len(),
            forall|j: int| i <= j < s@.len() ==> is_space(s@[j]),
        decreases i,
    {
        if !is_space_byte(s[i - 1]) {
            return i;
        }
        i -= 1;
    }
    0
}

/// Removes leading and trailing ASCII whitespace.
pub fn trim_bytes(s: &Vec<u8>) -> (r: Vec<u8>)
    ensures
        r@ == trim_spec(s@),
{
    let f = first_non_space(s);
    let e = space_suffix_start(s);
    if f >= e {
        proof {
            if f < s@.len() {
                assert(is_space(s@[f as int]));
                assert(false);
            }
            if e > 0 {
                assert(is_space(s@[e - 1]));
                assert(false);
            }
            lemma_trim_front_at(s@, f as int);
            assert(trim_front(s@) =~= Seq::<u8>::empty());
            assert(trim_spec(s@) =~= Seq::<u8>::empty());
        }
        Vec::new()
    } else {
        let r = sub_bytes(s, f, e);
        proof {
            lemma_trim_front_at(s@, f as int);
            let t = s@.subrange(f as int, s@.len() as int);
            assert forall|j: int| e - f <= j < t.len() implies is_space(t[j]) by {
                assert(t[j] == s@[f + j]);
            }
            assert(t[e - f - 1] == s@[e - 1]);
            lemma_trim_back_at(t, e - f);
            assert(t.subrange(0, e - f) =~= s@.subrange(f as int, e as int));
        }
        r
    }
}

/// The marker that introduces the portal's human-readable failure reason.
pub open spec fn error_marker() -> Seq<u8> {
    encode_utf8("<div class=\"ui error message\">"@)
}

/// The closing tag that ends the failure reason.
pub open spec fn end_marker() -> Seq<u8> {
    encode_utf8("</div>"@)
}

/// The fallback reason when the page carries no recognizable marker.
pub open spec fn unknown_reason() -> Seq<u8> {
    encode_utf8("Unknown error"@)
}

/// The failure reason a login-rejection page carries: the trimmed text
/// between the first error marker and the next closing tag, or the fallback
/// text when either is absent.
pub open spec fn error_reason_spec(body: Seq<u8>) -> Seq<u8> {
    match find_sub_spec(body, error_marker(), 0) {
        Option::None => unknown_reason(),
        Option::Some(i) => match find_sub_spec(body, end_marker(), i) {
            Option::None => unknown_reason(),
            Option::Some(j) => if i + error_marker().len() <= j {
                trim_spec(body.subrange(i + error_marker().len(), j))
            } else {
                unknown_reason()
            },
        },
    }
}

/// Extracts the failure reason from a login-rejection page.
pub fn extract_error_reason(body: &Vec<u8>) -> (r: Vec<u8>)
    ensures
        r@ == error_reason_spec(body@),
{
    let marker = ("<div class=\"ui error message\">").as_bytes_vec();
    let endm = ("</div>").as_bytes_vec();
    let unknown = ("Unknown error").as_bytes_vec();
    proof {
        reveal_strlit("<div class=\"ui error message\">");
        reveal_strlit("</div>");
        assert(is_ascii_chars("<div class=\"ui error message\">"@));
        assert(is_ascii_chars("</div>"@));
        is_ascii_chars_encode_utf8("<div class=\"ui error message\">"@);
        is_ascii_chars_encode_utf8("</div>"@);
    }
    match find_sub(body, &marker, 0) {
        None => unknown,
        Some(i) => match {
            proof {
                crate::text::lemma_find_sub_spec_found(body@, marker@, 0);
            }
            find_sub(body, &endm, i)
        } {
            None => unknown,
            Some(j) => {
                let n = body.len();
                proof {
                    crate::text::lemma_find_sub_spec_found(body@, endm@, i as int);
                }
                if i + marker.len() <= j {
                    trim_bytes(&sub_bytes(body, i + marker.len(), j))
                } else {
                    unknown
                }
            },
        },
    }
}

} // verus!
