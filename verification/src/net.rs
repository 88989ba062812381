//! Connection orchestrator decisions.
//!
//! On every boot the device either provisions itself or associates with the
//! known network, retrying transient failures with a fixed pause.  The
//! decisions — which association parameters a stored configuration calls
//! for, when to retry and when to give up — are made here; the radio
//! primitives that carry them out stay outside.

use vstd::prelude::*;

verus! {

use vstd::string::StrSliceExecFns;
use vstd::string::StringExecFns;
use crate::bupt::{BuptAccount, mask_chars};

/// An ordinary wireless network's profile.
pub struct Wifi {
    pub ssid: String,
    pub password: String,
}

impl Clone for Wifi {
    fn clone(&self) -> (r: Self)
        ensures
            r == *self,
    {
        Wifi { ssid: self.ssid.clone(), password: self.password.clone() }
    }
}

/// The diagnostic rendering of a profile: the SSID in the clear, the
/// password replaced by one `*` per character.
pub open spec fn masked_wifi_view(w: Wifi) -> Seq<char> {
    "Wifi { ssid: "@ + w.ssid@ + ", password: "@ + mask_chars(w.password@.len()) + " }"@
}

impl Wifi {
    /// Renders the profile for diagnostics with the password masked.
    pub fn masked(&self) -> (r: String)
        ensures
            r@ == masked_wifi_view(*self),
    {
        let mut r = ("Wifi { ssid: ").to_owned();
        r.append(self.ssid.as_str());
        r.append(", password: ");
        let n = self.password.as_str().unicode_len();
        let mut i: usize = 0;
        while i < n
            invariant
                i <= n,
                n == self.password@.len(),
                r@ == "Wifi { ssid: "@ + self.ssid@ + ", password: "@ + mask_chars(i as nat),
            decreases n - i,
        {
            r.append("*");
            proof {
                reveal_strlit("*");
                assert("*"@ =~= seq!['*']);
                assert(r@ =~= "Wifi { ssid: "@ + self.ssid@ + ", password: "@ + mask_chars(
                    (i + 1) as nat,
                ));
            }
            i += 1;
        }
        r.append(" }");
        proof {
            assert(r@ =~= masked_wifi_view(*self));
        }
        r
    }
}

/// The persisted network configuration: exactly one of the two variants is
/// ever stored, and it determines the whole association strategy.
pub enum NetConfig {
    /// Join the open campus network and authenticate against its portal.
    BuptPortal(BuptAccount),
    /// Join an ordinary WPA2-protected network.
    NormalWifi(Wifi),
}

impl Clone for NetConfig {
    fn clone(&self) -> (r: Self)
        ensures
            r == *self,
    {
        match self {
            NetConfig::BuptPortal(a) => NetConfig::BuptPortal(a.clone()),
            NetConfig::NormalWifi(w) => NetConfig::NormalWifi(w.clone()),
        }
    }
}

/// How the radio authenticates during association.
#[derive(Clone, Copy, Debug, PartialEq, Eq, Structural)]
pub enum WifiAuthMethod {
    Open,
    Wpa2Personal,
}

/// What the radio is asked to associate with.
pub struct AssocParams {
    pub auth: WifiAuthMethod,
    pub ssid: String,
    pub password: String,
}

/// Derives the association parameters a configuration calls for: the open
/// campus network for the portal variant, the stored WPA2 profile
/// otherwise.
pub fn association_params(config: &NetConfig) -> (r: AssocParams)
    ensures
        match *config {
            NetConfig::BuptPortal(_) => r.auth == WifiAuthMethod::Open && r.ssid@
                == "BUPT-portal"@ && r.password@ == Seq::<char>::empty(),
            NetConfig::NormalWifi(w) => r.auth == WifiAuthMethod::Wpa2Personal && r.ssid@
                == w.ssid@ && r.password@ == w.password@,
        },
{
    match config {
        NetConfig::BuptPortal(_) => AssocParams {
            auth: WifiAuthMethod::Open,
            ssid: ("BUPT-portal").to_owned(),
            password: String::new(),
        },
        NetConfig::NormalWifi(w) => AssocParams {
            auth: WifiAuthMethod::Wpa2Personal,
            ssid: w.ssid.clone(),
            password: w.password.clone(),
        },
    }
}

/// What a boot does.
pub enum BootPlan {
    /// No configuration is stored: run the provisioning service.
    Provision,
    /// A configuration is stored: associate with it, and for the portal
    /// variant replay the authentication handshake afterwards.
    Associate { params: AssocParams, needs_login: bool },
}

/// Decides the boot path from what the store held.
pub fn boot_plan(loaded: Option<NetConfig>) -> (r: BootPlan)
    ensures
        loaded is None ==> r is Provision,
        loaded matches Some(c) ==> (r matches BootPlan::Associate { params, needs_login }
            && needs_login == (c is BuptPortal) && (match c {
            NetConfig::BuptPortal(_) => params.auth == WifiAuthMethod::Open && params.ssid@
                == "BUPT-portal"@ && params.password@ == Seq::<char>::empty(),
            NetConfig::NormalWifi(w) => params.auth == WifiAuthMethod::Wpa2Personal
                && params.ssid@ == w.ssid@ && params.password@ == w.password@,
        })),
{
    match loaded {
        None => BootPlan::Provision,
        Some(c) => {
            let needs_login = match &c {
                NetConfig::BuptPortal(_) => true,
                NetConfig::NormalWifi(_) => false,
            };
            BootPlan::Associate { params: association_params(&c), needs_login }
        },
    }
}

/// The attempt bound shared by association and boot-time authentication.
pub const MAX_ATTEMPTS: u8 = 10;

/// What a failed attempt leads to.  Both verdicts are preceded by the
/// fixed pause; only the last failure aborts.
#[derive(Clone, Copy, Debug, PartialEq, Eq, Structural)]
pub enum RetryVerdict {
    RetryAfterPause,
    AbortAfterPause,
}

/// The retry-with-backoff policy: up to [`MAX_ATTEMPTS`] attempts, a pause
/// after every failure, and the final failure fatal.
pub struct RetryState {
    pub failures: u8,
}

impl RetryState {
    /// A fresh policy with no failures recorded.
    pub fn new() -> (r: Self)
        ensures
            r.failures == 0,
    {
        RetryState { failures: 0 }
    }

    /// Records one failed attempt.  The caller pauses either way; the
    /// verdict says whether to retry or to give up.
    pub fn on_failure(&mut self) -> (r: RetryVerdict)
        requires
            old(self).failures < MAX_ATTEMPTS,
        ensures
            final(self).failures == old(self).failures + 1,
            r == (if old(self).failures + 1 == MAX_ATTEMPTS {
                RetryVerdict::AbortAfterPause
            } else {
                RetryVerdict::RetryAfterPause
            }),
    {
        self.failures = self.failures + 1;
        if self.failures == MAX_ATTEMPTS {
            RetryVerdict::AbortAfterPause
        } else {
            RetryVerdict::RetryAfterPause
        }
    }
}

/// The course of a retried bring-up step from attempt `i` on, given each
/// attempt's outcome: how many attempts are made, how many pauses are
/// taken, and whether the step succeeds.
pub open spec fn run_from(outcomes: Seq<bool>, i: int) -> (int, int, bool)
    decreases MAX_ATTEMPTS as int - i when 0 <= i <= MAX_ATTEMPTS as int
{
    if i >= MAX_ATTEMPTS as int {
        (0, 0, false)
    } else if outcomes[i] {
        (1, 0, true)
    } else {
        let r = run_from(outcomes, i + 1);
        (r.0 + 1, r.1 + 1, r.2)
    }
}

proof fn lemma_run_prefix(outcomes: Seq<bool>, i: int)
    requires
        0 <= i <= MAX_ATTEMPTS as int,
        forall|j: int| 0 <= j < i ==> !outcomes[j],
    ensures
        run_from(outcomes, 0).0 == i + run_from(outcomes, i).0,
        run_from(outcomes, 0).1 == i + run_from(outcomes, i).1,
        run_from(outcomes, 0).2 == run_from(outcomes, i).2,
    decreases i,
{
    if i > 0 {
        lemma_run_prefix(outcomes, i - 1);
    }
}

/// The report of a simulated bring-up step.
pub struct SimReport {
    pub attempts: usize,
    pub pauses: usize,
    pub success: bool,
}

/// Replays the retry policy against a recorded sequence of attempt
/// outcomes, driving the same [`RetryState`] a live bring-up uses.
pub fn simulate_attempts(outcomes: &Vec<bool>) -> (r: SimReport)
    requires
        outcomes@.len() >= MAX_ATTEMPTS,
    ensures
        ({
            let m = run_from(outcomes@, 0);
            r.attempts == m.0 && r.pauses == m.1 && r.success == m.2
        }),
{
    let mut st = RetryState::new();
    let mut i: usize = 0;
    while i < 10
        invariant
            i <= 10,
            outcomes@.len() >= 10,
            st.failures == i,
            forall|j: int| 0 <= j < i ==> !outcomes@[j],
        decreases 10 - i,
    {
        if outcomes[i] {
            proof {
                lemma_run_prefix(outcomes@, i as int);
            }
            return SimReport { attempts: i + 1, pauses: i, success: true };
        }
        let _verdict = st.on_failure();
        i += 1;
    }
    proof {
        lemma_run_prefix(outcomes@, 10);
    }
    SimReport { attempts: 10, pauses: 10, success: false }
}

/// Law: an association that fails its first nine attempts and succeeds on
/// the tenth brings the link up after ten attempts and exactly nine
/// pauses; one that fails all ten aborts after ten attempts and ten
/// pauses.
pub proof fn lemma_retry_boundary(outcomes: Seq<bool>)
    requires
        outcomes.len() >= MAX_ATTEMPTS,
    ensures
        ((forall|j: int| 0 <= j < 9 ==> !outcomes[j]) && outcomes[9]) ==> run_from(outcomes, 0)
            == (10int, 9int, true),
        (forall|j: int| 0 <= j < 10 ==> !outcomes[j]) ==> run_from(outcomes, 0) == (
            10int,
            10int,
            false,
        ),
{
    if (forall|j: int| 0 <= j < 9 ==> !outcomes[j]) && outcomes[9] {
        lemma_run_prefix(outcomes, 9);
    }
    if forall|j: int| 0 <= j < 10 ==> !outcomes[j] {
        lemma_run_prefix(outcomes, 10);
    }
}

/// Relies on `rand::fill`: it fills the buffer with random bytes; nothing
/// is promised of their values.
#[verifier::external_body]
fn random_bytes_6() -> (r: [u8; 6])
{
    let mut b = [0u8; 6];
    rand::fill(&mut b[..]);
    b
}

/// Draws a random MAC address and clears the two low bits of the leading
/// octet, so the address is unicast and not locally reserved in either
/// masked sense.
pub fn generate_random_mac() -> (r: [u8; 6])
    ensures
        r[0] & 0x01 == 0,
        r[0] & 0x02 == 0,
{
    let b = random_bytes_6();
    let x = b[0];
    let b0 = x & 0xfe & 0xfd;
    proof {
        assert(b0 & 0x01 == 0 && b0 & 0x02 == 0) by (bit_vector)
            requires
                b0 == x & 0xfe & 0xfd,
        ;
    }
    [b0, b[1], b[2], b[3], b[4], b[5]]
}

} // verus!
