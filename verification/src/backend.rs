//! The inhibitor seam: what the service asks a backend to hold, and how a
//! backend's answers are named.
//!
//! A backend is whatever can make the machine stay awake. The service knows
//! nothing about how it does its job; it only decides what to ask for.

use vstd::prelude::*;

use crate::session::SessionPolicy;
use crate::text::{append_chars, chars_eq, chars_of, join, join_chars, string_of, views};

verus! {

/// One kind of thing to hold off, named the way logind names it. The order of
/// the variants is the order a request lists them in.
#[derive(Clone, Copy, Debug, PartialEq, Eq, PartialOrd, Ord, Structural)]
pub enum InhibitWhat {
    Sleep,
    Idle,
}

pub open spec fn inhibit_name(w: InhibitWhat) -> Seq<char> {
    match w {
        InhibitWhat::Sleep => "sleep"@,
        InhibitWhat::Idle => "idle"@,
    }
}

pub open spec fn inhibit_rank(w: InhibitWhat) -> int {
    match w {
        InhibitWhat::Sleep => 0,
        InhibitWhat::Idle => 1,
    }
}

impl InhibitWhat {
    pub fn as_str(self) -> (s: &'static str)
        ensures
            s@ == inhibit_name(self),
    {
        match self {
            InhibitWhat::Sleep => {
                proof {
                    reveal_strlit("sleep");
                }
                "sleep"
            },
            InhibitWhat::Idle => {
                proof {
                    reveal_strlit("idle");
                }
                "idle"
            },
        }
    }
}

/// The locks a policy asks an inhibitor for: sleep for system suspend, idle
/// for the idle action, in that order and each at most once.
///
/// Display blanking and automatic locking never appear: logind has no lock for
/// either, and inventing one by writing a desktop setting is not this
/// service's business. They are reported as unmet capability instead.
pub open spec fn inhibits_of(policy: SessionPolicy) -> Seq<InhibitWhat> {
    let s: Seq<InhibitWhat> = if policy.prevent_system_suspend {
        seq![InhibitWhat::Sleep]
    } else {
        seq![]
    };
    if policy.prevent_idle {
        s.push(InhibitWhat::Idle)
    } else {
        s
    }
}

/// Sorted by the variants' order and free of repeats, so two equivalent
/// requests compare equal and a lease is not needlessly re-acquired.
pub open spec fn sorted_and_distinct(s: Seq<InhibitWhat>) -> bool {
    forall|i: int, j: int| 0 <= i < j < s.len() ==> inhibit_rank(#[trigger] s[i]) < inhibit_rank(#[trigger] s[j])
}

/// A lease asks for the sleep lock exactly when the policy prevents system
/// suspend, for the idle lock exactly when it prevents the idle action, for
/// each at most once, and for nothing else: display sleep and automatic
/// locking never put a lock in the request.
pub proof fn lemma_lease_asks_for_what_the_policy_prevents(policy: SessionPolicy)
    ensures
        inhibits_of(policy).contains(InhibitWhat::Sleep) <==> policy.prevent_system_suspend,
        inhibits_of(policy).contains(InhibitWhat::Idle) <==> policy.prevent_idle,
        inhibits_of(policy).len() == (if policy.prevent_system_suspend {
            1int
        } else {
            0
        }) + (if policy.prevent_idle {
            1int
        } else {
            0
        }),
        sorted_and_distinct(inhibits_of(policy)),
{
    let s = inhibits_of(policy);
    if policy.prevent_system_suspend {
        assert(s[0] == InhibitWhat::Sleep);
    }
    if policy.prevent_idle {
        assert(s[s.len() - 1] == InhibitWhat::Idle);
    }
}

/// What the service is asking a backend to hold.
#[derive(Clone, Debug, PartialEq, Eq)]
pub struct LeaseRequest {
    /// Sorted and deduplicated.
    pub what: Vec<InhibitWhat>,
    /// Shown to anyone inspecting system inhibitors.
    pub who: String,
    /// The merged user-facing reason.
    pub why: String,
}

impl LeaseRequest {
    /// The parts of a merged policy that an inhibitor lock can express, or
    /// `None` when it expresses none of them and no lease is needed.
    pub fn from_policy(policy: &SessionPolicy, who: &str, why: &str) -> (r: Option<Self>)
        ensures
            r is Some <==> inhibits_of(*policy).len() > 0,
            r is Some <==> (policy.prevent_system_suspend || policy.prevent_idle),
            r matches Some(req) ==> {
                &&& req.what@ == inhibits_of(*policy)
                &&& sorted_and_distinct(req.what@)
                &&& req.who@ == who@
                &&& req.why@ == why@
            },
    {
        let mut what: Vec<InhibitWhat> = Vec::new();
        if policy.prevent_system_suspend {
            what.push(InhibitWhat::Sleep);
        }
        if policy.prevent_idle {
            what.push(InhibitWhat::Idle);
        }
        assert(what@ =~= inhibits_of(*policy));
        if what.len() == 0 {
            return None;
        }
        Some(LeaseRequest { what, who: String::from_str(who), why: String::from_str(why) })
    }

    /// The colon-separated form logind takes.
    pub fn what_argument(&self) -> (s: String)
        ensures
            s@ == join(self.what@.map_values(|w: InhibitWhat| inhibit_name(w)), ":"@),
    {
        let mut parts: Vec<Vec<char>> = Vec::new();
        let mut i: usize = 0;
        while i < self.what.len()
            invariant
                i <= self.what.len(),
                views(parts@) == self.what@.take(i as int).map_values(|w: InhibitWhat| inhibit_name(w)),
            decreases self.what.len() - i,
        {
            let name = chars_of(self.what[i].as_str());
            let ghost before = parts@;
            parts.push(name);
            proof {
                assert(views(parts@) =~= views(before).push(name@));
                assert(self.what@.take(i + 1).map_values(|w: InhibitWhat| inhibit_name(w)) =~= self.what@.take(
                    i as int,
                ).map_values(|w: InhibitWhat| inhibit_name(w)).push(inhibit_name(self.what@[i as int])));
            }
            i += 1;
        }
        assert(self.what@.take(self.what.len() as int) =~= self.what@);
        let sep = chars_of(":");
        string_of(&join_chars(&parts, &sep))
    }
}

/// What an inhibitor backend can hold off on this machine.
#[derive(Clone, Copy, Debug, Default, PartialEq, Eq, Structural)]
pub struct BackendCapabilities {
    pub system_suspend: bool,
    pub idle: bool,
    pub display_sleep: bool,
    pub automatic_lock: bool,
}

impl BackendCapabilities {
    /// A backend that can hold off nothing.
    pub fn none() -> (c: Self)
        ensures
            !c.system_suspend && !c.idle && !c.display_sleep && !c.automatic_lock,
    {
        BackendCapabilities { system_suspend: false, idle: false, display_sleep: false, automatic_lock: false }
    }
}

/// Whether a lease the service believes it holds is really still held.
#[derive(Clone, Copy, Debug, PartialEq, Eq, Structural)]
pub enum LeaseHealth {
    Held,
    /// The backend no longer lists it. The service must say so rather than keep
    /// showing the machine as protected.
    Lost,
}

/// Why a backend could not do what it was asked.
#[derive(Clone, Debug, PartialEq, Eq)]
pub enum BackendError {
    Unavailable(String),
    Denied(String),
    Protocol(String),
}

impl BackendError {
    pub open spec fn message_view(&self) -> Seq<char> {
        match self {
            BackendError::Unavailable(d) => "awake.backend.unavailable:"@ + d@,
            BackendError::Denied(d) => "awake.backend.denied:"@ + d@,
            BackendError::Protocol(d) => "awake.backend.protocol:"@ + d@,
        }
    }

    /// The stable key and detail this error reports.
    pub fn message(&self) -> (m: String)
        ensures
            m@ == self.message_view(),
    {
        let (prefix, detail) = match self {
            BackendError::Unavailable(d) => (chars_of("awake.backend.unavailable:"), d),
            BackendError::Denied(d) => (chars_of("awake.backend.denied:"), d),
            BackendError::Protocol(d) => (chars_of("awake.backend.protocol:"), d),
        };
        let mut out = prefix;
        append_chars(&mut out, &chars_of(detail.as_str()));
        string_of(&out)
    }
}

// ---------------------------------------------------------------------------
// Keeping the lease in line with the merged policy
// ---------------------------------------------------------------------------

/// Two requests ask for the same thing: the same locks, for the same holder,
/// with the same stated reason.
pub open spec fn same_request(a: LeaseRequest, b: LeaseRequest) -> bool {
    &&& a.what@ == b.what@
    &&& a.who@ == b.who@
    &&& a.why@ == b.why@
}

/// What is wanted is exactly what is held, absence included.
pub open spec fn already_held(wanted: Option<LeaseRequest>, held: Option<LeaseRequest>) -> bool {
    match (wanted, held) {
        (None, None) => true,
        (Some(a), Some(b)) => same_request(a, b),
        _ => false,
    }
}

fn same_request_exec(a: &LeaseRequest, b: &LeaseRequest) -> (r: bool)
    ensures
        r == same_request(*a, *b),
{
    if a.what.len() != b.what.len() {
        return false;
    }
    let mut i: usize = 0;
    while i < a.what.len()
        invariant
            i <= a.what.len(),
            a.what.len() == b.what.len(),
            forall|j: int| 0 <= j < i ==> a.what@[j] == b.what@[j],
        decreases a.what.len() - i,
    {
        if a.what[i] != b.what[i] {
            return false;
        }
        i += 1;
    }
    assert(a.what@ =~= b.what@);
    chars_eq(&chars_of(a.who.as_str()), &chars_of(b.who.as_str())) && chars_eq(
        &chars_of(a.why.as_str()),
        &chars_of(b.why.as_str()),
    )
}

/// What to do with the lease once the merged policy may have changed.
#[derive(Clone, Debug, PartialEq, Eq)]
pub enum LeasePlan {
    /// Already holding exactly what is wanted, reason text included: nothing
    /// is released and nothing is taken, so the lock does not churn.
    Keep,
    /// Release what is held, if `release_held`, and then take `acquire`, if
    /// anything is wanted.
    Replace { release_held: bool, acquire: Option<LeaseRequest> },
}

/// Decides how to bring the held lease in line with the wanted one.
pub fn plan_lease(wanted: Option<LeaseRequest>, held: &Option<LeaseRequest>) -> (plan: LeasePlan)
    ensures
        plan is Keep <==> already_held(wanted, *held),
        plan matches LeasePlan::Replace { release_held, acquire } ==> {
            &&& release_held == held.is_some()
            &&& acquire == wanted
        },
{
    let same = match (&wanted, held) {
        (None, None) => true,
        (Some(a), Some(b)) => same_request_exec(a, b),
        _ => false,
    };
    if same {
        LeasePlan::Keep
    } else {
        LeasePlan::Replace { release_held: held.is_some(), acquire: wanted }
    }
}

/// What a check of the held lease asks of the service.
#[derive(Clone, Debug, PartialEq, Eq)]
pub enum LeaseCheck {
    /// The lease is still in force.
    Nothing,
    /// The backend no longer lists the lease: forget it, say so with
    /// `awake.backend.lease_lost`, and take the lock again, because the user
    /// still wants the session.
    RetakeLost,
    /// The backend could not answer: report its error and keep the lease,
    /// which may well still be held.
    Report(String),
}

/// The key recorded when a held lease has disappeared.
pub open spec fn lease_lost_key() -> Seq<char> {
    "awake.backend.lease_lost"@
}

/// Reads the backend's answer about the held lease.
pub fn after_lease_check(health: Result<LeaseHealth, BackendError>) -> (check: LeaseCheck)
    ensures
        match health {
            Ok(LeaseHealth::Held) => check is Nothing,
            Ok(LeaseHealth::Lost) => check is RetakeLost,
            Err(e) => check matches LeaseCheck::Report(detail) && detail@ == e.message_view(),
        },
{
    match health {
        Ok(LeaseHealth::Held) => LeaseCheck::Nothing,
        Ok(LeaseHealth::Lost) => LeaseCheck::RetakeLost,
        Err(error) => LeaseCheck::Report(error.message()),
    }
}

} // verus!
