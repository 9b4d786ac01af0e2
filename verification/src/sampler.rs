//! When each provider is read: where "bounded polling, no busy loops" stops
//! being a promise and becomes arithmetic.
//!
//! Each provider names its cadence; the schedule remembers when it last read
//! each one and hands out only the ones whose interval has elapsed. A provider
//! nobody needs is not handed out at all, so a machine with no rules does no
//! reading for triggers whatsoever.

use vstd::prelude::*;

use crate::provider::{Cadence, ProviderKind, all_kinds_spec, all_provider_kinds, cadence_of, cadence_spec, kind_index};

verus! {

/// Whether a provider with this cadence, last read at `last`, is due at `now`.
///
/// Free and event-driven providers are due every tick because reading them
/// costs nothing; the cost a cadence bounds is I/O. A polling provider never
/// read is due; otherwise it is due once its interval has passed, a clock that
/// went backwards counting as no time passed.
pub open spec fn due_spec(cadence: Cadence, last: Option<u64>, now: u64) -> bool {
    match cadence {
        Cadence::Poll { seconds } => match last {
            None => true,
            Some(l) => (if now >= l {
                now - l
            } else {
                0
            }) >= seconds,
        },
        _ => true,
    }
}

/// When each provider kind was last read.
#[derive(Debug, PartialEq, Eq)]
pub struct SampleSchedule {
    /// Indexed by the kind's sampling position.
    last_sampled: Vec<Option<u64>>,
}

impl View for SampleSchedule {
    type V = Map<ProviderKind, u64>;

    /// The kinds read so far, each with when it was last read.
    closed spec fn view(&self) -> Map<ProviderKind, u64> {
        Map::new(
            |k: ProviderKind| kind_index(k) < self.last_sampled@.len() && self.last_sampled@[kind_index(k) as int]
                is Some,
            |k: ProviderKind| self.last_sampled@[kind_index(k) as int]->0,
        )
    }
}

pub open spec fn last_of(m: Map<ProviderKind, u64>, k: ProviderKind) -> Option<u64> {
    if m.dom().contains(k) {
        Some(m[k])
    } else {
        None
    }
}

/// `kinds` lists, in sampling order and once each, every kind for which
/// `pick` holds.
pub open spec fn in_sampling_order(kinds: Seq<ProviderKind>, pick: spec_fn(ProviderKind) -> bool) -> bool {
    &&& forall|i: int, j: int| 0 <= i < j < kinds.len() ==> kind_index(#[trigger] kinds[i]) < kind_index(#[trigger] kinds[j])
    &&& forall|i: int| 0 <= i < kinds.len() ==> pick(#[trigger] kinds[i])
    &&& forall|k: ProviderKind| #[trigger] pick(k) ==> kinds.contains(k)
}

proof fn lemma_kind_index_injective(a: ProviderKind, b: ProviderKind)
    ensures
        kind_index(a) == kind_index(b) ==> a == b,
        kind_index(a) < 11,
{
}

impl SampleSchedule {
    /// There is one slot per provider kind.
    #[verifier::type_invariant]
    spec fn wf(&self) -> bool {
        self.last_sampled@.len() == 11
    }

    /// Nothing read yet.
    pub fn new() -> (s: Self)
        ensures
            s@ == Map::<ProviderKind, u64>::empty(),
    {
        let s = SampleSchedule { last_sampled: vec![None, None, None, None, None, None, None, None, None, None, None] };
        assert(s@ =~= Map::<ProviderKind, u64>::empty());
        s
    }

    /// Whether `kind` should be read at `now`.
    pub fn is_due(&self, kind: ProviderKind, now_unix_seconds: u64) -> (due: bool)
        ensures
            due == due_spec(cadence_spec(kind), last_of(self@, kind), now_unix_seconds),
    {
        proof {
            use_type_invariant(self);
            lemma_kind_index_injective(kind, kind);
        }
        let interval = match cadence_of(kind).poll_seconds() {
            None => return true,
            Some(seconds) => seconds,
        };
        match self.last_sampled[index_of(kind)] {
            None => true,
            Some(last) => now_unix_seconds.saturating_sub(last) >= interval,
        }
    }

    /// Records that `kind` was read at `now`.
    pub fn mark_sampled(&mut self, kind: ProviderKind, now_unix_seconds: u64)
        ensures
            final(self)@ == old(self)@.insert(kind, now_unix_seconds),
    {
        proof {
            use_type_invariant(&*self);
            lemma_kind_index_injective(kind, kind);
        }
        let mut slots = SampleSchedule::new();
        std::mem::swap(self, &mut slots);
        proof {
            use_type_invariant(&slots);
        }
        let SampleSchedule { mut last_sampled } = slots;
        last_sampled.set(index_of(kind), Some(now_unix_seconds));
        *self = SampleSchedule { last_sampled };
        proof {
            assert forall|k: ProviderKind| #![auto] true implies (self@.dom().contains(k) == old(self)@.insert(
                kind,
                now_unix_seconds,
            ).dom().contains(k)) by {
                lemma_kind_index_injective(k, kind);
            }
            assert(self@ =~= old(self)@.insert(kind, now_unix_seconds)) by {
                assert forall|k: ProviderKind| #![auto] self@.dom().contains(k) implies self@[k] == old(self)@.insert(
                    kind,
                    now_unix_seconds,
                )[k] by {
                    lemma_kind_index_injective(k, kind);
                }
            }
        }
    }

    /// The kinds to read at `now`: every kind the rules need or the caller
    /// always wants, whose cadence has elapsed, in sampling order. Each one
    /// handed out is recorded as read at `now`.
    ///
    /// The `always` list exists for battery protection, a guarantee the user
    /// gets whether or not any rule mentions the battery. Cadence is still
    /// honoured: always read does not mean read every tick.
    pub fn due_kinds(&mut self, required: &[ProviderKind], always: &[ProviderKind], now_unix_seconds: u64) -> (due: Vec<ProviderKind>)
        ensures
            in_sampling_order(
                due@,
                |k: ProviderKind|
                    (required@.contains(k) || always@.contains(k)) && due_spec(
                        cadence_spec(k),
                        last_of(old(self)@, k),
                        now_unix_seconds,
                    ),
            ),
            final(self)@ == old(self)@.union_prefer_right(
                Map::new(|k: ProviderKind| due@.contains(k), |k: ProviderKind| now_unix_seconds),
            ),
            required@.len() == 0 && always@.len() == 0 ==> due@.len() == 0,
    {
        let kinds = all_provider_kinds();
        let mut due: Vec<ProviderKind> = Vec::new();
        let ghost start = self@;
        let ghost pick = |k: ProviderKind|
            (required@.contains(k) || always@.contains(k)) && due_spec(
                cadence_spec(k),
                last_of(start, k),
                now_unix_seconds,
            );
        let mut i: usize = 0;
        while i < kinds.len()
            invariant
                i <= kinds.len(),
                kinds@ == all_kinds_spec(),
                kinds.len() == 11,
                forall|j: int| 0 <= j < 11 ==> kind_index(#[trigger] kinds@[j]) == j,
                pick == (|k: ProviderKind|
                    (required@.contains(k) || always@.contains(k)) && due_spec(
                        cadence_spec(k),
                        last_of(start, k),
                        now_unix_seconds,
                    )),
                forall|a: int, b: int| 0 <= a < b < due@.len() ==> kind_index(#[trigger] due@[a]) < kind_index(#[trigger] due@[b]),
                forall|a: int| 0 <= a < due@.len() ==> pick(#[trigger] due@[a]) && kind_index(due@[a]) < i,
                forall|k: ProviderKind| kind_index(k) < i && #[trigger] pick(k) ==> due@.contains(k),
                forall|k: ProviderKind| #![auto] kind_index(k) >= i ==> last_of(self@, k) == last_of(start, k),
                self@ == start.union_prefer_right(
                    Map::new(|k: ProviderKind| due@.contains(k), |k: ProviderKind| now_unix_seconds),
                ),
            decreases kinds.len() - i,
        {
            let kind = kinds[i];
            let wanted = slice_contains(required, kind) || slice_contains(always, kind);
            if wanted && self.is_due(kind, now_unix_seconds) {
                assert(last_of(self@, kind) == last_of(start, kind));
                let ghost before = due@;
                due.push(kind);
                self.mark_sampled(kind, now_unix_seconds);
                proof {
                    assert forall|k: ProviderKind| #![auto] due@.contains(k) <==> (before.contains(k) || k == kind) by {
                        if k == kind {
                            assert(due@[due@.len() - 1] == kind);
                        }
                        if before.contains(k) {
                            let w = choose|w: int| 0 <= w < before.len() && before[w] == k;
                            assert(due@[w] == k);
                        }
                    }
                    assert(self@ =~= start.union_prefer_right(
                        Map::new(|k: ProviderKind| due@.contains(k), |k: ProviderKind| now_unix_seconds),
                    ));
                    assert forall|k: ProviderKind| #![auto] kind_index(k) >= i + 1 implies last_of(self@, k) == last_of(
                        start,
                        k,
                    ) by {
                        lemma_kind_index_injective(k, kind);
                    }
                    assert forall|k: ProviderKind| kind_index(k) < i + 1 && #[trigger] pick(k) implies due@.contains(k) by {
                        lemma_kind_index_injective(k, kind);
                        if kind_index(k) < i {
                            let w = choose|w: int| 0 <= w < before.len() && before[w] == k;
                            assert(due@[w] == k);
                        } else {
                            assert(due@[due@.len() - 1] == k);
                        }
                    }
                }
            } else {
                proof {
                    assert forall|k: ProviderKind| kind_index(k) < i + 1 && #[trigger] pick(k) implies due@.contains(k) by {
                        lemma_kind_index_injective(k, kind);
                        if kind_index(k) == i {
                            assert(k == kind);
                        }
                    }
                }
            }
            i += 1;
        }
        proof {
            assert forall|k: ProviderKind| #[trigger] pick(k) implies due@.contains(k) by {
                lemma_kind_index_injective(k, k);
            }
            if due@.len() > 0 {
                assert(pick(due@[0]));
            }
        }
        due
    }

    /// Records every kind as read at `now`, as reading everything regardless
    /// of cadence does (the rule editor's test mode, and Diagnostics).
    pub fn mark_all_sampled(&mut self, now_unix_seconds: u64)
        ensures
            forall|k: ProviderKind| #![auto] last_of(final(self)@, k) == Some(now_unix_seconds),
    {
        let kinds = all_provider_kinds();
        let mut i: usize = 0;
        while i < kinds.len()
            invariant
                i <= kinds.len(),
                kinds.len() == 11,
                forall|j: int| 0 <= j < 11 ==> kind_index(#[trigger] kinds@[j]) == j,
                forall|k: ProviderKind| #![auto] kind_index(k) < i ==> last_of(self@, k) == Some(now_unix_seconds),
            decreases kinds.len() - i,
        {
            let kind = kinds[i];
            let ghost prev = self@;
            self.mark_sampled(kind, now_unix_seconds);
            proof {
                assert(kind_index(kind) == i);
                assert forall|k: ProviderKind| #![auto] kind_index(k) < i + 1 implies last_of(self@, k) == Some(
                    now_unix_seconds,
                ) by {
                    lemma_kind_index_injective(k, kind);
                    if k != kind {
                        assert(kind_index(k) < i);
                        assert(last_of(prev, k) == Some(now_unix_seconds));
                        assert(self@[k] == prev[k]);
                    }
                }
            }
            i += 1;
        }
        proof {
            assert forall|k: ProviderKind| #![auto] true implies last_of(self@, k) == Some(now_unix_seconds) by {
                lemma_kind_index_injective(k, k);
            }
        }
    }

    /// The cadence of one provider kind, so Diagnostics can show the table
    /// rather than repeat it in prose.
    pub fn cadence(&self, kind: ProviderKind) -> (c: Cadence)
        ensures
            c == cadence_spec(kind),
    {
        cadence_of(kind)
    }
}

fn index_of(kind: ProviderKind) -> (i: usize)
    ensures
        i == kind_index(kind),
        i < 11,
{
    match kind {
        ProviderKind::ProcessRunning => 0,
        ProviderKind::AcPower => 1,
        ProviderKind::BatteryPercent => 2,
        ProviderKind::ExternalDisplay => 3,
        ProviderKind::AudioPlayback => 4,
        ProviderKind::CpuUtilization => 5,
        ProviderKind::NetworkThroughput => 6,
        ProviderKind::NetworkInterface => 7,
        ProviderKind::TimeSchedule => 8,
        ProviderKind::WatchedPath => 9,
        ProviderKind::Fullscreen => 10,
    }
}

fn slice_contains(kinds: &[ProviderKind], kind: ProviderKind) -> (b: bool)
    ensures
        b == kinds@.contains(kind),
{
    let mut i: usize = 0;
    while i < kinds.len()
        invariant
            i <= kinds.len(),
            forall|j: int| 0 <= j < i ==> kinds@[j] != kind,
        decreases kinds.len() - i,
    {
        if kinds[i] == kind {
            return true;
        }
        i += 1;
    }
    false
}

/// A polling provider handed out at one tick is not handed out again at a
/// later tick before its interval has passed: the cadence is a floor on how
/// often its source is read.
pub proof fn lemma_no_read_within_interval(
    before: Map<ProviderKind, u64>,
    kind: ProviderKind,
    seconds: u64,
    first: u64,
    second: u64,
)
    requires
        cadence_spec(kind) == (Cadence::Poll { seconds }),
        first <= second,
        second - first < seconds,
    ensures
        !due_spec(cadence_spec(kind), last_of(before.insert(kind, first), kind), second),
{
}

} // verus!
