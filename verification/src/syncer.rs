//! The registry reconciler: the single owner of the mapping from service name
//! to its current record. Candidate records arrive over a bounded queue, each
//! stamped with a hybrid logical timestamp, and for every name the record
//! with the greatest version wins; ties and regressions are dropped silently,
//! and a record with an empty name (the lookup-miss sentinel) is never stored.
use crate::hlc::{ts_lt, ts_lt_exec, HlcTimestamp};
use vstd::prelude::*;

verus! {

/// One upstream endpoint of a service: its address and its request-feedback
/// counters. Round-trip times are carried as whole nanoseconds.
pub struct Backend {
    /// Address of the endpoint; the key of this entry within its service.
    pub ip: String,
    /// Requests currently outstanding.
    pub reqs: u64,
    /// Requests completed so far.
    pub count: u64,
    /// Round-trip time of the most recent completed request, in nanoseconds.
    pub rtt: u64,
    /// Running mean of the round-trip time, in nanoseconds.
    pub rtt_mean: u64,
}

/// The mathematical content of a `Backend`.
pub ghost struct BackendView {
    pub ip: Seq<char>,
    pub reqs: u64,
    pub count: u64,
    pub rtt: u64,
    pub rtt_mean: u64,
}

impl View for Backend {
    type V = BackendView;

    open spec fn view(&self) -> BackendView {
        BackendView {
            ip: self.ip@,
            reqs: self.reqs,
            count: self.count,
            rtt: self.rtt,
            rtt_mean: self.rtt_mean,
        }
    }
}

/// The mean after folding one more sample into a running mean over `n`
/// samples in all: the mean moves toward the sample by the truncated
/// `n`-th part of their distance.
pub open spec fn mean_step(mean: u64, sample: u64, n: u64) -> u64
    recommends
        n >= 1,
{
    if sample >= mean {
        (mean + (sample - mean) / (n as int)) as u64
    } else {
        (mean - (mean - sample) / (n as int)) as u64
    }
}

impl Backend {
    /// A fresh endpoint record with no traffic yet.
    pub fn new(ip: &str) -> (b: Backend)
        ensures
            b@.ip == ip@,
            b@.reqs == 0,
            b@.count == 0,
            b@.rtt == 0,
            b@.rtt_mean == 0,
    {
        Backend { ip: ip.to_owned(), reqs: 0, count: 0, rtt: 0, rtt_mean: 0 }
    }

    /// Folds one completed request's round-trip time into the counters: the
    /// total advances by one, the last observed time is replaced, and the
    /// running mean moves by the new total's share of the distance — except
    /// on the very first sample, which becomes the mean outright.
    pub fn observe_rtt(&mut self, sample: u64)
        requires
            old(self).count < u64::MAX,
        ensures
            final(self).count == old(self).count + 1,
            final(self).rtt == sample,
            final(self).rtt_mean == if old(self).count == 0 {
                sample
            } else {
                mean_step(old(self).rtt_mean, sample, (old(self).count + 1) as u64)
            },
            final(self).ip == old(self).ip,
            final(self).reqs == old(self).reqs,
    {
        self.count = self.count + 1;
        self.rtt = sample;
        if self.count == 1 {
            self.rtt_mean = sample;
        } else if sample >= self.rtt_mean {
            self.rtt_mean = self.rtt_mean + (sample - self.rtt_mean) / self.count;
        } else {
            self.rtt_mean = self.rtt_mean - (self.rtt_mean - sample) / self.count;
        }
    }
}

impl Clone for Backend {
    /// A clone carries the same address and counters.
    fn clone(&self) -> (b: Backend)
        ensures
            b@ == self@,
    {
        Backend {
            ip: self.ip.clone(),
            reqs: self.reqs,
            count: self.count,
            rtt: self.rtt,
            rtt_mean: self.rtt_mean,
        }
    }
}

/// One service's current record: its name (the key within the registry), its
/// ordered backend list, and the timestamp of the update that produced it.
pub struct Service {
    pub name: String,
    pub backends: Vec<Backend>,
    pub version: HlcTimestamp,
}

/// The mathematical content of a `Service`.
pub ghost struct ServiceView {
    pub name: Seq<char>,
    pub backends: Seq<BackendView>,
    pub version: HlcTimestamp,
}

impl View for Service {
    type V = ServiceView;

    open spec fn view(&self) -> ServiceView {
        ServiceView {
            name: self.name@,
            backends: self.backends@.map_values(|b: Backend| b@),
            version: self.version,
        }
    }
}

/// The zero timestamp carried by a record that no accepted update produced.
pub open spec fn zero_version() -> HlcTimestamp {
    HlcTimestamp { sec: 0, nsec: 0, counter: 0 }
}

impl Service {
    /// A freshly discovered record: the given name and backend list, with the
    /// zero version, since no stamped update produced it yet.
    pub fn new(name: &str, backends: Vec<Backend>) -> (s: Service)
        ensures
            s@.name == name@,
            s@.backends == backends@.map_values(|b: Backend| b@),
            s@.version == zero_version(),
    {
        Service {
            name: name.to_owned(),
            backends,
            version: HlcTimestamp { sec: 0, nsec: 0, counter: 0 },
        }
    }

    /// Stamps the record with the given version.
    pub fn set_version(&mut self, version: HlcTimestamp)
        ensures
            final(self).name == old(self).name,
            final(self).backends == old(self).backends,
            final(self).version == version,
    {
        self.version = version;
    }
}

impl Clone for Service {
    /// A clone carries the same name, backends and version.
    fn clone(&self) -> (s: Service)
        ensures
            s@ == self@,
    {
        let s = Service {
            name: self.name.clone(),
            backends: self.backends.clone(),
            version: self.version,
        };
        proof {
            assert(s@.backends =~= self@.backends);
        }
        s
    }
}

impl Default for Service {
    /// The lookup-miss sentinel: an empty name, no backends, the zero
    /// version. Never inserted into the registry.
    fn default() -> (s: Service)
        ensures
            s@.name.len() == 0,
            s@.backends.len() == 0,
            s@.version == zero_version(),
    {
        let s = Service {
            name: String::new(),
            backends: Vec::new(),
            version: HlcTimestamp { sec: 0, nsec: 0, counter: 0 },
        };
        proof {
            assert(s@.backends =~= Seq::<BackendView>::empty());
        }
        s
    }
}

/// Well-formedness of a registry: every stored record has a non-empty name,
/// and no two records share a name.
pub open spec fn reg_wf(r: Seq<ServiceView>) -> bool {
    &&& forall|i: int| 0 <= i < r.len() ==> (#[trigger] r[i]).name.len() > 0
    &&& forall|i: int, j: int| 0 <= i < j < r.len() ==> (#[trigger] r[i]).name != (#[trigger] r[j]).name
}

/// The record a registry holds under `name`, if any: the first entry whose
/// name matches (under well-formedness, the only one).
pub open spec fn reg_lookup(r: Seq<ServiceView>, name: Seq<char>) -> Option<ServiceView>
    decreases r.len(),
{
    if r.len() == 0 {
        None
    } else if r[0].name == name {
        Some(r[0])
    } else {
        reg_lookup(r.drop_first(), name)
    }
}

/// The registry after one candidate record is reconciled in: a stored record
/// of the same name is replaced only by a strictly greater version; a new
/// name is appended, unless it is empty.
pub open spec fn reg_apply(r: Seq<ServiceView>, svc: ServiceView) -> Seq<ServiceView>
    decreases r.len(),
{
    if r.len() == 0 {
        if svc.name.len() > 0 {
            seq![svc]
        } else {
            r
        }
    } else if r[0].name == svc.name {
        if ts_lt(r[0].version, svc.version) {
            seq![svc] + r.drop_first()
        } else {
            r
        }
    } else {
        seq![r[0]] + reg_apply(r.drop_first(), svc)
    }
}

#[verifier::external_type_specification]
#[verifier::external_body]
#[verifier::reject_recursive_types(T)]
pub struct ExReceiver<T>(async_std::channel::Receiver<T>);

/// What one non-blocking poll of the inbound queue produced.
pub enum RecvOutcome {
    /// A candidate record was dequeued.
    Update(Service),
    /// The queue is open but currently empty.
    Empty,
    /// The queue is closed and drained: orderly shutdown.
    Closed,
}

/// Relies on async_std's `channel::Receiver::try_recv`: dequeues a ready
/// message without blocking, or reports the queue empty or closed. Producers
/// enqueue concurrently, so nothing is claimed about which outcome comes.
#[verifier::external_body]
fn try_recv_service(r: &async_std::channel::Receiver<Service>) -> (out: RecvOutcome) {
    match r.try_recv() {
        Ok(svc) => RecvOutcome::Update(svc),
        Err(async_std::channel::TryRecvError::Empty) => RecvOutcome::Empty,
        Err(async_std::channel::TryRecvError::Closed) => RecvOutcome::Closed,
    }
}

/// What one reconciliation step did, as reported to the caller driving the
/// receive loop.
pub enum RunStep {
    /// A candidate was dequeued and reconciled into the registry.
    Applied,
    /// The queue was empty; the registry is unchanged and polling goes on.
    Idle,
    /// The queue is closed; the registry is unchanged and the loop is over.
    Shutdown,
}

/// The reconciler: sole owner of the registry, fed candidate records over a
/// bounded queue of which it is the only consumer.
pub struct SyncMgr {
    /// The inbound end of the update queue.
    pub receiver: async_std::channel::Receiver<Service>,
    /// The registry: at most one record per service name.
    pub services: Vec<Service>,
}

impl SyncMgr {
    /// The registry's mathematical content.
    pub open spec fn registry(&self) -> Seq<ServiceView> {
        self.services@.map_values(|s: Service| s@)
    }

    /// A reconciler over the given inbound queue, with an empty registry.
    pub fn new(receiver: async_std::channel::Receiver<Service>) -> (mgr: SyncMgr)
        ensures
            mgr.receiver == receiver,
            mgr.registry() =~= Seq::<ServiceView>::empty(),
            reg_wf(mgr.registry()),
    {
        SyncMgr { receiver, services: Vec::new() }
    }

    /// The stored record under `name`, if one is present: a lookup never
    /// mutates the registry, and a miss is reported as `None` so the caller
    /// can turn to the backend-discovery collaborator for a fresh record.
    pub fn get_service(&self, name: &str) -> (r: Option<Service>)
        ensures
            match r {
                Some(svc) => reg_lookup(self.registry(), name@) == Some(svc@),
                None => reg_lookup(self.registry(), name@) is None,
            },
    {
        let owned = name.to_owned();
        let n = self.services.len();
        let mut i: usize = 0;
        while i < n
            invariant
                n == self.services.len(),
                0 <= i <= n,
                owned@ == name@,
                forall|j: int| 0 <= j < i ==> (#[trigger] self.registry()[j]).name != name@,
            decreases n - i,
        {
            if self.services[i].name == owned {
                let found = self.services[i].clone();
                proof {
                    lemma_reg_lookup_found(self.registry(), name@, i as int);
                }
                return Some(found);
            }
            i = i + 1;
        }
        proof {
            lemma_reg_lookup_absent(self.registry(), name@);
        }
        None
    }

    /// One reconciliation step: reconciles a stored record with a candidate
    /// of the same name by keeping the strictly greater version, appends a
    /// candidate with a new non-empty name, and drops everything else.
    pub fn apply_update(&mut self, svc: Service)
        ensures
            final(self).registry() == reg_apply(old(self).registry(), svc@),
            final(self).receiver == old(self).receiver,
    {
        let ghost pre = self.registry();
        let n = self.services.len();
        let mut i: usize = 0;
        while i < n
            invariant
                n == self.services.len(),
                0 <= i <= n,
                *self == *old(self),
                pre == self.registry(),
                forall|j: int| 0 <= j < i ==> (#[trigger] pre[j]).name != svc@.name,
            decreases n - i,
        {
            if self.services[i].name == svc.name {
                proof {
                    lemma_reg_apply_found(pre, svc@, i as int);
                }
                if ts_lt_exec(&self.services[i].version, &svc.version) {
                    self.services.set(i, svc);
                    proof {
                        assert(self.registry() =~= pre.update(i as int, svc@));
                    }
                }
                return ;
            }
            i = i + 1;
        }
        proof {
            lemma_reg_apply_absent(pre, svc@);
        }
        if !svc.name.as_str().is_empty() {
            self.services.push(svc);
            proof {
                assert(self.registry() =~= pre.push(svc@));
            }
        }
    }

    /// One iteration of the receive loop: polls the queue once without
    /// blocking, reconciles the candidate if one was ready, and tells the
    /// caller whether to keep polling. The loop's only exit is a closed
    /// queue, which is orderly shutdown, not an error.
    pub fn run_step(&mut self) -> (step: RunStep)
        ensures
            final(self).receiver == old(self).receiver,
            match step {
                RunStep::Applied => exists|sv: ServiceView|
                    final(self).registry() == reg_apply(old(self).registry(), sv),
                RunStep::Idle => final(self).registry() == old(self).registry(),
                RunStep::Shutdown => final(self).registry() == old(self).registry(),
            },
            reg_wf(old(self).registry()) ==> reg_wf(final(self).registry()),
    {
        match try_recv_service(&self.receiver) {
            RecvOutcome::Update(svc) => {
                let ghost pre = self.registry();
                let ghost sv = svc@;
                self.apply_update(svc);
                proof {
                    if reg_wf(pre) {
                        lemma_reg_apply_wf(pre, sv);
                    }
                }
                RunStep::Applied
            },
            RecvOutcome::Empty => RunStep::Idle,
            RecvOutcome::Closed => RunStep::Shutdown,
        }
    }
}

/// The lookup finds the first entry carrying the name.
proof fn lemma_reg_lookup_found(r: Seq<ServiceView>, name: Seq<char>, i: int)
    requires
        0 <= i < r.len(),
        r[i].name == name,
        forall|j: int| 0 <= j < i ==> (#[trigger] r[j]).name != name,
    ensures
        reg_lookup(r, name) == Some(r[i]),
    decreases i,
{
    if i > 0 {
        let rest = r.drop_first();
        assert(forall|j: int| 0 <= j < i - 1 ==> (#[trigger] rest[j]).name != name);
        assert(rest[i - 1] == r[i]);
        lemma_reg_lookup_found(rest, name, i - 1);
    }
}

/// The lookup misses when no entry carries the name.
proof fn lemma_reg_lookup_absent(r: Seq<ServiceView>, name: Seq<char>)
    requires
        forall|j: int| 0 <= j < r.len() ==> (#[trigger] r[j]).name != name,
    ensures
        reg_lookup(r, name) is None,
    decreases r.len(),
{
    if r.len() > 0 {
        let rest = r.drop_first();
        assert(forall|j: int| 0 <= j < rest.len() ==> (#[trigger] rest[j]).name != name);
        lemma_reg_lookup_absent(rest, name);
    }
}

/// Reconciling a candidate whose name is stored at index `i` (and nowhere
/// earlier) replaces that entry exactly when the candidate's version is
/// strictly greater.
proof fn lemma_reg_apply_found(r: Seq<ServiceView>, svc: ServiceView, i: int)
    requires
        0 <= i < r.len(),
        r[i].name == svc.name,
        forall|j: int| 0 <= j < i ==> (#[trigger] r[j]).name != svc.name,
    ensures
        reg_apply(r, svc) == if ts_lt(r[i].version, svc.version) {
            r.update(i, svc)
        } else {
            r
        },
    decreases i,
{
    if i == 0 {
        if ts_lt(r[0].version, svc.version) {
            assert(seq![svc] + r.drop_first() =~= r.update(0, svc));
        }
    } else {
        let rest = r.drop_first();
        assert(forall|j: int| 0 <= j < i - 1 ==> (#[trigger] rest[j]).name != svc.name);
        assert(rest[i - 1] == r[i]);
        lemma_reg_apply_found(rest, svc, i - 1);
        assert(r[0].name != svc.name);
        if ts_lt(r[i].version, svc.version) {
            assert(seq![r[0]] + rest.update(i - 1, svc) =~= r.update(i, svc));
        } else {
            assert(seq![r[0]] + rest =~= r);
        }
    }
}

/// Reconciling a candidate whose name is absent appends it, unless the name
/// is empty, in which case nothing changes.
proof fn lemma_reg_apply_absent(r: Seq<ServiceView>, svc: ServiceView)
    requires
        forall|j: int| 0 <= j < r.len() ==> (#[trigger] r[j]).name != svc.name,
    ensures
        reg_apply(r, svc) == if svc.name.len() > 0 {
            r.push(svc)
        } else {
            r
        },
    decreases r.len(),
{
    if r.len() == 0 {
        if svc.name.len() > 0 {
            assert(seq![svc] =~= r.push(svc));
        }
    } else {
        let rest = r.drop_first();
        assert(forall|j: int| 0 <= j < rest.len() ==> (#[trigger] rest[j]).name != svc.name);
        lemma_reg_apply_absent(rest, svc);
        if svc.name.len() > 0 {
            assert(seq![r[0]] + rest.push(svc) =~= r.push(svc));
        } else {
            assert(seq![r[0]] + rest =~= r);
        }
    }
}

/// Reconciliation preserves well-formedness, and introduces no name beyond
/// the candidate's own.
pub proof fn lemma_reg_apply_wf(r: Seq<ServiceView>, svc: ServiceView)
    requires
        reg_wf(r),
    ensures
        reg_wf(reg_apply(r, svc)),
        forall|k: int|
            0 <= k < reg_apply(r, svc).len() ==> (#[trigger] reg_apply(r, svc)[k]).name == svc.name
                || exists|j: int| 0 <= j < r.len() && (#[trigger] r[j]).name == reg_apply(
                r,
                svc,
            )[k].name,
    decreases r.len(),
{
    let out = reg_apply(r, svc);
    if r.len() == 0 {
    } else if r[0].name == svc.name {
        if ts_lt(r[0].version, svc.version) {
            assert forall|k: int| 0 <= k < out.len() implies (#[trigger] out[k]).name == svc.name
                || exists|j: int| 0 <= j < r.len() && (#[trigger] r[j]).name == out[k].name by {
                if k > 0 {
                    assert(out[k] == r[k]);
                    assert(r[k].name == out[k].name);
                }
            }
        }
    } else {
        let rest = r.drop_first();
        assert(forall|i: int| 0 <= i < rest.len() ==> (#[trigger] rest[i]).name.len() > 0);
        assert(forall|i: int, j: int|
            0 <= i < j < rest.len() ==> (#[trigger] rest[i]).name != (#[trigger] rest[j]).name);
        lemma_reg_apply_wf(rest, svc);
        let sub = reg_apply(rest, svc);
        assert(out =~= seq![r[0]] + sub);
        assert forall|k: int| 0 <= k < sub.len() implies r[0].name != (#[trigger] sub[k]).name by {
            if sub[k].name == svc.name {
            } else {
                let j = choose|j: int| 0 <= j < rest.len() && (#[trigger] rest[j]).name
                    == sub[k].name;
                assert(rest[j] == r[j + 1]);
            }
        }
        assert forall|k: int| 0 <= k < out.len() implies (#[trigger] out[k]).name == svc.name
            || exists|j: int| 0 <= j < r.len() && (#[trigger] r[j]).name == out[k].name by {
            if k == 0 {
                assert(r[0].name == out[0].name);
            } else {
                assert(out[k] == sub[k - 1]);
                if sub[k - 1].name != svc.name {
                    let j = choose|j: int| 0 <= j < rest.len() && (#[trigger] rest[j]).name
                        == sub[k - 1].name;
                    assert(r[j + 1].name == out[k].name);
                }
            }
        }
        assert forall|i: int, j: int| 0 <= i < j < out.len() implies (#[trigger] out[i]).name != (
        #[trigger] out[j]).name by {
            if i == 0 {
                assert(out[j] == sub[j - 1]);
            }
        }
    }
}

/// What reconciliation does to the lookup of the candidate's own name — the
/// per-name state machine: a first accepted insert makes the name present, a
/// strictly greater version replaces, anything else is a no-op — and that
/// every other name's lookup is untouched.
pub proof fn lemma_reg_apply_lookup(r: Seq<ServiceView>, svc: ServiceView)
    requires
        reg_wf(r),
    ensures
        reg_lookup(reg_apply(r, svc), svc.name) == (match reg_lookup(r, svc.name) {
            Option::None => if svc.name.len() > 0 {
                Some(svc)
            } else {
                Option::<ServiceView>::None
            },
            Option::Some(cur) => if ts_lt(cur.version, svc.version) {
                Some(svc)
            } else {
                Some(cur)
            },
        }),
        forall|n: Seq<char>|
            n != svc.name ==> #[trigger] reg_lookup(reg_apply(r, svc), n) == reg_lookup(r, n),
    decreases r.len(),
{
    let out = reg_apply(r, svc);
    if r.len() == 0 {
        if svc.name.len() > 0 {
            assert(out == seq![svc]);
            assert(out.drop_first() =~= Seq::<ServiceView>::empty());
            assert forall|n: Seq<char>| n != svc.name implies #[trigger] reg_lookup(out, n)
                == reg_lookup(r, n) by {
                assert(reg_lookup(out, n) == reg_lookup(out.drop_first(), n));
            }
        }
    } else if r[0].name == svc.name {
        if ts_lt(r[0].version, svc.version) {
            assert(out == seq![svc] + r.drop_first());
            assert(out[0] == svc);
            assert(out.drop_first() =~= r.drop_first());
            assert forall|n: Seq<char>| n != svc.name implies #[trigger] reg_lookup(out, n)
                == reg_lookup(r, n) by {
                assert(reg_lookup(out, n) == reg_lookup(r.drop_first(), n));
                assert(reg_lookup(r, n) == reg_lookup(r.drop_first(), n));
            }
        }
    } else {
        let rest = r.drop_first();
        assert(forall|i: int| 0 <= i < rest.len() ==> (#[trigger] rest[i]).name.len() > 0);
        assert(forall|i: int, j: int|
            0 <= i < j < rest.len() ==> (#[trigger] rest[i]).name != (#[trigger] rest[j]).name);
        lemma_reg_apply_lookup(rest, svc);
        let sub = reg_apply(rest, svc);
        assert(out == seq![r[0]] + sub);
        assert(out[0] == r[0]);
        assert(out.drop_first() =~= sub);
        assert(reg_lookup(out, svc.name) == reg_lookup(sub, svc.name));
        assert(reg_lookup(r, svc.name) == reg_lookup(rest, svc.name));
        assert forall|n: Seq<char>| n != svc.name implies #[trigger] reg_lookup(out, n)
            == reg_lookup(r, n) by {
            if n == r[0].name {
                assert(reg_lookup(out, n) == Some(out[0]));
                assert(reg_lookup(r, n) == Some(r[0]));
            } else {
                assert(reg_lookup(out, n) == reg_lookup(sub, n));
                assert(reg_lookup(r, n) == reg_lookup(rest, n));
                assert(reg_lookup(sub, n) == reg_lookup(rest, n));
            }
        }
    }
}

/// Last writer wins: two candidates for one name, reconciled into a registry
/// that does not hold that name yet, leave the strictly newer one stored,
/// whichever order they arrive in.
pub proof fn lemma_last_writer_wins(r: Seq<ServiceView>, u1: ServiceView, u2: ServiceView)
    requires
        reg_wf(r),
        u1.name == u2.name,
        u1.name.len() > 0,
        ts_lt(u1.version, u2.version),
        reg_lookup(r, u1.name) is None,
    ensures
        reg_lookup(reg_apply(reg_apply(r, u1), u2), u2.name) == Some(u2),
        reg_lookup(reg_apply(reg_apply(r, u2), u1), u2.name) == Some(u2),
{
    lemma_reg_apply_wf(r, u1);
    lemma_reg_apply_lookup(r, u1);
    lemma_reg_apply_lookup(reg_apply(r, u1), u2);
    lemma_reg_apply_wf(r, u2);
    lemma_reg_apply_lookup(r, u2);
    lemma_reg_apply_lookup(reg_apply(r, u2), u1);
}

/// Reconciling the same candidate twice leaves the registry exactly as
/// reconciling it once did: the second submission hits a stored version that
/// is not strictly smaller, and is dropped.
pub proof fn lemma_reg_apply_idempotent(r: Seq<ServiceView>, svc: ServiceView)
    ensures
        reg_apply(reg_apply(r, svc), svc) == reg_apply(r, svc),
    decreases r.len(),
{
    let once = reg_apply(r, svc);
    if r.len() == 0 {
        if svc.name.len() > 0 {
            assert(once == seq![svc]);
            assert(once[0] == svc);
        }
    } else if r[0].name == svc.name {
        if ts_lt(r[0].version, svc.version) {
            assert(once == seq![svc] + r.drop_first());
            assert(once[0] == svc);
        }
    } else {
        let rest = r.drop_first();
        lemma_reg_apply_idempotent(rest, svc);
        assert(once == seq![r[0]] + reg_apply(rest, svc));
        assert(once[0] == r[0]);
        assert(once.drop_first() =~= reg_apply(rest, svc));
        if once.len() > 0 {
            assert(reg_apply(once, svc) == seq![once[0]] + reg_apply(once.drop_first(), svc));
        }
    }
}

/// A candidate with an empty name — the lookup-miss sentinel — never changes
/// a well-formed registry, so no sequence of submissions ever makes an
/// empty-named record present.
pub proof fn lemma_empty_name_rejected(r: Seq<ServiceView>, svc: ServiceView)
    requires
        reg_wf(r),
        svc.name.len() == 0,
    ensures
        reg_apply(r, svc) == r,
    decreases r.len(),
{
    if r.len() > 0 {
        let rest = r.drop_first();
        assert(r[0].name.len() > 0);
        assert(forall|i: int| 0 <= i < rest.len() ==> (#[trigger] rest[i]).name.len() > 0);
        assert(forall|i: int, j: int|
            0 <= i < j < rest.len() ==> (#[trigger] rest[i]).name != (#[trigger] rest[j]).name);
        lemma_empty_name_rejected(rest, svc);
        assert(seq![r[0]] + rest =~= r);
    }
}

} // verus!
