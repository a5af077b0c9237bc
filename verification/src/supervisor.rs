//! Supervision logic for restartable workers.
//!
//! Two layers are modelled here. `restart_decision` is the policy of the
//! generic restartable-thread runner: a worker body that finishes cleanly
//! is restarted, one that asks to stop is not, and a caught panic leads
//! to a restart unless shutdown was requested. `WorkerRegistry` is the
//! node-process supervisor: it tracks which prover instances hold a live
//! control channel and which are *intended* to be running, so that an
//! observed death can be told apart as a crash (restart) or an
//! intentional stop (forget). Spawning threads, channels and waiting
//! happen outside this crate; the registry only decides.

use vstd::prelude::*;
use crate::node::{NockchainRequest, NockchainResponse};
use crate::strutil::dec_str;

verus! {

/// How one unit of work of a supervised thread ended.
#[derive(Debug)]
pub enum WorkOutcome {
    /// The worker function returned cleanly; its session is over.
    Completed,
    /// The worker function asked to stop, with a reason.
    Stop(String),
    /// The worker function panicked and the panic was caught at the
    /// thread boundary.
    Panicked,
}

/// What the supervisor does after observing a work outcome.
#[derive(Debug, PartialEq, Eq, Structural)]
pub enum RestartDecision {
    /// Run the worker function again (after a backoff when it panicked).
    Restart,
    /// Let the thread exit; no restart.
    Exit,
}

/// The restart policy of a supervised thread: stop requests and a raised
/// shutdown flag end the thread; everything else restarts it.
pub fn restart_decision(outcome: &WorkOutcome, shutdown_requested: bool) -> (r: RestartDecision)
    ensures
        r is Exit <==> (shutdown_requested || outcome is Stop),
{
    if shutdown_requested {
        RestartDecision::Exit
    } else {
        match outcome {
            WorkOutcome::Completed => RestartDecision::Restart,
            WorkOutcome::Stop(_) => RestartDecision::Exit,
            WorkOutcome::Panicked => RestartDecision::Restart,
        }
    }
}

/// An instruction the registry hands back to its caller: actually start
/// a prover process, or send one a shutdown signal.
#[derive(Debug)]
pub enum WorkerAction {
    Spawn(String),
    Stop(String),
}

/// The identifiers of a vector of names.
pub open spec fn ids_of(v: Seq<String>) -> Seq<Seq<char>> {
    v.map_values(|s: String| s@)
}

/// No identifier occurs twice.
pub open spec fn unique(ids: Seq<Seq<char>>) -> bool {
    forall|i: int, j: int| 0 <= i < j < ids.len() ==> ids[i] != ids[j]
}

/// Whether an identifier names a pool worker (as opposed to the master).
pub open spec fn is_worker_id(id: Seq<char>) -> bool {
    "worker"@.len() <= id.len() && id.take("worker"@.len() as int) == "worker"@
}

/// The number of pool workers among `ids`.
pub open spec fn worker_count(ids: Seq<Seq<char>>) -> nat
    decreases ids.len(),
{
    if ids.len() == 0 {
        0
    } else {
        worker_count(ids.drop_last()) + if is_worker_id(ids.last()) {
            1nat
        } else {
            0nat
        }
    }
}

/// The name given to the pool worker with sequence number `n`.
pub open spec fn worker_name(n: u64) -> Seq<char> {
    "worker"@ + dec_str(n as nat)
}

/// The names of `n` consecutive fresh pool workers starting at `start`.
pub open spec fn fresh_worker_names(start: u64, n: nat) -> Seq<Seq<char>> {
    Seq::new(n, |k: int| worker_name((start + k) as u64))
}

/// The first `n` pool-worker identifiers of `ids`, in order.
pub open spec fn take_workers(ids: Seq<Seq<char>>, n: nat) -> Seq<Seq<char>>
    decreases ids.len(),
{
    if ids.len() == 0 || n == 0 {
        Seq::empty()
    } else if is_worker_id(ids[0]) {
        seq![ids[0]] + take_workers(ids.drop_first(), (n - 1) as nat)
    } else {
        take_workers(ids.drop_first(), n)
    }
}

/// Every pool-worker identifier in `ids` was issued below `bound`.
pub open spec fn workers_below(ids: Seq<Seq<char>>, bound: u64) -> bool {
    forall|i: int|
        0 <= i < ids.len() && is_worker_id(#[trigger] ids[i]) ==> exists|n: u64|
            n < bound && ids[i] == worker_name(n)
}

/// The prover-pool supervisor's registry.
///
/// `registered` holds the identifier of every prover instance with a
/// live control channel; `intended` holds the identifiers that are meant
/// to be running. An instance that dies while still intended has
/// crashed and is respawned; one that dies after being removed from the
/// intended set was stopped on purpose and is forgotten.
#[derive(Debug)]
pub struct WorkerRegistry {
    registered: Vec<String>,
    intended: Vec<String>,
    next_worker_id: u64,
}

impl WorkerRegistry {
    /// Identifiers with a live control channel.
    pub closed spec fn registered_ids(&self) -> Seq<Seq<char>> {
        ids_of(self.registered@)
    }

    /// Identifiers intended to be running.
    pub closed spec fn intended_ids(&self) -> Seq<Seq<char>> {
        ids_of(self.intended@)
    }

    /// The next fresh pool-worker sequence number.
    pub closed spec fn next_id_spec(&self) -> u64 {
        self.next_worker_id
    }

    /// Registry well-formedness: no duplicate identifiers, and every
    /// pool-worker name already issued lies below the fresh counter.
    pub open spec fn wf(&self) -> bool {
        &&& unique(self.registered_ids())
        &&& unique(self.intended_ids())
        &&& workers_below(self.registered_ids(), self.next_id_spec())
        &&& workers_below(self.intended_ids(), self.next_id_spec())
    }

    /// An empty registry.
    pub fn new() -> (r: Self)
        ensures
            r.wf(),
            r.registered_ids() == Seq::<Seq<char>>::empty(),
            r.intended_ids() == Seq::<Seq<char>>::empty(),
            r.next_id_spec() == 0,
    {
        let r = WorkerRegistry { registered: Vec::new(), intended: Vec::new(), next_worker_id: 0 };
        proof {
            assert(r.registered_ids() =~= Seq::<Seq<char>>::empty());
            assert(r.intended_ids() =~= Seq::<Seq<char>>::empty());
        }
        r
    }
}

fn string_eq(a: &String, b: &String) -> (r: bool)
    ensures
        r == (a@ == b@),
{
    a.eq(b)
}

fn contains_id(v: &Vec<String>, id: &String) -> (r: bool)
    ensures
        r == ids_of(v@).contains(id@),
{
    let mut i: usize = 0;
    while i < v.len()
        invariant
            i <= v@.len(),
            forall|j: int| 0 <= j < i ==> ids_of(v@)[j] != id@,
        decreases v@.len() - i,
    {
        if string_eq(&v[i], id) {
            assert(ids_of(v@)[i as int] == id@);
            return true;
        }
        i += 1;
    }
    assert(forall|j: int| 0 <= j < ids_of(v@).len() ==> ids_of(v@)[j] != id@);
    false
}

fn remove_id(v: &mut Vec<String>, id: &String)
    requires
        unique(ids_of(old(v)@)),
    ensures
        unique(ids_of(final(v)@)),
        !ids_of(final(v)@).contains(id@),
        forall|x: Seq<char>|
            x != id@ ==> #[trigger] ids_of(final(v)@).contains(x) == ids_of(old(v)@).contains(x),
        ids_of(old(v)@).contains(id@) ==> final(v)@.len() + 1 == old(v)@.len(),
        !ids_of(old(v)@).contains(id@) ==> final(v)@ == old(v)@,
        forall|x: Seq<char>|
            #[trigger] ids_of(final(v)@).contains(x) ==> ids_of(old(v)@).contains(x),
{
    let ghost orig = v@;
    let mut i: usize = 0;
    while i < v.len()
        invariant
            v@ == orig,
            orig == old(v)@,
            unique(ids_of(orig)),
            i <= orig.len(),
            forall|j: int| 0 <= j < i ==> ids_of(orig)[j] != id@,
        decreases orig.len() - i,
    {
        if string_eq(&v[i], id) {
            assert(ids_of(orig)[i as int] == id@);
            v.remove(i);
            proof {
                let new = v@;
                assert(new == orig.remove(i as int));
                assert forall|x: Seq<char>| #[trigger]
                    ids_of(new).contains(x) implies ids_of(orig).contains(x) by {
                    let j = choose|j: int| 0 <= j < new.len() && ids_of(new)[j] == x;
                    if j < i {
                        assert(ids_of(orig)[j] == x);
                    } else {
                        assert(new[j] == orig[j + 1]);
                        assert(ids_of(orig)[j + 1] == x);
                    }
                }
                assert forall|x: Seq<char>|
                    x != id@ && ids_of(orig).contains(x) implies #[trigger] ids_of(
                    new,
                ).contains(x) by {
                    let j = choose|j: int| 0 <= j < orig.len() && ids_of(orig)[j] == x;
                    if j < i {
                        assert(ids_of(new)[j] == x);
                    } else {
                        assert(j != i);
                        assert(orig[j] == new[j - 1]);
                        assert(ids_of(new)[j - 1] == x);
                    }
                }
                assert(!ids_of(new).contains(id@)) by {
                    if ids_of(new).contains(id@) {
                        let j = choose|j: int| 0 <= j < new.len() && ids_of(new)[j] == id@;
                        if j < i {
                            assert(ids_of(orig)[j] == id@);
                        } else {
                            assert(orig[j + 1] == new[j]);
                            assert(ids_of(orig)[j + 1] == id@);
                        }
                    }
                }
                assert forall|p: int, q: int|
                    0 <= p < q < new.len() implies ids_of(new)[p] != ids_of(new)[q] by {
                    let p0 = if p < i {
                        p
                    } else {
                        p + 1
                    };
                    let q0 = if q < i {
                        q
                    } else {
                        q + 1
                    };
                    assert(new[p] == orig[p0]);
                    assert(new[q] == orig[q0]);
                    assert(ids_of(new)[p] == ids_of(orig)[p0]);
                    assert(ids_of(new)[q] == ids_of(orig)[q0]);
                }
            }
            return ;
        }
        i += 1;
    }
    assert(forall|j: int| 0 <= j < ids_of(orig).len() ==> ids_of(orig)[j] != id@);
}

/// `dec_str` is left inverse to the decimal value, so distinct numbers
/// have distinct renderings.
pub proof fn lemma_dec_str_val(n: nat)
    ensures
        crate::strutil::dec_val(dec_str(n)) == n,
        crate::strutil::all_digits(dec_str(n)),
        dec_str(n).len() >= 1,
    decreases n,
{
    if n < 10 {
        let s = seq![crate::strutil::digit_char(n)];
        assert(dec_str(n) == s);
        assert(s.last() == crate::strutil::digit_char(n));
        assert(s.drop_last() =~= Seq::<char>::empty());
        assert(crate::strutil::dec_val(s.drop_last()) == 0);
        assert(crate::strutil::digit_val(crate::strutil::digit_char(n)) == n);
        assert(crate::strutil::dec_val(s) == 0 * 10 + n);
    } else {
        lemma_dec_str_val(n / 10);
        let s = dec_str(n);
        assert(s == dec_str(n / 10).push(crate::strutil::digit_char(n % 10)));
        assert(s.drop_last() =~= dec_str(n / 10));
        assert(crate::strutil::digit_val(crate::strutil::digit_char(n % 10)) == n % 10);
        assert(crate::strutil::dec_val(s) == (n / 10) * 10 + n % 10);
        assert((n / 10) * 10 + n % 10 == n) by (nonlinear_arith);
        assert forall|i: int| 0 <= i < s.len() implies '0' <= #[trigger] s[i] <= '9' by {
            if i < s.len() - 1 {
                assert(s[i] == dec_str(n / 10)[i]);
            }
        }
    }
}

/// Distinct sequence numbers give distinct worker names.
pub proof fn lemma_worker_name_injective(a: u64, b: u64)
    requires
        worker_name(a) == worker_name(b),
    ensures
        a == b,
{
    assert(dec_str(a as nat) =~= worker_name(a).skip("worker"@.len() as int));
    assert(dec_str(b as nat) =~= worker_name(b).skip("worker"@.len() as int));
    lemma_dec_str_val(a as nat);
    lemma_dec_str_val(b as nat);
}

/// A worker name is a worker identifier.
pub proof fn lemma_worker_name_is_worker(n: u64)
    ensures
        is_worker_id(worker_name(n)),
{
    lemma_dec_str_val(n as nat);
    assert(worker_name(n).take("worker"@.len() as int) =~= "worker"@);
}

proof fn lemma_worker_count_le_len(ids: Seq<Seq<char>>)
    ensures
        worker_count(ids) <= ids.len(),
    decreases ids.len(),
{
    if ids.len() > 0 {
        lemma_worker_count_le_len(ids.drop_last());
    }
}

proof fn lemma_worker_count_push(ids: Seq<Seq<char>>, x: Seq<char>)
    ensures
        worker_count(ids.push(x)) == worker_count(ids) + if is_worker_id(x) {
            1nat
        } else {
            0nat
        },
{
    assert(ids.push(x).drop_last() =~= ids);
    assert(ids.push(x).last() == x);
}

impl WorkerRegistry {
    fn count_workers(&self) -> (r: u64)
        ensures
            r as nat == worker_count(self.registered_ids()),
    {
        let ghost ids = self.registered_ids();
        let mut count: u64 = 0;
        let mut i: usize = 0;
        proof {
            assert(ids.take(0) =~= Seq::<Seq<char>>::empty());
            lemma_worker_count_le_len(ids);
        }
        while i < self.registered.len()
            invariant
                ids == self.registered_ids(),
                i <= self.registered@.len(),
                ids.len() == self.registered@.len(),
                count as nat == worker_count(ids.take(i as int)),
                count <= i,
            decreases self.registered@.len() - i,
        {
            proof {
                assert(ids.take(i + 1).drop_last() =~= ids.take(i as int));
                assert(ids.take(i + 1).last() == ids[i as int]);
            }
            if crate::strutil::str_starts_with(self.registered[i].as_str(), "worker") {
                assert(is_worker_id(ids[i as int]));
                count += 1;
            } else {
                assert(!is_worker_id(ids[i as int]));
            }
            i += 1;
        }
        proof {
            assert(ids.take(ids.len() as int) =~= ids);
        }
        count
    }

    /// Handles one request from the node actor.
    ///
    /// Starting the master registers it (once) and asks the caller to
    /// spawn it; stopping it withdraws the intent and asks the caller to
    /// signal it, while its registration lives on until its death is
    /// observed. Connecting or disconnecting an external socket does not
    /// touch the pool. A status request reports whether the master is
    /// registered and how many pool workers are.
    pub fn handle_request(&mut self, req: &NockchainRequest) -> (r: (
        Result<NockchainResponse, String>,
        Vec<WorkerAction>,
    ))
        requires
            old(self).wf(),
        ensures
            final(self).wf(),
            final(self).next_id_spec() == old(self).next_id_spec(),
            match req {
                NockchainRequest::StartMaster => {
                    &&& r.0 == Ok::<NockchainResponse, String>(NockchainResponse::Success)
                    &&& final(self).registered_ids().contains("master"@)
                    &&& if old(self).registered_ids().contains("master"@) {
                        *final(self) == *old(self) && r.1@.len() == 0
                    } else {
                        &&& final(self).registered_ids() == old(self).registered_ids().push(
                            "master"@,
                        )
                        &&& final(self).intended_ids() == if old(self).intended_ids().contains(
                            "master"@,
                        ) {
                            old(self).intended_ids()
                        } else {
                            old(self).intended_ids().push("master"@)
                        }
                        &&& r.1@.len() == 1 && (r.1@[0] matches WorkerAction::Spawn(id) && id@
                            == "master"@)
                    }
                },
                NockchainRequest::StopMaster => {
                    &&& r.0 == Ok::<NockchainResponse, String>(NockchainResponse::Success)
                    &&& final(self).registered_ids() == old(self).registered_ids()
                    &&& if old(self).registered_ids().contains("master"@) {
                        &&& !final(self).intended_ids().contains("master"@)
                        &&& forall|x: Seq<char>|
                            x != "master"@ ==> #[trigger] final(self).intended_ids().contains(x)
                                == old(self).intended_ids().contains(x)
                        &&& r.1@.len() == 1 && (r.1@[0] matches WorkerAction::Stop(id) && id@
                            == "master"@)
                    } else {
                        *final(self) == *old(self) && r.1@.len() == 0
                    }
                },
                NockchainRequest::ConnectExternal(_) => {
                    &&& r.0 == Ok::<NockchainResponse, String>(NockchainResponse::Success)
                    &&& *final(self) == *old(self)
                    &&& r.1@.len() == 0
                },
                NockchainRequest::DisconnectExternal => {
                    &&& r.0 == Ok::<NockchainResponse, String>(NockchainResponse::Success)
                    &&& *final(self) == *old(self)
                    &&& r.1@.len() == 0
                },
                NockchainRequest::GetStatus => {
                    &&& r.0 matches Ok(NockchainResponse::Status { master_running, num_workers })
                        && master_running == old(self).registered_ids().contains("master"@)
                        && num_workers as nat == worker_count(old(self).registered_ids())
                    &&& *final(self) == *old(self)
                    &&& r.1@.len() == 0
                },
            },
    {
        let mut actions: Vec<WorkerAction> = Vec::new();
        match req {
            NockchainRequest::StartMaster => {
                let master = String::from_str("master");
                if !contains_id(&self.registered, &master) {
                    if !contains_id(&self.intended, &master) {
                        let ghost before = self.intended@;
                        self.intended.push(String::from_str("master"));
                        proof {
                            assert(self.intended@.last()@ == "master"@);
                            lemma_ids_push(before, self.intended@.last());
                            assert(self.intended_ids() =~= ids_of(before).push("master"@));
                            lemma_unique_push(ids_of(before), "master"@);
                            lemma_master_not_worker();
                            lemma_workers_below_push(
                                ids_of(before),
                                "master"@,
                                self.next_worker_id,
                            );
                            assert(self.intended_ids().contains("master"@)) by {
                                assert(self.intended_ids().last() == "master"@);
                            }
                        }
                    }
                    let ghost regbefore = self.registered@;
                    self.registered.push(String::from_str("master"));
                    actions.push(WorkerAction::Spawn(String::from_str("master")));
                    proof {
                        assert(self.registered@.last()@ == "master"@);
                        lemma_ids_push(regbefore, self.registered@.last());
                        assert(self.registered_ids() =~= ids_of(regbefore).push("master"@));
                        lemma_unique_push(ids_of(regbefore), "master"@);
                        lemma_master_not_worker();
                        lemma_workers_below_push(
                            ids_of(regbefore),
                            "master"@,
                            self.next_worker_id,
                        );
                        assert(self.registered_ids().contains("master"@)) by {
                            assert(self.registered_ids().last() == "master"@);
                        }
                    }
                }
                (Ok(NockchainResponse::Success), actions)
            },
            NockchainRequest::StopMaster => {
                let master = String::from_str("master");
                if contains_id(&self.registered, &master) {
                    remove_id(&mut self.intended, &master);
                    proof {
                        lemma_workers_below_subset(
                            self.intended_ids(),
                            old(self).intended_ids(),
                            self.next_worker_id,
                        );
                    }
                    actions.push(WorkerAction::Stop(String::from_str("master")));
                }
                (Ok(NockchainResponse::Success), actions)
            },
            NockchainRequest::ConnectExternal(_) => (Ok(NockchainResponse::Success), actions),
            NockchainRequest::DisconnectExternal => (Ok(NockchainResponse::Success), actions),
            NockchainRequest::GetStatus => {
                let master = String::from_str("master");
                let master_running = contains_id(&self.registered, &master);
                let num_workers = self.count_workers();
                (Ok(NockchainResponse::Status { master_running, num_workers }), actions)
            },
        }
    }

    /// Scales the prover pool to `target` workers.
    ///
    /// When the pool is short, fresh workers named from the running
    /// counter are registered, intended and spawned. When it is over
    /// target, the first surplus pool workers (in registration order)
    /// lose their intent and are signalled to stop; their registrations
    /// live on until their deaths are observed, as with the master.
    pub fn set_workers(&mut self, target: u64) -> (actions: Vec<WorkerAction>)
        requires
            old(self).wf(),
            old(self).next_id_spec() + target <= u64::MAX,
        ensures
            final(self).wf(),
            ({
                let cur = worker_count(old(self).registered_ids());
                let start = old(self).next_id_spec();
                if cur < (target as nat) {
                    let added = (target as nat - cur) as nat;
                    &&& final(self).registered_ids() == old(self).registered_ids()
                        + fresh_worker_names(start, added)
                    &&& final(self).intended_ids() == old(self).intended_ids()
                        + fresh_worker_names(start, added)
                    &&& final(self).next_id_spec() == start + added
                    &&& worker_count(final(self).registered_ids()) == target as nat
                    &&& actions@.len() == added
                    &&& forall|k: int|
                        0 <= k < added ==> (#[trigger] actions@[k] matches WorkerAction::Spawn(x)
                            && x@ == worker_name((start + k) as u64))
                } else if (target as nat) < cur {
                    let stop_ids = take_workers(
                        old(self).registered_ids(),
                        (cur - target as nat) as nat,
                    );
                    &&& final(self).registered_ids() == old(self).registered_ids()
                    &&& final(self).next_id_spec() == start
                    &&& forall|x: Seq<char>|
                        #[trigger] final(self).intended_ids().contains(x) == (old(
                            self,
                        ).intended_ids().contains(x) && !stop_ids.contains(x))
                    &&& actions@.len() == stop_ids.len()
                    &&& forall|k: int|
                        0 <= k < stop_ids.len() ==> (#[trigger] actions@[k]
                            matches WorkerAction::Stop(x) && x@ == stop_ids[k])
                } else {
                    &&& *final(self) == *old(self)
                    &&& actions@.len() == 0
                }
            }),
    {
        let mut actions: Vec<WorkerAction> = Vec::new();
        let cur = self.count_workers();
        let ghost start = self.next_worker_id;
        if cur < target {
            let mut k: u64 = cur;
            while k < target
                invariant
                    old(self).wf(),
                    cur == worker_count(old(self).registered_ids()),
                    cur <= k <= target,
                    start == old(self).next_id_spec(),
                    start + target <= u64::MAX,
                    self.wf(),
                    self.next_id_spec() == start + (k - cur),
                    self.registered_ids() == old(self).registered_ids() + fresh_worker_names(
                        start,
                        (k - cur) as nat,
                    ),
                    self.intended_ids() == old(self).intended_ids() + fresh_worker_names(
                        start,
                        (k - cur) as nat,
                    ),
                    worker_count(self.registered_ids()) == k,
                    actions@.len() == k - cur,
                    forall|j: int|
                        0 <= j < k - cur ==> (#[trigger] actions@[j]
                            matches WorkerAction::Spawn(x) && x@ == worker_name(
                            (start + j) as u64,
                        )),
                decreases target - k,
            {
                let name = worker_name_exec(self.next_worker_id);
                let ghost fresh = worker_name(self.next_worker_id);
                let ghost regb = self.registered@;
                let ghost intb = self.intended@;
                proof {
                    lemma_fresh_not_contained(self.registered_ids(), self.next_worker_id);
                    lemma_fresh_not_contained(self.intended_ids(), self.next_worker_id);
                    lemma_worker_name_is_worker(self.next_worker_id);
                }
                let name2 = clone_string(&name);
                self.intended.push(name2);
                self.registered.push(name);
                actions.push(WorkerAction::Spawn(worker_name_exec(self.next_worker_id)));
                proof {
                    lemma_ids_push(regb, self.registered@.last());
                    lemma_ids_push(intb, self.intended@.last());
                    assert(self.registered_ids() =~= ids_of(regb).push(fresh));
                    assert(self.intended_ids() =~= ids_of(intb).push(fresh));
                    lemma_unique_push(ids_of(regb), fresh);
                    lemma_unique_push(ids_of(intb), fresh);
                    lemma_workers_below_widen(
                        ids_of(regb),
                        self.next_worker_id,
                        (self.next_worker_id + 1) as u64,
                    );
                    lemma_workers_below_widen(
                        ids_of(intb),
                        self.next_worker_id,
                        (self.next_worker_id + 1) as u64,
                    );
                    assert(is_worker_id(fresh) ==> exists|n: u64|
                        n < self.next_worker_id + 1 && fresh == worker_name(n)) by {
                        assert(fresh == worker_name(self.next_worker_id));
                    }
                    lemma_workers_below_push(
                        ids_of(regb),
                        fresh,
                        (self.next_worker_id + 1) as u64,
                    );
                    lemma_workers_below_push(
                        ids_of(intb),
                        fresh,
                        (self.next_worker_id + 1) as u64,
                    );
                    lemma_worker_count_push(ids_of(regb), fresh);
                    assert(fresh_worker_names(start, (k + 1 - cur) as nat) =~= fresh_worker_names(
                        start,
                        (k - cur) as nat,
                    ).push(fresh));
                    assert(self.registered_ids() =~= old(self).registered_ids()
                        + fresh_worker_names(start, (k + 1 - cur) as nat)) by {
                        assert(ids_of(regb).push(fresh) =~= old(self).registered_ids()
                            + fresh_worker_names(start, (k - cur) as nat).push(fresh));
                    }
                    assert(self.intended_ids() =~= old(self).intended_ids() + fresh_worker_names(
                        start,
                        (k + 1 - cur) as nat,
                    )) by {
                        assert(ids_of(intb).push(fresh) =~= old(self).intended_ids()
                            + fresh_worker_names(start, (k - cur) as nat).push(fresh));
                    }
                }
                self.next_worker_id += 1;
                k += 1;
            }
            actions
        } else if target < cur {
            let need: u64 = cur - target;
            let ghost ids = self.registered_ids();
            let mut stops: Vec<String> = Vec::new();
            let mut i: usize = 0;
            let n = self.registered.len();
            proof {
                assert(ids.skip(0) == ids);
                assert(ids_of(stops@) =~= Seq::<Seq<char>>::empty());
            }
            while i < n
                invariant
                    ids == self.registered_ids(),
                    n == self.registered@.len(),
                    i <= n,
                    ids.len() == n,
                    ids_of(stops@).len() <= need,
                    take_workers(ids, need as nat) == ids_of(stops@) + take_workers(
                        ids.skip(i as int),
                        (need - ids_of(stops@).len()) as nat,
                    ),
                decreases n - i,
            {
                let ghost collected = ids_of(stops@);
                proof {
                    lemma_take_workers_unfold(ids, i as int, (need - collected.len()) as nat);
                }
                if (stops.len() as u64) < need && crate::strutil::str_starts_with(
                    self.registered[i].as_str(),
                    "worker",
                ) {
                    let ghost sb = stops@;
                    stops.push(clone_string(&self.registered[i]));
                    proof {
                        lemma_ids_push(sb, stops@.last());
                        assert(ids_of(stops@) =~= collected.push(ids[i as int]));
                        assert(collected.push(ids[i as int]) + take_workers(
                            ids.skip(i + 1),
                            (need - collected.len() - 1) as nat,
                        ) =~= collected + (seq![ids[i as int]] + take_workers(
                            ids.skip(i + 1),
                            (need - collected.len() - 1) as nat,
                        )));
                    }
                } else {
                    proof {
                        if stops.len() as u64 == need {
                            assert(take_workers(ids.skip(i as int), 0) =~= Seq::<
                                Seq<char>,
                            >::empty());
                            assert(take_workers(ids.skip(i + 1), 0) =~= Seq::<
                                Seq<char>,
                            >::empty());
                        } else {
                            assert(!is_worker_id(ids[i as int]));
                        }
                    }
                }
                i += 1;
            }
            proof {
                assert(ids.skip(n as int).len() == 0);
                assert(take_workers(
                    ids.skip(n as int),
                    (need - ids_of(stops@).len()) as nat,
                ) =~= Seq::<Seq<char>>::empty());
                assert(ids_of(stops@) =~= take_workers(ids, need as nat));
            }
            let ghost stop_ids = take_workers(ids, need as nat);
            let mut j: usize = 0;
            let m = stops.len();
            proof {
                assert(stop_ids.take(0) =~= Seq::<Seq<char>>::empty());
            }
            while j < m
                invariant
                    old(self).wf(),
                    m == stops@.len(),
                    j <= m,
                    ids_of(stops@) == stop_ids,
                    stop_ids.len() == m,
                    self.wf(),
                    self.registered_ids() == old(self).registered_ids(),
                    self.next_id_spec() == old(self).next_id_spec(),
                    forall|x: Seq<char>|
                        #[trigger] self.intended_ids().contains(x) == (old(
                            self,
                        ).intended_ids().contains(x) && !stop_ids.take(j as int).contains(x)),
                    actions@.len() == j,
                    forall|k2: int|
                        0 <= k2 < j ==> (#[trigger] actions@[k2] matches WorkerAction::Stop(x)
                            && x@ == stop_ids[k2]),
                decreases m - j,
            {
                let ghost intb = self.intended_ids();
                remove_id(&mut self.intended, &stops[j]);
                proof {
                    lemma_workers_below_subset(self.intended_ids(), intb, self.next_worker_id);
                    assert(stop_ids.take(j + 1) =~= stop_ids.take(j as int).push(
                        stop_ids[j as int],
                    ));
                    assert forall|x: Seq<char>| #[trigger]
                        self.intended_ids().contains(x) == (old(self).intended_ids().contains(x)
                        && !stop_ids.take(j + 1).contains(x)) by {
                        lemma_contains_push_other_general(
                            stop_ids.take(j as int),
                            stop_ids[j as int],
                            x,
                        );
                    }
                }
                actions.push(WorkerAction::Stop(clone_string(&stops[j])));
                j += 1;
            }
            proof {
                assert(stop_ids.take(m as int) =~= stop_ids);
            }
            actions
        } else {
            actions
        }
    }

    /// Records an observed death and decides on a restart.
    ///
    /// The dead instance loses its registration. If its identifier is
    /// still in the intended set it crashed while supposed to be
    /// running: it is re-registered and the caller is told to spawn it
    /// again. Otherwise it was stopped on purpose and is forgotten for
    /// good.
    pub fn handle_death(&mut self, id: &String) -> (r: (bool, Vec<WorkerAction>))
        requires
            old(self).wf(),
        ensures
            final(self).wf(),
            final(self).intended_ids() == old(self).intended_ids(),
            final(self).next_id_spec() == old(self).next_id_spec(),
            r.0 == old(self).intended_ids().contains(id@),
            r.0 ==> {
                &&& final(self).registered_ids().contains(id@)
                &&& r.1@.len() == 1 && (r.1@[0] matches WorkerAction::Spawn(x) && x@ == id@)
            },
            !r.0 ==> {
                &&& !final(self).registered_ids().contains(id@)
                &&& r.1@.len() == 0
            },
            forall|x: Seq<char>|
                x != id@ ==> #[trigger] final(self).registered_ids().contains(x) == old(
                    self,
                ).registered_ids().contains(x),
    {
        let mut actions: Vec<WorkerAction> = Vec::new();
        remove_id(&mut self.registered, id);
        proof {
            lemma_workers_below_subset(
                self.registered_ids(),
                old(self).registered_ids(),
                self.next_worker_id,
            );
        }
        if contains_id(&self.intended, id) {
            let ghost midv = self.registered@;
            self.registered.push(clone_string(id));
            proof {
                assert(self.registered@.last()@ == id@);
                lemma_ids_push(midv, self.registered@.last());
                assert(self.registered_ids() =~= ids_of(midv).push(id@));
                lemma_unique_push(ids_of(midv), id@);
                let ints = self.intended_ids();
                assert(ints.contains(id@));
                let j = choose|j: int| 0 <= j < ints.len() && ints[j] == id@;
                if is_worker_id(id@) {
                    assert(is_worker_id(ints[j]));
                    assert(exists|n: u64| n < self.next_worker_id && ints[j] == worker_name(n));
                }
                lemma_workers_below_subset(
                    ids_of(midv),
                    old(self).registered_ids(),
                    self.next_worker_id,
                );
                lemma_workers_below_push(ids_of(midv), id@, self.next_worker_id);
                assert(self.registered_ids().contains(id@)) by {
                    assert(self.registered_ids().last() == id@);
                }
                assert forall|x: Seq<char>|
                    x != id@ implies #[trigger] self.registered_ids().contains(x) == old(
                    self,
                ).registered_ids().contains(x) by {
                    lemma_contains_push_other_general(ids_of(midv), id@, x);
                }
            }
            actions.push(WorkerAction::Spawn(clone_string(id)));
            (true, actions)
        } else {
            (false, actions)
        }
    }
}

proof fn lemma_workers_below_subset(a: Seq<Seq<char>>, b: Seq<Seq<char>>, bound: u64)
    requires
        workers_below(b, bound),
        forall|x: Seq<char>| #[trigger] a.contains(x) ==> b.contains(x),
    ensures
        workers_below(a, bound),
{
    assert forall|i: int|
        0 <= i < a.len() && is_worker_id(#[trigger] a[i]) implies exists|n: u64|
        n < bound && a[i] == worker_name(n) by {
        assert(a.contains(a[i]));
        let j = choose|j: int| 0 <= j < b.len() && b[j] == a[i];
    }
}

proof fn lemma_ids_push(v: Seq<String>, s: String)
    ensures
        ids_of(v.push(s)) =~= ids_of(v).push(s@),
{
}

proof fn lemma_workers_below_push(ids: Seq<Seq<char>>, x: Seq<char>, bound: u64)
    requires
        workers_below(ids, bound),
        is_worker_id(x) ==> exists|n: u64| n < bound && x == worker_name(n),
    ensures
        workers_below(ids.push(x), bound),
{
    assert forall|i: int|
        0 <= i < ids.push(x).len() && is_worker_id(#[trigger] ids.push(x)[i]) implies exists|
        n: u64,
    |
        n < bound && ids.push(x)[i] == worker_name(n) by {
        if i < ids.len() {
            assert(ids.push(x)[i] == ids[i]);
        } else {
            assert(ids.push(x)[i] == x);
        }
    }
}

proof fn lemma_contains_push_other_general(ids: Seq<Seq<char>>, x: Seq<char>, y: Seq<char>)
    ensures
        y != x ==> ids.push(x).contains(y) == ids.contains(y),
        ids.push(x).contains(x),
{
    assert(ids.push(x)[ids.len() as int] == x);
    if y != x {
        if ids.push(x).contains(y) {
            let j = choose|j: int| 0 <= j < ids.push(x).len() && ids.push(x)[j] == y;
            if j < ids.len() {
                assert(ids[j] == y);
            } else {
                assert(ids.push(x)[j] == x);
            }
        }
        if ids.contains(y) {
            let j = choose|j: int| 0 <= j < ids.len() && ids[j] == y;
            assert(ids.push(x)[j] == y);
        }
    }
}

proof fn lemma_master_not_worker()
    ensures
        !is_worker_id("master"@),
{
    reveal_strlit("master");
    reveal_strlit("worker");
    assert("master"@.len() == 6);
    assert("worker"@.len() == 6);
    assert("master"@.take(6)[0] == 'm');
    assert("worker"@[0] == 'w');
}

proof fn lemma_workers_below_widen(ids: Seq<Seq<char>>, b1: u64, b2: u64)
    requires
        workers_below(ids, b1),
        b1 <= b2,
    ensures
        workers_below(ids, b2),
{
    assert forall|i: int|
        0 <= i < ids.len() && is_worker_id(#[trigger] ids[i]) implies exists|n: u64|
        n < b2 && ids[i] == worker_name(n) by {
        let n = choose|n: u64| n < b1 && ids[i] == worker_name(n);
        assert(n < b2 && ids[i] == worker_name(n));
    }
}

proof fn lemma_fresh_not_contained(ids: Seq<Seq<char>>, next: u64)
    requires
        workers_below(ids, next),
    ensures
        !ids.contains(worker_name(next)),
{
    if ids.contains(worker_name(next)) {
        let j = choose|j: int| 0 <= j < ids.len() && ids[j] == worker_name(next);
        lemma_worker_name_is_worker(next);
        assert(is_worker_id(ids[j]));
        let n = choose|n: u64| n < next && ids[j] == worker_name(n);
        lemma_worker_name_injective(n, next);
    }
}

proof fn lemma_take_workers_unfold(ids: Seq<Seq<char>>, i: int, m: nat)
    requires
        0 <= i < ids.len(),
    ensures
        m == 0 ==> take_workers(ids.skip(i), m) == Seq::<Seq<char>>::empty(),
        m > 0 && is_worker_id(ids[i]) ==> take_workers(ids.skip(i), m) == seq![ids[i]]
            + take_workers(ids.skip(i + 1), (m - 1) as nat),
        m > 0 && !is_worker_id(ids[i]) ==> take_workers(ids.skip(i), m) == take_workers(
            ids.skip(i + 1),
            m,
        ),
{
    assert(ids.skip(i).len() == ids.len() - i);
    assert(ids.skip(i)[0] == ids[i]);
    assert(ids.skip(i).drop_first() =~= ids.skip(i + 1));
}

proof fn lemma_unique_push(ids: Seq<Seq<char>>, x: Seq<char>)
    requires
        unique(ids),
        !ids.contains(x),
    ensures
        unique(ids.push(x)),
{
    assert forall|p: int, q: int|
        0 <= p < q < ids.push(x).len() implies ids.push(x)[p] != ids.push(x)[q] by {
        if q == ids.len() {
            assert(ids.push(x)[q] == x);
            assert(ids.push(x)[p] == ids[p]);
            assert(ids.contains(ids[p]));
        }
    }
}

fn worker_name_exec(n: u64) -> (r: String)
    ensures
        r@ == worker_name(n),
{
    let mut r = String::from_str("worker");
    let d = crate::strutil::u64_to_dec(n);
    r.append(d.as_str());
    r
}

fn clone_string(s: &String) -> (r: String)
    ensures
        r@ == s@,
{
    let r: String = s.clone();
    r
}

} // verus!
