//! Collection of processes: creation, identifiers, host functions, and the interleaving of
//! their threads.

use crate::id_pool::IdPool;
use crate::interface::{interface_of_module_name, InterfaceId, InterfaceKey};
use crate::signature::{signature_matches, value_fits, EngineSignature, Signature, ValueType, WasmValue};
use crate::engine::ExportKind;
use crate::vm::{
    exports_check, import_accepted, import_refusable, resolver_index, memory_written, ExportsCheck, InstantiationError, MAIN_EXPORT, MEMORY_EXPORT, outcome_of, resume_refused, Step, ExecError, ExecOutcome, NewErr, Phase,
    ProcessStateMachine, StartErr, WasmModule,
};
use vstd::prelude::*;

verus! {

/// Identifier of a process.
pub type Pid = u64;

/// Identifier of a thread, unique within a collection whatever the process.
pub type ThreadId = u64;

/// Every pair of distinct positions of `s` holds distinct values.
pub open spec fn distinct2(s: Seq<Seq<u64>>) -> bool {
    forall|k1: int, j1: int, k2: int, j2: int|
        0 <= k1 < s.len() && 0 <= j1 < s[k1].len() && 0 <= k2 < s.len() && 0 <= j2 < s[k2].len()
            && (k1 != k2 || j1 != j2) ==> #[trigger] s[k1][j1] != #[trigger] s[k2][j2]
}

/// Every value of `s` lies in `[1, bound)`.
pub open spec fn all_below(s: Seq<Seq<u64>>, bound: nat) -> bool {
    forall|k: int, j: int| 0 <= k < s.len() && 0 <= j < s[k].len() ==> 1 <= #[trigger] s[k][j] < bound
}

/// Every value of `s` lies in `[1, bound)`, and no two positions hold the same one.
pub open spec fn ids_ok(s: Seq<u64>, bound: nat) -> bool {
    &&& forall|k: int| 0 <= k < s.len() ==> 1 <= #[trigger] s[k] < bound
    &&& forall|k1: int, k2: int|
        0 <= k1 < s.len() && 0 <= k2 < s.len() && k1 != k2 ==> #[trigger] s[k1] != #[trigger] s[k2]
}

proof fn lemma_ids_remove(s: Seq<u64>, bound: nat, k: int)
    requires
        ids_ok(s, bound),
        0 <= k < s.len(),
    ensures
        ids_ok(s.remove(k), bound),
{
    let r = s.remove(k);
    assert forall|a: int| 0 <= a < r.len() implies 1 <= #[trigger] r[a] < bound by {
        if a < k {
            assert(r[a] == s[a]);
        } else {
            assert(r[a] == s[a + 1]);
        }
    }
    assert forall|a: int, b: int| 0 <= a < r.len() && 0 <= b < r.len() && a != b implies #[trigger] r[a]
        != #[trigger] r[b] by {
        let oa = if a < k { a } else { a + 1 };
        let ob = if b < k { b } else { b + 1 };
        assert(r[a] == s[oa]);
        assert(r[b] == s[ob]);
    }
}

proof fn lemma_ids_push(s: Seq<u64>, bound: nat, id: u64)
    requires
        ids_ok(s, bound),
        1 <= id,
        id == bound,
    ensures
        ids_ok(s.push(id), bound + 1),
{
    let r = s.push(id);
    assert forall|a: int, b: int| 0 <= a < r.len() && 0 <= b < r.len() && a != b implies #[trigger] r[a]
        != #[trigger] r[b] by {
        if a < s.len() && b < s.len() {
            assert(r[a] == s[a]);
            assert(r[b] == s[b]);
        } else if a < s.len() {
            assert(r[a] == s[a]);
        } else if b < s.len() {
            assert(r[b] == s[b]);
        }
    }
}

proof fn lemma_removed_absent(s: Seq<u64>, bound: nat, k: int)
    requires
        ids_ok(s, bound),
        0 <= k < s.len(),
    ensures
        !s.remove(k).contains(s[k]),
{
    let r = s.remove(k);
    assert forall|a: int| 0 <= a < r.len() implies r[a] != s[k] by {
        if a < k {
            assert(r[a] == s[a]);
        } else {
            assert(r[a] == s[a + 1]);
        }
    }
}

proof fn lemma_removed_inner_absent(s: Seq<Seq<u64>>, k: int, j: int)
    requires
        distinct2(s),
        0 <= k < s.len(),
        0 <= j < s[k].len(),
    ensures
        !has_thread_id(s.update(k, s[k].remove(j)), s[k][j]),
{
    let r = s.update(k, s[k].remove(j));
    assert forall|a: int, b: int| 0 <= a < r.len() && 0 <= b < r[a].len() implies r[a][b] != s[k][j] by {
        if a == k {
            let ob = if b < j { b } else { b + 1 };
            assert(r[a][b] == s[k][ob]);
        } else {
            assert(r[a] == s[a]);
        }
    }
}

proof fn lemma_remove_outer(s: Seq<Seq<u64>>, bound: nat, k: int)
    requires
        distinct2(s),
        all_below(s, bound),
        0 <= k < s.len(),
    ensures
        distinct2(s.remove(k)),
        all_below(s.remove(k), bound),
{
    let r = s.remove(k);
    assert forall|a: int, j: int| 0 <= a < r.len() && 0 <= j < r[a].len() implies 1 <= #[trigger] r[a][j]
        < bound by {
        let oa = if a < k { a } else { a + 1 };
        assert(r[a] == s[oa]);
    }
    assert forall|k1: int, j1: int, k2: int, j2: int|
        0 <= k1 < r.len() && 0 <= j1 < r[k1].len() && 0 <= k2 < r.len() && 0 <= j2 < r[k2].len() && (k1
            != k2 || j1 != j2) implies #[trigger] r[k1][j1] != #[trigger] r[k2][j2] by {
        let o1 = if k1 < k { k1 } else { k1 + 1 };
        let o2 = if k2 < k { k2 } else { k2 + 1 };
        assert(r[k1] == s[o1]);
        assert(r[k2] == s[o2]);
        assert(s[o1][j1] != s[o2][j2]);
    }
}

proof fn lemma_remove_inner(s: Seq<Seq<u64>>, bound: nat, k: int, j: int)
    requires
        distinct2(s),
        all_below(s, bound),
        0 <= k < s.len(),
        0 <= j < s[k].len(),
    ensures
        distinct2(s.update(k, s[k].remove(j))),
        all_below(s.update(k, s[k].remove(j)), bound),
{
    let r = s.update(k, s[k].remove(j));
    assert forall|a: int, b: int| 0 <= a < r.len() && 0 <= b < r[a].len() implies 1 <= #[trigger] r[a][b]
        < bound by {
        if a == k {
            let ob = if b < j { b } else { b + 1 };
            assert(r[a][b] == s[a][ob]);
        } else {
            assert(r[a] == s[a]);
        }
    }
    assert forall|k1: int, j1: int, k2: int, j2: int|
        0 <= k1 < r.len() && 0 <= j1 < r[k1].len() && 0 <= k2 < r.len() && 0 <= j2 < r[k2].len() && (k1
            != k2 || j1 != j2) implies #[trigger] r[k1][j1] != #[trigger] r[k2][j2] by {
        let o1 = if k1 == k && j1 >= j { j1 + 1 } else { j1 };
        let o2 = if k2 == k && j2 >= j { j2 + 1 } else { j2 };
        assert(r[k1][j1] == s[k1][o1]);
        assert(r[k2][j2] == s[k2][o2]);
        assert(s[k1][o1] != s[k2][o2]);
    }
}

proof fn lemma_push_inner(s: Seq<Seq<u64>>, bound: nat, k: int, id: u64)
    requires
        distinct2(s),
        all_below(s, bound),
        0 <= k < s.len(),
        1 <= id,
        id == bound,
    ensures
        distinct2(s.update(k, s[k].push(id))),
        all_below(s.update(k, s[k].push(id)), bound + 1),
{
    let r = s.update(k, s[k].push(id));
    assert forall|a: int, b: int| 0 <= a < r.len() && 0 <= b < r[a].len() implies 1 <= #[trigger] r[a][b]
        < bound + 1 by {
        if a == k && b < s[k].len() {
            assert(r[a][b] == s[a][b]);
        } else if a != k {
            assert(r[a] == s[a]);
        }
    }
    assert forall|k1: int, j1: int, k2: int, j2: int|
        0 <= k1 < r.len() && 0 <= j1 < r[k1].len() && 0 <= k2 < r.len() && 0 <= j2 < r[k2].len() && (k1
            != k2 || j1 != j2) implies #[trigger] r[k1][j1] != #[trigger] r[k2][j2] by {
        let new1 = k1 == k && j1 == s[k].len();
        let new2 = k2 == k && j2 == s[k].len();
        if !new1 {
            assert(r[k1][j1] == s[k1][j1]);
        }
        if !new2 {
            assert(r[k2][j2] == s[k2][j2]);
        }
    }
}

proof fn lemma_push_outer(s: Seq<Seq<u64>>, bound: nat, t: Seq<u64>, id: u64)
    requires
        distinct2(s),
        all_below(s, bound),
        t.len() <= 1,
        forall|j: int| 0 <= j < t.len() ==> t[j] == id,
        1 <= id,
        id < bound,
        forall|k: int, j: int| 0 <= k < s.len() && 0 <= j < s[k].len() ==> s[k][j] != id,
    ensures
        distinct2(s.push(t)),
        all_below(s.push(t), bound),
{
    let r = s.push(t);
    assert forall|a: int, b: int| 0 <= a < r.len() && 0 <= b < r[a].len() implies 1 <= #[trigger] r[a][b]
        < bound by {
        if a < s.len() {
            assert(r[a] == s[a]);
        }
    }
    assert forall|k1: int, j1: int, k2: int, j2: int|
        0 <= k1 < r.len() && 0 <= j1 < r[k1].len() && 0 <= k2 < r.len() && 0 <= j2 < r[k2].len() && (k1
            != k2 || j1 != j2) implies #[trigger] r[k1][j1] != #[trigger] r[k2][j2] by {
        if k1 < s.len() {
            assert(r[k1] == s[k1]);
        }
        if k2 < s.len() {
            assert(r[k2] == s[k2]);
        }
    }
}

/// How many steps after `start` the position `k` comes, going round `n` positions.
pub open spec fn cyclic_offset(start: int, k: int, n: int) -> int {
    if k >= start {
        k - start
    } else {
        k + n - start
    }
}

/// Going round the processes from position `start`, the one at `k` is the first with a ready
/// thread, and `j` is its first ready thread.
pub open spec fn first_ready_from(readiness: Seq<Seq<bool>>, start: int, k: int, j: int) -> bool {
    let n = readiness.len() as int;
    &&& 0 <= k < n
    &&& 0 <= j < readiness[k].len()
    &&& readiness[k][j]
    &&& forall|b: int| 0 <= b < j ==> !readiness[k][b]
    &&& forall|q: int, b: int|
        0 <= q < n && 0 <= b < readiness[q].len() && cyclic_offset(start % n, q, n) < cyclic_offset(
            start % n,
            k,
            n,
        ) ==> !#[trigger] readiness[q][b]
}

/// No process waits for ever: when `run` picks the process at `k`, any other process with a
/// ready thread comes closer to the position where the next search starts.
pub proof fn lemma_no_starvation(readiness: Seq<Seq<bool>>, start: int, k: int, j: int, p: int, b: int)
    requires
        0 <= start,
        first_ready_from(readiness, start, k, j),
        0 <= p < readiness.len(),
        0 <= b < readiness[p].len(),
        readiness[p][b],
        p != k,
    ensures
        cyclic_offset((k + 1) % (readiness.len() as int), p, readiness.len() as int) < cyclic_offset(
            start % (readiness.len() as int),
            p,
            readiness.len() as int,
        ),
{
    let n = readiness.len() as int;
    let s = start % n;
    assert(0 <= s < n);
    assert(!(cyclic_offset(s, p, n) < cyclic_offset(s, k, n)));
    if k + 1 < n {
        vstd::arithmetic::div_mod::lemma_small_mod((k + 1) as nat, n as nat);
    } else {
        vstd::arithmetic::div_mod::lemma_mod_self_0(n);
    }
}

/// Data that the collection keeps for each thread.
struct Thread<TTud> {
    user_data: TTud,
    thread_id: ThreadId,
    /// If `Some`, the thread is ready to run and the inner value is handed to it as the result
    /// of its last host call. If `None`, the thread waits for `resume`.
    value_back: Option<Option<WasmValue>>,
}

/// Mutable access to the user data of a thread, leaving its other fields as they are.
fn user_data_of<TTud>(t: &mut Thread<TTud>) -> (r: &mut TTud)
    ensures
        *r == old(t).user_data,
        *final(t) == (Thread {
            user_data: *final(r),
            thread_id: old(t).thread_id,
            value_back: old(t).value_back,
        }),
{
    &mut t.user_data
}

/// A process of the collection.
struct Process<TPud, TTud> {
    pid: Pid,
    state_machine: ProcessStateMachine<Thread<TTud>>,
    user_data: TPud,
}

/// The value that the thread at `j` holds to be handed back fits what it expects.
spec fn thread_ok<TTud>(sm: ProcessStateMachine<Thread<TTud>>, j: int) -> bool {
    let t = sm.user_datas()[j];
    &&& sm.phases()[j] != Phase::Running
    &&& sm.phases()[j] == Phase::NotYetStarted ==> t.value_back == Some(None::<WasmValue>)
    &&& sm.phases()[j] == Phase::Paused ==> (t.value_back matches Some(v) ==> value_fits(
        sm.expected_results(j),
        v,
    ))
}

spec fn process_ok<TPud, TTud>(p: Process<TPud, TTud>) -> bool {
    &&& p.state_machine.wf()
    &&& !p.state_machine.poisoned()
    &&& forall|j: int| 0 <= j < p.state_machine.user_datas().len() ==> #[trigger] thread_ok(p.state_machine, j)
}

/// Every host function the state machine can call has a number below `bound`.
spec fn host_ids_below<TTud>(sm: ProcessStateMachine<Thread<TTud>>, bound: nat) -> bool {
    forall|i: int| 0 <= i < sm.host_ids().len() ==> #[trigger] sm.host_ids()[i] < bound
}

spec fn thread_ids_of<TTud>(sm: ProcessStateMachine<Thread<TTud>>) -> Seq<ThreadId> {
    sm.user_datas().map_values(|t: Thread<TTud>| t.thread_id)
}

spec fn readiness_of<TTud>(sm: ProcessStateMachine<Thread<TTud>>) -> Seq<bool> {
    sm.user_datas().map_values(|t: Thread<TTud>| t.value_back is Some)
}

/// The processes of a collection and the pools that their identifiers come from.
pub struct ProcessTable<TPud, TTud> {
    pid_pool: IdPool,
    tid_pool: IdPool,
    processes: Vec<Process<TPud, TTud>>,
    /// Number of registered host functions; every process calls host functions below it.
    host_count: usize,
}

/// What running one thread did.
enum CoreStep<TPud, TTud> {
    ProcessFinished {
        pid: Pid,
        user_data: TPud,
        dead_threads: Vec<(ThreadId, TTud)>,
        outcome: Result<Option<WasmValue>, ExecError>,
    },
    ThreadFinished { thread_id: ThreadId, user_data: TTud, value: Option<WasmValue> },
    Interrupted { id: usize, params: Vec<WasmValue> },
}

/// Identifier and user data of each thread.
fn dead_threads_of<TTud>(threads: Vec<Thread<TTud>>) -> (r: Vec<(ThreadId, TTud)>)
    ensures
        r@.len() == threads@.len(),
        forall|i: int| 0 <= i < r@.len() ==> #[trigger] r@[i].0 == threads@[i].thread_id,
        forall|i: int| 0 <= i < r@.len() ==> #[trigger] r@[i].1 == threads@[i].user_data,
{
    let mut threads = threads;
    let ghost all = threads@;
    let mut out: Vec<(ThreadId, TTud)> = Vec::new();
    while threads.len() > 0
        invariant
            out@.len() + threads@.len() == all.len(),
            forall|i: int| 0 <= i < out@.len() ==> #[trigger] out@[i].0 == all[i].thread_id,
            forall|i: int| 0 <= i < out@.len() ==> #[trigger] out@[i].1 == all[i].user_data,
            forall|i: int| 0 <= i < threads@.len() ==> #[trigger] threads@[i] == all[out@.len() + i],
        decreases threads.len(),
    {
        let t = threads.remove(0);
        out.push((t.thread_id, t.user_data));
    }
    out
}

/// What a step of the thread at position `j` of a process gives in the collection: the first thread
/// returning ends the process with its value, another thread returning ends that thread, a host
/// call interrupts the thread, and an abnormal stop ends the process with the error.
spec fn core_step_matches<TPud, TTud>(step: Step, j: int, r: CoreStep<TPud, TTud>) -> bool {
    match step {
        Step::Finished(v) => if j == 0 {
            (r matches CoreStep::ProcessFinished { outcome, .. } && outcome == Ok::<Option<WasmValue>, ExecError>(v))
        } else {
            (r matches CoreStep::ThreadFinished { value, .. } && value == v)
        },
        Step::Interrupted { id, params, .. } => (r matches CoreStep::Interrupted { id: i, params: p } && i == id
            && p == params),
        Step::Errored(e) => (r matches CoreStep::ProcessFinished { outcome, .. } && outcome == Err::<
            Option<WasmValue>,
            ExecError,
        >(e)),
    }
}

/// Removing the process at `k` removes its entry from each view of the table.
proof fn lemma_remove_views<TPud, TTud>(a: &ProcessTable<TPud, TTud>, b: &ProcessTable<TPud, TTud>, k: int)
    requires
        0 <= k < a.processes@.len(),
        b.processes@ == a.processes@.remove(k),
    ensures
        b.readiness() == a.readiness().remove(k),
        b.pendings() == a.pendings().remove(k),
        b.puds() == a.puds().remove(k),
        b.tuds() == a.tuds().remove(k),
        b.memories() == a.memories().remove(k),
{
    assert(b.readiness() =~= a.readiness().remove(k));
    assert(b.pendings() =~= a.pendings().remove(k));
    assert(b.puds() =~= a.puds().remove(k));
    assert(b.tuds() =~= a.tuds().remove(k));
    assert(b.memories() =~= a.memories().remove(k));
}

/// When one process changes but keeps its host function numbers, every process still calls
/// only registered host functions.
proof fn lemma_hosts_kept<TPud, TTud>(a: &ProcessTable<TPud, TTud>, b: &ProcessTable<TPud, TTud>, k: int)
    requires
        a.wf(),
        0 <= k < a.processes@.len(),
        b.processes@.len() == a.processes@.len(),
        b.host_count == a.host_count,
        b.processes@[k].state_machine.host_ids() == a.processes@[k].state_machine.host_ids(),
        forall|i: int| 0 <= i < a.processes@.len() && i != k ==> b.processes@[i] == a.processes@[i],
    ensures
        forall|i: int|
            0 <= i < b.processes@.len() ==> #[trigger] host_ids_below(
                b.processes@[i].state_machine,
                b.host_count as nat,
            ),
{
    assert forall|i: int| 0 <= i < b.processes@.len() implies #[trigger] host_ids_below(
        b.processes@[i].state_machine,
        b.host_count as nat,
    ) by {
        assert(host_ids_below(a.processes@[i].state_machine, a.host_count as nat));
    }
}

impl<TPud, TTud> ProcessTable<TPud, TTud> {
    /// The identifier that the next process gets.
    pub closed spec fn next_pid(&self) -> nat {
        self.pid_pool.next_id()
    }

    /// Number of registered host functions.
    pub closed spec fn host_count(&self) -> nat {
        self.host_count as nat
    }

    /// The identifier that the next thread gets.
    pub closed spec fn next_tid(&self) -> nat {
        self.tid_pool.next_id()
    }

    /// For each thread, the value it holds to run with.
    pub closed spec fn pendings(&self) -> Seq<Seq<Option<Option<WasmValue>>>> {
        self.processes@.map_values(
            |p: Process<TPud, TTud>|
                p.state_machine.user_datas().map_values(|t: Thread<TTud>| t.value_back),
        )
    }

    /// Bytes of the memory of each process.
    pub closed spec fn memories(&self) -> Seq<Seq<u8>> {
        self.processes@.map_values(|p: Process<TPud, TTud>| p.state_machine.memory())
    }

    pub closed spec fn pids(&self) -> Seq<Pid> {
        self.processes@.map_values(|p: Process<TPud, TTud>| p.pid)
    }

    pub closed spec fn tids(&self) -> Seq<Seq<ThreadId>> {
        self.processes@.map_values(|p: Process<TPud, TTud>| thread_ids_of(p.state_machine))
    }

    pub closed spec fn readiness(&self) -> Seq<Seq<bool>> {
        self.processes@.map_values(|p: Process<TPud, TTud>| readiness_of(p.state_machine))
    }

    pub closed spec fn puds(&self) -> Seq<TPud> {
        self.processes@.map_values(|p: Process<TPud, TTud>| p.user_data)
    }

    pub closed spec fn tuds(&self) -> Seq<Seq<TTud>> {
        self.processes@.map_values(
            |p: Process<TPud, TTud>| p.state_machine.user_datas().map_values(|t: Thread<TTud>| t.user_data),
        )
    }

    pub closed spec fn pending(&self, k: int, j: int) -> Option<Option<WasmValue>> {
        self.processes@[k].state_machine.user_datas()[j].value_back
    }

    pub closed spec fn ready(&self, k: int, j: int) -> bool {
        self.processes@[k].state_machine.user_datas()[j].value_back is Some
    }

    pub closed spec fn valid(&self, k: int, j: int) -> bool {
        0 <= k < self.processes@.len() && 0 <= j < self.processes@[k].state_machine.user_datas().len()
    }

    /// The invariant of the collection, except that the process at `x` may have any state.
    pub closed spec fn wf_except(&self, x: int) -> bool {
        &&& self.pid_pool.wf()
        &&& self.tid_pool.wf()
        &&& ids_ok(self.pids(), self.pid_pool.next_id())
        &&& distinct2(self.tids())
        &&& all_below(self.tids(), self.tid_pool.next_id())
        &&& forall|k: int| 0 <= k < self.processes@.len() && k != x ==> #[trigger] process_ok(self.processes@[k])
        &&& forall|k: int|
            0 <= k < self.processes@.len() && k != x ==> #[trigger] host_ids_below(
                self.processes@[k].state_machine,
                self.host_count as nat,
            )
    }

    pub closed spec fn wf(&self) -> bool {
        self.wf_except(-1)
    }

    proof fn lemma_views(&self)
        ensures
            self.pids().len() == self.processes@.len(),
            self.tids().len() == self.processes@.len(),
            self.readiness().len() == self.processes@.len(),
            self.tuds().len() == self.processes@.len(),
            self.puds().len() == self.processes@.len(),
            self.pendings().len() == self.processes@.len(),
            forall|k: int| 0 <= k < self.processes@.len() ==> #[trigger] self.puds()[k] == self.processes@[k].user_data,
            forall|k: int|
                #![trigger self.processes@[k]]
                0 <= k < self.processes@.len() ==> {
                    &&& self.pids()[k] == self.processes@[k].pid
                    &&& self.tids()[k].len() == self.processes@[k].state_machine.user_datas().len()
                    &&& self.readiness()[k].len() == self.processes@[k].state_machine.user_datas().len()
                    &&& forall|j: int|
                        0 <= j < self.processes@[k].state_machine.user_datas().len()
                            ==> #[trigger] self.tids()[k][j]
                            == self.processes@[k].state_machine.user_datas()[j].thread_id
                    &&& forall|j: int|
                        0 <= j < self.processes@[k].state_machine.user_datas().len()
                            ==> #[trigger] self.readiness()[k][j] == self.ready(k, j)
                    &&& self.pendings()[k].len() == self.processes@[k].state_machine.user_datas().len()
                    &&& forall|j: int|
                        0 <= j < self.processes@[k].state_machine.user_datas().len()
                            ==> #[trigger] self.pendings()[k][j]
                            == self.processes@[k].state_machine.user_datas()[j].value_back
                    &&& self.tuds()[k].len() == self.processes@[k].state_machine.user_datas().len()
                    &&& forall|j: int|
                        0 <= j < self.processes@[k].state_machine.user_datas().len()
                            ==> #[trigger] self.tuds()[k][j]
                            == self.processes@[k].state_machine.user_datas()[j].user_data
                },
    {
    }

    fn new(pid_pool: IdPool, host_count: usize) -> (r: ProcessTable<TPud, TTud>)
        requires
            pid_pool.wf(),
        ensures
            r.wf(),
            r.processes@.len() == 0,
            r.pid_pool == pid_pool,
            r.tid_pool.next_id() == 1,
            r.host_count() == host_count,
    {
        let r = ProcessTable { pid_pool, tid_pool: IdPool::new(), processes: Vec::new(), host_count };
        proof {
            r.lemma_views();
        }
        r
    }

    /// Hands out a thread identifier that no thread has.
    fn assign_tid(&mut self) -> (id: ThreadId)
        requires
            old(self).wf(),
            old(self).tid_pool.can_assign(),
        ensures
            final(self).host_count() == old(self).host_count(),
            final(self).wf(),
            final(self).processes == old(self).processes,
            final(self).pid_pool == old(self).pid_pool,
            id as nat == old(self).tid_pool.next_id(),
            id >= 1,
            final(self).tid_pool.next_id() == old(self).tid_pool.next_id() + 1,
    {
        proof {
            self.lemma_views();
        }
        let id = self.tid_pool.assign();
        proof {
            self.lemma_views();
        }
        id
    }

    /// Finds a ready thread, looking at the processes from position `start` on, then from the
    /// first one.
    fn find_ready(&self, start: usize) -> (r: Option<(usize, usize)>)
        requires
            self.wf(),
        ensures
            r matches Some((k, j)) ==> self.valid(k as int, j as int) && self.ready(k as int, j as int)
                && first_ready_from(self.readiness(), start as int, k as int, j as int),
            r is None ==> forall|k: int, j: int| self.valid(k, j) ==> !self.ready(k, j),
    {
        proof {
            self.lemma_views();
        }
        let n = self.processes.len();
        if n == 0 {
            return None;
        }
        let first: usize = start % n;
        let mut i: usize = 0;
        while i < n
            invariant
                n == self.processes@.len(),
                0 <= first < n,
                0 <= i <= n,
                first == start as int % n as int,
                forall|k: int, j: int|
                    #![trigger self.ready(k, j)]
                    self.valid(k, j) && cyclic_offset(first as int, k, n as int) < i ==> !self.ready(k, j),
            decreases n - i,
        {
            let k: usize = if i < n - first {
                first + i
            } else {
                i - (n - first)
            };
            let sm = &self.processes[k].state_machine;
            let count = sm.num_threads();
            let mut j: usize = 0;
            while j < count
                invariant
                    n == self.processes@.len(),
                    0 <= k < n,
                    *sm == self.processes@[k as int].state_machine,
                    count == sm.user_datas().len(),
                    0 <= j <= count,
                    forall|b: int| 0 <= b < j ==> !self.ready(k as int, b),
                    0 <= first < n,
                    first == start as int % n as int,
                    cyclic_offset(first as int, k as int, n as int) == i,
                    forall|q: int, b: int|
                        #![trigger self.ready(q, b)]
                        self.valid(q, b) && cyclic_offset(first as int, q, n as int) < i ==> !self.ready(q, b),
                decreases count - j,
            {
                if sm.thread_user_data(j).value_back.is_some() {
                    proof {
                        self.lemma_views();
                        assert(cyclic_offset(first as int, k as int, n as int) == i);
                        let rd = self.readiness();
                        assert forall|q: int, b: int|
                            0 <= q < n && 0 <= b < rd[q].len() && cyclic_offset(start as int % n as int, q, n as int)
                                < cyclic_offset(start as int % n as int, k as int, n as int) implies !#[trigger] rd[q][b] by {
                            assert(self.valid(q, b));
                        }
                    }
                    return Some((k, j));
                }
                j = j + 1;
            }
            assert(cyclic_offset(first as int, k as int, n as int) == i);
            i = i + 1;
        }
        None
    }

    /// Adds a process whose threads all carry the identifier `tid`, which no thread has.
    fn insert_process(
        &mut self,
        state_machine: ProcessStateMachine<Thread<TTud>>,
        user_data: TPud,
        tid: ThreadId,
    ) -> (k: usize)
        requires
            old(self).wf(),
            old(self).pid_pool.can_assign(),
            process_ok(Process { pid: 0, state_machine, user_data }),
            host_ids_below(state_machine, old(self).host_count as nat),
            state_machine.user_datas().len() <= 1,
            forall|j: int|
                0 <= j < state_machine.user_datas().len() ==> state_machine.user_datas()[j].thread_id
                    == tid,
            1 <= tid < old(self).tid_pool.next_id(),
            forall|a: int, b: int|
                0 <= a < old(self).tids().len() && 0 <= b < old(self).tids()[a].len()
                    ==> old(self).tids()[a][b] != tid,
        ensures
            final(self).wf(),
            k == old(self).processes@.len(),
            final(self).pids() == old(self).pids().push(old(self).pid_pool.next_id() as Pid),
            final(self).tids() == old(self).tids().push(thread_ids_of(state_machine)),
            final(self).readiness() == old(self).readiness().push(readiness_of(state_machine)),
            final(self).puds() == old(self).puds().push(user_data),
            final(self).tuds() == old(self).tuds().push(
                state_machine.user_datas().map_values(|t: Thread<TTud>| t.user_data),
            ),
            final(self).pid_pool.next_id() == old(self).pid_pool.next_id() + 1,
            final(self).tid_pool == old(self).tid_pool,
            final(self).host_count() == old(self).host_count(),
    {
        proof {
            self.lemma_views();
        }
        let pid = self.pid_pool.assign();
        let k = self.processes.len();
        let ghost before = self.processes@;
        let process = Process { pid, state_machine, user_data };
        self.processes.push(process);
        proof {
            self.lemma_views();
            old(self).lemma_views();
            assert(self.processes@ == before.push(process));
            assert(self.pids() =~= old(self).pids().push(pid));
            assert(self.tids() =~= old(self).tids().push(thread_ids_of(state_machine)));
            assert(self.readiness() =~= old(self).readiness().push(readiness_of(state_machine)));
            assert(self.puds() =~= old(self).puds().push(user_data));
            assert(self.tuds() =~= old(self).tuds().push(
                state_machine.user_datas().map_values(|t: Thread<TTud>| t.user_data),
            ));
            lemma_ids_push(old(self).pids(), old(self).pid_pool.next_id(), pid);
            lemma_push_outer(
                old(self).tids(),
                self.tid_pool.next_id(),
                thread_ids_of(state_machine),
                tid,
            );
            assert(process_ok(self.processes@[k as int]));
        }
        k
    }

    /// Removes the process at `k`, whose state may be anything.
    fn take_process(&mut self, k: usize) -> (p: Process<TPud, TTud>)
        requires
            old(self).wf_except(k as int),
            k < old(self).processes@.len(),
        ensures
            final(self).host_count() == old(self).host_count(),
            final(self).wf(),
            p == old(self).processes@[k as int],
            final(self).processes@ == old(self).processes@.remove(k as int),
            final(self).pids() == old(self).pids().remove(k as int),
            final(self).tids() == old(self).tids().remove(k as int),
            final(self).readiness() == old(self).readiness().remove(k as int),
            final(self).pendings() == old(self).pendings().remove(k as int),
            final(self).puds() == old(self).puds().remove(k as int),
            final(self).tuds() == old(self).tuds().remove(k as int),
            final(self).memories() == old(self).memories().remove(k as int),
            final(self).pid_pool == old(self).pid_pool,
            final(self).tid_pool == old(self).tid_pool,
    {
        proof {
            self.lemma_views();
        }
        let p = self.processes.remove(k);
        proof {
            lemma_remove_views(old(self), self, k as int);
        }
        proof {
            self.lemma_views();
            old(self).lemma_views();
            assert(self.pids() =~= old(self).pids().remove(k as int));
            assert(self.tids() =~= old(self).tids().remove(k as int));
            assert(self.readiness() =~= old(self).readiness().remove(k as int));
            lemma_ids_remove(old(self).pids(), self.pid_pool.next_id(), k as int);
            lemma_remove_outer(old(self).tids(), self.tid_pool.next_id(), k as int);
            assert forall|a: int| 0 <= a < self.processes@.len() implies #[trigger] process_ok(
                self.processes@[a],
            ) by {
                if a < k {
                    assert(self.processes@[a] == old(self).processes@[a]);
                } else {
                    assert(self.processes@[a] == old(self).processes@[a + 1]);
                }
            }
        }
        p
    }

    /// Runs the ready thread at `(k, j)` until it returns, calls a host function, or traps.
    ///
    /// The process goes when its first thread returns or when any of its threads traps.
    fn run_thread(&mut self, k: usize, j: usize) -> (r: CoreStep<TPud, TTud>)
        requires
            old(self).wf(),
            old(self).valid(k as int, j as int),
            old(self).ready(k as int, j as int),
        ensures
            final(self).host_count() == old(self).host_count(),
            final(self).wf(),
            final(self).pid_pool == old(self).pid_pool,
            final(self).tid_pool == old(self).tid_pool,
            exists|step: Step| #[trigger] core_step_matches(step, j as int, r),
            r matches CoreStep::Interrupted { id, .. } ==> id < old(self).host_count(),
            r matches CoreStep::ProcessFinished { pid, dead_threads, .. } ==> {
                &&& pid == old(self).pids()[k as int]
                &&& final(self).pids() == old(self).pids().remove(k as int)
                &&& final(self).tids() == old(self).tids().remove(k as int)
                &&& final(self).readiness() == old(self).readiness().remove(k as int)
                &&& dead_threads@.map_values(|d: (ThreadId, TTud)| d.0) == old(self).tids()[k as int]
            },
            r matches CoreStep::ProcessFinished { user_data, dead_threads, .. } ==> {
                &&& user_data == old(self).processes@[k as int].user_data
                &&& dead_threads@.map_values(|d: (ThreadId, TTud)| d.1) == old(self).tuds()[k as int]
            },
            r matches CoreStep::ThreadFinished { user_data, .. } ==> user_data == old(self).tuds()[k as int][j as int]
                && final(self).puds() == old(self).puds(),
            r is Interrupted ==> final(self).puds() == old(self).puds() && final(self).tuds() == old(self).tuds(),
            r is ProcessFinished ==> final(self).processes@ == old(self).processes@.remove(k as int),
            r is ProcessFinished ==> {
                &&& final(self).readiness() == old(self).readiness().remove(k as int)
                &&& final(self).pendings() == old(self).pendings().remove(k as int)
                &&& final(self).puds() == old(self).puds().remove(k as int)
                &&& final(self).tuds() == old(self).tuds().remove(k as int)
            },
            r is Interrupted ==> forall|a: int| 0 <= a < old(self).processes@.len() && a != k ==> #[trigger] final(self).processes@[a] == old(self).processes@[a],
            r is ThreadFinished ==> forall|a: int| 0 <= a < old(self).processes@.len() && a != k ==> #[trigger] final(self).processes@[a] == old(self).processes@[a],
            r is ThreadFinished ==> final(self).tuds() == old(self).tuds().update(
                k as int,
                old(self).tuds()[k as int].remove(j as int),
            ) && final(self).pendings() == old(self).pendings().update(
                k as int,
                old(self).pendings()[k as int].remove(j as int),
            ),
            r is Interrupted ==> final(self).pendings() == old(self).pendings().update(
                k as int,
                old(self).pendings()[k as int].update(j as int, None),
            ),
            r matches CoreStep::ThreadFinished { thread_id, .. } ==> {
                &&& j != 0
                &&& thread_id == old(self).tids()[k as int][j as int]
                &&& final(self).pids() == old(self).pids()
                &&& final(self).tids() == old(self).tids().update(
                    k as int,
                    old(self).tids()[k as int].remove(j as int),
                )
                &&& final(self).readiness() == old(self).readiness().update(
                    k as int,
                    old(self).readiness()[k as int].remove(j as int),
                )
            },
            r is Interrupted ==> {
                &&& final(self).pids() == old(self).pids()
                &&& final(self).tids() == old(self).tids()
                &&& final(self).readiness() == old(self).readiness().update(
                    k as int,
                    old(self).readiness()[k as int].update(j as int, false),
                )
            },
    {
        proof {
            self.lemma_views();
        }
        let ghost sm0 = self.processes@[k as int].state_machine;
        let value: Option<WasmValue> = {
            let t = self.processes[k].state_machine.thread_user_data_mut(j);
            let vb = t.value_back;
            t.value_back = None;
            match vb {
                Some(v) => v,
                None => None,
            }
        };
        let ghost sm1 = self.processes@[k as int].state_machine;
        proof {
            sm0.lemma_shape();
            sm1.lemma_shape();
            assert forall|b: int| 0 <= b < sm1.user_datas().len() implies #[trigger] sm1.expected_results(b)
                == sm0.expected_results(b) by {
                assert(sm1.shape().2[b] == sm0.shape().2[b]);
            }
        }
        assert(process_ok(old(self).processes@[k as int]));
        assert(thread_ok(sm0, j as int));
        assert(!resume_refused(&sm1, j as int, value));
        assert forall|b: int| 0 <= b < sm1.user_datas().len() implies #[trigger] sm1.user_datas()[b].user_data
            == sm0.user_datas()[b].user_data by {}
        let ghost mid = self.processes@;
        let outcome = self.processes[k].state_machine.resume(j, value);
        proof {
            lemma_hosts_kept(old(self), self, k as int);
            match outcome {
                Ok(ExecOutcome::Interrupted { id, .. }) => {
                    assert(host_ids_below(old(self).processes@[k as int].state_machine, old(self).host_count as nat));
                    let i = choose|i: int| 0 <= i < sm1.host_ids().len() && sm1.host_ids()[i] == id;
                    assert(sm1.host_ids()[i] < old(self).host_count as nat);
                },
                _ => {},
            }
        }
        let ghost ud = sm1.user_datas()[j as int];
        let ghost step = if outcome is Ok {
            choose|step: Step| #[trigger] outcome_of(step, j, ud) == outcome->Ok_0
        } else {
            Step::Finished(None)
        };
        let ghost sm2 = self.processes@[k as int].state_machine;
        assert(self.processes@ == mid.update(k as int, self.processes@[k as int]));
        proof {
            self.lemma_views();
            old(self).lemma_views();
        }
        let result = match outcome {
            Err(_) => {
                assert(false);
                CoreStep::Interrupted { id: 0, params: Vec::new() }
            },
            Ok(ExecOutcome::Interrupted { id, params, .. }) => {
                proof {
                    assert(self.pids() =~= old(self).pids());
                    assert(self.tids() =~= old(self).tids()) by {
                        assert forall|a: int| 0 <= a < self.tids().len() implies self.tids()[a]
                            =~= old(self).tids()[a] by {}
                    }
                    assert(self.puds() =~= old(self).puds());
                    assert(self.tuds() =~= old(self).tuds()) by {
                        assert(self.tuds()[k as int] =~= old(self).tuds()[k as int]);
                    }
                    assert(self.pendings() =~= old(self).pendings().update(
                        k as int,
                        old(self).pendings()[k as int].update(j as int, None),
                    )) by {
                        assert(self.pendings()[k as int] =~= old(self).pendings()[k as int].update(j as int, None));
                    }
                    assert(self.readiness() =~= old(self).readiness().update(
                        k as int,
                        old(self).readiness()[k as int].update(j as int, false),
                    )) by {
                        assert(self.readiness()[k as int] =~= old(self).readiness()[k as int].update(
                            j as int,
                            false,
                        ));
                    }
                    assert forall|b: int| 0 <= b < sm2.user_datas().len() implies #[trigger] thread_ok(
                        sm2,
                        b,
                    ) by {
                        assert(thread_ok(sm0, b));
                    }
                    assert(process_ok(self.processes@[k as int]));
                    assert forall|a: int| 0 <= a < self.processes@.len() implies #[trigger] process_ok(
                        self.processes@[a],
                    ) by {
                        if a != k {
                            assert(self.processes@[a] == old(self).processes@[a]);
                        }
                    }
                }
                CoreStep::Interrupted { id, params }
            },
            Ok(ExecOutcome::ThreadFinished { return_value, user_data, .. }) => {
                proof {
                    assert(self.pids() =~= old(self).pids());
                    let t0 = old(self).tids();
                    assert(self.tids() =~= t0.update(k as int, t0[k as int].remove(j as int))) by {
                        assert(self.tids()[k as int] =~= t0[k as int].remove(j as int));
                    }
                    lemma_remove_inner(t0, self.tid_pool.next_id(), k as int, j as int);
                    let r0 = old(self).readiness();
                    assert(self.readiness() =~= r0.update(k as int, r0[k as int].remove(j as int))) by {
                        assert(self.readiness()[k as int] =~= r0[k as int].remove(j as int));
                    }
                    let u0 = old(self).tuds();
                    assert(self.tuds()[k as int] =~= u0[k as int].remove(j as int));
                    assert(self.tuds() =~= u0.update(k as int, u0[k as int].remove(j as int)));
                    let q0 = old(self).pendings();
                    assert(self.pendings()[k as int] =~= q0[k as int].remove(j as int));
                    assert(self.pendings() =~= q0.update(k as int, q0[k as int].remove(j as int)));
                    assert(self.puds() =~= old(self).puds());
                }
                if j == 0 {
                    let ghost midc = *self;
                    proof {
                        assert forall|a: int| 0 <= a < self.processes@.len() && a != k implies self.processes@[a]
                            == old(self).processes@[a] by {}
                        assert(self.processes@.remove(k as int) =~= old(self).processes@.remove(k as int));
                    }
                    let p = self.take_process(k);
                    let ghost psm = p.state_machine;
                    let rest = p.state_machine.into_user_datas();
                    let mut dead_threads = dead_threads_of(rest);
                    let ghost before_insert = dead_threads@;
                    dead_threads.insert(0, (user_data.thread_id, user_data.user_data));
                    proof {
                        midc.lemma_views();
                        let d = dead_threads@.map_values(|d: (ThreadId, TTud)| d.0);
                        assert(d =~= old(self).tids()[k as int]);
                        let u = dead_threads@.map_values(|d: (ThreadId, TTud)| d.1);
                        assert forall|b: int| 0 <= b < u.len() implies #[trigger] u[b] == old(self).tuds()[k as int][b] by {
                            if b > 0 {
                                assert(u[b] == before_insert[b - 1].1);
                                assert(psm == midc.processes@[k as int].state_machine);
                                assert(before_insert[b - 1].1 == psm.user_datas()[b - 1].user_data);
                                assert(midc.tuds()[k as int][b - 1] == psm.user_datas()[b - 1].user_data);
                            }
                        }
                        assert(u =~= old(self).tuds()[k as int]);
                    }
                    CoreStep::ProcessFinished {
                        pid: p.pid,
                        user_data: p.user_data,
                        dead_threads,
                        outcome: Ok(return_value),
                    }
                } else {
                    proof {
                        assert forall|b: int| 0 <= b < sm2.user_datas().len() implies #[trigger] thread_ok(
                            sm2,
                            b,
                        ) by {
                            let ob = if b < j { b } else { b + 1 };
                            assert(thread_ok(sm0, ob));
                        }
                        assert(process_ok(self.processes@[k as int]));
                        assert forall|a: int| 0 <= a < self.processes@.len() implies #[trigger] process_ok(
                            self.processes@[a],
                        ) by {
                            if a != k {
                                assert(self.processes@[a] == old(self).processes@[a]);
                            }
                        }
                    }
                    CoreStep::ThreadFinished {
                        thread_id: user_data.thread_id,
                        user_data: user_data.user_data,
                        value: return_value,
                    }
                }
            },
            Ok(ExecOutcome::Errored { error, user_data, .. }) => {
                proof {
                    assert(self.pids() =~= old(self).pids());
                    let t0 = old(self).tids();
                    assert(self.tids() =~= t0.update(k as int, t0[k as int].remove(j as int))) by {
                        assert(self.tids()[k as int] =~= t0[k as int].remove(j as int));
                    }
                    lemma_remove_inner(t0, self.tid_pool.next_id(), k as int, j as int);
                    let r0 = old(self).readiness();
                    assert(self.readiness() =~= r0.update(k as int, r0[k as int].remove(j as int))) by {
                        assert(self.readiness()[k as int] =~= r0[k as int].remove(j as int));
                    }
                    let u0 = old(self).tuds();
                    assert(self.tuds()[k as int] =~= u0[k as int].remove(j as int));
                    assert(self.tuds() =~= u0.update(k as int, u0[k as int].remove(j as int)));
                    let q0 = old(self).pendings();
                    assert(self.pendings()[k as int] =~= q0[k as int].remove(j as int));
                    assert(self.pendings() =~= q0.update(k as int, q0[k as int].remove(j as int)));
                    assert(self.puds() =~= old(self).puds());
                    assert forall|a: int| 0 <= a < self.processes@.len() && a != k implies #[trigger] process_ok(
                        self.processes@[a],
                    ) by {
                        assert(self.processes@[a] == old(self).processes@[a]);
                    }
                }
                let ghost midc = *self;
                proof {
                    assert(self.processes@.remove(k as int) =~= old(self).processes@.remove(k as int));
                }
                let p = self.take_process(k);
                let ghost psm = p.state_machine;
                let mut dead_threads = dead_threads_of(p.state_machine.into_user_datas());
                let ghost before_insert = dead_threads@;
                dead_threads.insert(j, (user_data.thread_id, user_data.user_data));
                proof {
                    midc.lemma_views();
                    let d = dead_threads@.map_values(|d: (ThreadId, TTud)| d.0);
                    assert(d =~= old(self).tids()[k as int]);
                    let u = dead_threads@.map_values(|d: (ThreadId, TTud)| d.1);
                    assert forall|b: int| 0 <= b < u.len() implies #[trigger] u[b] == old(self).tuds()[k as int][b] by {
                        assert(psm == midc.processes@[k as int].state_machine);
                        if b < j {
                            assert(u[b] == before_insert[b].1);
                            assert(before_insert[b].1 == psm.user_datas()[b].user_data);
                            assert(midc.tuds()[k as int][b] == psm.user_datas()[b].user_data);
                        } else if b > j {
                            assert(u[b] == before_insert[b - 1].1);
                            assert(before_insert[b - 1].1 == psm.user_datas()[b - 1].user_data);
                            assert(midc.tuds()[k as int][b - 1] == psm.user_datas()[b - 1].user_data);
                        }
                    }
                    assert(u =~= old(self).tuds()[k as int]);
                    assert(final(self).readiness() =~= old(self).readiness().remove(k as int)) by {
                        assert forall|a: int| 0 <= a < final(self).readiness().len() implies #[trigger] final(self).readiness()[a]
                            == old(self).readiness().remove(k as int)[a] by {
                            if a >= k {
                                assert(final(self).readiness()[a] == old(self).readiness()[a + 1]);
                            }
                        }
                    }
                }
                CoreStep::ProcessFinished { pid: p.pid, user_data: p.user_data, dead_threads, outcome: Err(error) }
            },
        };
        proof {
            assert(core_step_matches(step, j as int, result));
            if result is ProcessFinished {
                lemma_remove_views(old(self), self, k as int);
            }
        }
        result
    }

    /// Starts a thread in the process at `k`; see `ProcessStateMachine::start_thread_by_id`.
    fn start_thread(&mut self, k: usize, fn_index: u32, params: Vec<WasmValue>, user_data: TTud) -> (r:
        Result<usize, StartErr>)
        requires
            old(self).wf(),
            k < old(self).processes@.len(),
            old(self).tid_pool.can_assign(),
        ensures
            final(self).host_count() == old(self).host_count(),
            final(self).wf(),
            final(self).pids() == old(self).pids(),
            final(self).pid_pool == old(self).pid_pool,
            final(self).tid_pool.next_id() == old(self).tid_pool.next_id() + 1,
            r matches Ok(j) ==> {
                &&& j == old(self).tids()[k as int].len()
                &&& final(self).tids() == old(self).tids().update(
                    k as int,
                    old(self).tids()[k as int].push(old(self).tid_pool.next_id() as ThreadId),
                )
                &&& final(self).readiness() == old(self).readiness().update(
                    k as int,
                    old(self).readiness()[k as int].push(true),
                )
            },
            r matches Ok(j) ==> final(self).tuds() == old(self).tuds().update(
                k as int,
                old(self).tuds()[k as int].push(user_data),
            ),
            final(self).puds() == old(self).puds(),
            r is Err ==> final(self).tuds() == old(self).tuds(),
            r is Err ==> final(self).tids() == old(self).tids() && final(self).readiness() == old(
                self,
            ).readiness(),
            r != Err::<usize, StartErr>(StartErr::Poisoned),
    {
        let tid = self.assign_tid();
        let ghost mid = *self;
        proof {
            self.lemma_views();
        }
        let thread = Thread { user_data, thread_id: tid, value_back: Some(None) };
        let ghost sm0 = self.processes@[k as int].state_machine;
        assert(process_ok(mid.processes@[k as int]));
        let started = self.processes[k].state_machine.start_thread_by_id(fn_index, params, thread);
        proof {
            lemma_hosts_kept(&mid, self, k as int);
        }
        let ghost sm1 = self.processes@[k as int].state_machine;
        proof {
            self.lemma_views();
            old(self).lemma_views();
            mid.lemma_views();
        }
        match started {
            Ok(()) => {
                proof {
                    assert(process_ok(mid.processes@[k as int]));
                    assert forall|b: int| 0 <= b < sm1.user_datas().len() implies #[trigger] thread_ok(
                        sm1,
                        b,
                    ) by {
                        if b < sm0.user_datas().len() {
                            assert(thread_ok(sm0, b));
                        }
                    }
                    assert(process_ok(self.processes@[k as int]));
                    assert forall|a: int| 0 <= a < self.processes@.len() implies #[trigger] process_ok(
                        self.processes@[a],
                    ) by {
                        if a != k {
                            assert(self.processes@[a] == mid.processes@[a]);
                        }
                    }
                    assert(self.pids() =~= old(self).pids());
                    let t0 = old(self).tids();
                    assert(self.tids() =~= t0.update(k as int, t0[k as int].push(tid))) by {
                        assert(self.tids()[k as int] =~= t0[k as int].push(tid));
                    }
                    lemma_push_inner(t0, old(self).tid_pool.next_id(), k as int, tid);
                    assert(self.puds() =~= old(self).puds());
                    let u0 = old(self).tuds();
                    assert(self.tuds() =~= u0.update(k as int, u0[k as int].push(user_data))) by {
                        assert(self.tuds()[k as int] =~= u0[k as int].push(user_data));
                    }
                    let r0 = old(self).readiness();
                    assert(self.readiness() =~= r0.update(k as int, r0[k as int].push(true))) by {
                        assert(self.readiness()[k as int] =~= r0[k as int].push(true));
                    }
                }
                Ok(self.processes[k].state_machine.num_threads() - 1)
            },
            Err(e) => {
                proof {
                    sm0.lemma_shape();
                    sm1.lemma_shape();
                    assert(process_ok(mid.processes@[k as int]));
                    assert forall|b: int| 0 <= b < sm1.user_datas().len() implies #[trigger] thread_ok(sm1, b) by {
                        assert(thread_ok(sm0, b));
                        assert(sm1.shape().2[b] == sm0.shape().2[b]);
                    }
                    assert(process_ok(self.processes@[k as int]));
                    assert forall|a: int| 0 <= a < self.processes@.len() implies #[trigger] process_ok(
                        self.processes@[a],
                    ) by {
                        if a != k {
                            assert(self.processes@[a] == mid.processes@[a]);
                        }
                    }
                    assert(self.pids() =~= old(self).pids());
                    assert(self.tids() =~= old(self).tids()) by {
                        assert(self.tids()[k as int] =~= old(self).tids()[k as int]);
                    }
                    assert(self.readiness() =~= old(self).readiness()) by {
                        assert(self.readiness()[k as int] =~= old(self).readiness()[k as int]);
                    }
                    assert(self.puds() =~= old(self).puds());
                    assert(self.tuds() =~= old(self).tuds()) by {
                        assert(self.tuds()[k as int] =~= old(self).tuds()[k as int]);
                    }
                }
                Err(e)
            },
        }
    }

    /// Hands `value` to the waiting thread at `(k, j)`, which becomes ready.
    fn resume(&mut self, k: usize, j: usize, value: Option<WasmValue>)
        requires
            old(self).wf(),
            old(self).valid(k as int, j as int),
            !old(self).ready(k as int, j as int),
            value_fits(old(self).processes@[k as int].state_machine.expected_results(j as int), value),
        ensures
            final(self).host_count() == old(self).host_count(),
            final(self).wf(),
            final(self).pids() == old(self).pids(),
            final(self).tids() == old(self).tids(),
            final(self).readiness() == old(self).readiness().update(
                k as int,
                old(self).readiness()[k as int].update(j as int, true),
            ),
            final(self).pid_pool == old(self).pid_pool,
            final(self).tid_pool == old(self).tid_pool,
            forall|a: int, b: int| #[trigger] final(self).valid(a, b) == old(self).valid(a, b),
            final(self).ready(k as int, j as int),
            final(self).pending(k as int, j as int) == Some(value),
    {
        proof {
            self.lemma_views();
        }
        let ghost sm0 = self.processes@[k as int].state_machine;
        let t = self.processes[k].state_machine.thread_user_data_mut(j);
        t.value_back = Some(value);
        let ghost sm1 = self.processes@[k as int].state_machine;
        proof {
            lemma_hosts_kept(old(self), self, k as int);
            self.lemma_views();
            old(self).lemma_views();
            sm0.lemma_shape();
            sm1.lemma_shape();
            assert(process_ok(old(self).processes@[k as int]));
            assert(thread_ok(sm0, j as int));
            assert forall|b: int| 0 <= b < sm1.user_datas().len() implies #[trigger] thread_ok(sm1, b) by {
                assert(thread_ok(sm0, b));
                assert(sm1.shape().2[b] == sm0.shape().2[b]);
            }
            assert(process_ok(self.processes@[k as int]));
            assert forall|a: int| 0 <= a < self.processes@.len() implies #[trigger] process_ok(
                self.processes@[a],
            ) by {
                if a != k {
                    assert(self.processes@[a] == old(self).processes@[a]);
                }
            }
            assert(self.pids() =~= old(self).pids());
            assert(self.tids() =~= old(self).tids()) by {
                assert(self.tids()[k as int] =~= old(self).tids()[k as int]);
            }
            assert(self.readiness() =~= old(self).readiness().update(
                k as int,
                old(self).readiness()[k as int].update(j as int, true),
            )) by {
                assert(self.readiness()[k as int] =~= old(self).readiness()[k as int].update(
                    j as int,
                    true,
                ));
            }
        }
    }

    /// Returns true if the thread at `(k, j)` holds a value to run with.
    fn is_ready(&self, k: usize, j: usize) -> (r: bool)
        requires
            self.valid(k as int, j as int),
        ensures
            r == self.ready(k as int, j as int),
    {
        self.processes[k].state_machine.thread_user_data(j).value_back.is_some()
    }

    /// Returns true if `value` is what the thread at `(k, j)` expects.
    fn accepts(&self, k: usize, j: usize, value: &Option<WasmValue>) -> (r: bool)
        requires
            self.wf(),
            self.valid(k as int, j as int),
        ensures
            !self.ready(k as int, j as int) ==> r == value_fits(
                self.processes@[k as int].state_machine.expected_results(j as int),
                *value,
            ),
    {
        proof {
            assert(process_ok(self.processes@[k as int]));
            assert(thread_ok(self.processes@[k as int].state_machine, j as int));
        }
        self.processes[k].state_machine.thread_accepts(j, value)
    }

    /// Replacing the user data of a process changes none of the views nor the invariant.
    proof fn lemma_user_data_free(&self, k: int)
        requires
            self.wf(),
            0 <= k < self.processes@.len(),
        ensures
            forall|c: ProcessTable<TPud, TTud>|
                c.pid_pool == self.pid_pool && c.tid_pool == self.tid_pool && c.host_count == self.host_count && #[trigger] c.processes@
                    == self.processes@.update(
                    k,
                    Process { user_data: c.processes@[k].user_data, ..self.processes@[k] },
                ) ==> {
                    &&& c.wf()
                    &&& c.pids() == self.pids()
                    &&& c.tids() == self.tids()
                    &&& c.readiness() == self.readiness()
                    &&& forall|a: int, b: int| #[trigger] c.valid(a, b) == self.valid(a, b)
                },
    {
        assert forall|c: ProcessTable<TPud, TTud>|
            c.pid_pool == self.pid_pool && c.tid_pool == self.tid_pool && c.host_count == self.host_count && #[trigger] c.processes@
                == self.processes@.update(
                k,
                Process { user_data: c.processes@[k].user_data, ..self.processes@[k] },
            ) implies {
                &&& c.wf()
                &&& c.pids() == self.pids()
                &&& c.tids() == self.tids()
                &&& c.readiness() == self.readiness()
                &&& forall|a: int, b: int| #[trigger] c.valid(a, b) == self.valid(a, b)
            } by {
            c.lemma_views();
            self.lemma_views();
            assert(c.pids() =~= self.pids());
            assert(c.tids() =~= self.tids());
            assert(c.readiness() =~= self.readiness());
            assert forall|a: int| 0 <= a < c.processes@.len() implies #[trigger] process_ok(c.processes@[a]) by {
                assert(process_ok(self.processes@[a]));
            }
        }
    }

    /// Replacing the user data of a thread changes none of the views nor the invariant.
    proof fn lemma_thread_data_free(&self, k: int, j: int)
        requires
            self.wf(),
            self.valid(k, j),
        ensures
            forall|c: ProcessTable<TPud, TTud>|
                {
                    &&& c.pid_pool == self.pid_pool
                    &&& c.tid_pool == self.tid_pool
                    &&& c.host_count == self.host_count
                    &&& c.processes@[k].state_machine.host_ids() == self.processes@[k].state_machine.host_ids()
                    &&& #[trigger] c.processes@ == self.processes@.update(
                        k,
                        Process { state_machine: c.processes@[k].state_machine, ..self.processes@[k] },
                    )
                    &&& c.processes@[k].state_machine.shape() == self.processes@[k].state_machine.shape()
                    &&& c.processes@[k].state_machine.user_datas()
                        == self.processes@[k].state_machine.user_datas().update(
                        j,
                        Thread {
                            user_data: c.processes@[k].state_machine.user_datas()[j].user_data,
                            ..self.processes@[k].state_machine.user_datas()[j]
                        },
                    )
                } ==> {
                    &&& c.wf()
                    &&& c.pids() == self.pids()
                    &&& c.tids() == self.tids()
                    &&& c.readiness() == self.readiness()
                    &&& forall|a: int, b: int| #[trigger] c.valid(a, b) == self.valid(a, b)
                    &&& forall|a: int, b: int|
                        #[trigger] c.valid(a, b) ==> c.processes@[a].state_machine.expected_results(b)
                            == self.processes@[a].state_machine.expected_results(b)
                },
    {
        let sm0 = self.processes@[k].state_machine;
        assert forall|c: ProcessTable<TPud, TTud>|
            {
                &&& c.pid_pool == self.pid_pool
                &&& c.tid_pool == self.tid_pool
                &&& c.host_count == self.host_count
                &&& c.processes@[k].state_machine.host_ids() == self.processes@[k].state_machine.host_ids()
                &&& #[trigger] c.processes@ == self.processes@.update(
                    k,
                    Process { state_machine: c.processes@[k].state_machine, ..self.processes@[k] },
                )
                &&& c.processes@[k].state_machine.shape() == sm0.shape()
                &&& c.processes@[k].state_machine.user_datas() == sm0.user_datas().update(
                    j,
                    Thread {
                        user_data: c.processes@[k].state_machine.user_datas()[j].user_data,
                        ..sm0.user_datas()[j]
                    },
                )
            } implies {
                &&& c.wf()
                &&& c.pids() == self.pids()
                &&& c.tids() == self.tids()
                &&& c.readiness() == self.readiness()
                &&& forall|a: int, b: int| #[trigger] c.valid(a, b) == self.valid(a, b)
                &&& forall|a: int, b: int|
                    #[trigger] c.valid(a, b) ==> c.processes@[a].state_machine.expected_results(b)
                        == self.processes@[a].state_machine.expected_results(b)
            } by {
            let sm = c.processes@[k].state_machine;
            sm.lemma_shape();
            sm0.lemma_shape();
            lemma_hosts_kept(self, &c, k);
            c.lemma_views();
            self.lemma_views();
            assert(c.pids() =~= self.pids());
            assert(c.tids() =~= self.tids()) by {
                assert(c.tids()[k] =~= self.tids()[k]);
            }
            assert(c.readiness() =~= self.readiness()) by {
                assert(c.readiness()[k] =~= self.readiness()[k]);
            }
            assert(process_ok(self.processes@[k]));
            assert forall|b: int| 0 <= b < sm.user_datas().len() implies #[trigger] thread_ok(sm, b) by {
                assert(thread_ok(sm0, b));
                assert(sm.shape().2[b] == sm0.shape().2[b]);
            }
            assert forall|a: int| 0 <= a < c.processes@.len() implies #[trigger] process_ok(c.processes@[a]) by {
                assert(process_ok(self.processes@[a]));
            }
            assert forall|a: int, b: int| #[trigger] c.valid(a, b) implies c.processes@[a].state_machine.expected_results(b)
                == self.processes@[a].state_machine.expected_results(b) by {
                if a == k {
                    assert(sm.shape().2[b] == sm0.shape().2[b]);
                }
            }
        }
    }

    fn pid_at(&self, k: usize) -> (r: Pid)
        requires
            k < self.processes@.len(),
        ensures
            r == self.pids()[k as int],
    {
        proof {
            self.lemma_views();
        }
        self.processes[k].pid
    }

    fn tid_at(&self, k: usize, j: usize) -> (r: ThreadId)
        requires
            self.valid(k as int, j as int),
        ensures
            r == self.tids()[k as int][j as int],
    {
        proof {
            self.lemma_views();
        }
        self.processes[k].state_machine.thread_user_data(j).thread_id
    }

    fn thread_count(&self, k: usize) -> (r: usize)
        requires
            k < self.processes@.len(),
        ensures
            r == self.tids()[k as int].len(),
    {
        proof {
            self.lemma_views();
        }
        self.processes[k].state_machine.num_threads()
    }

    fn process_user_data(&self, k: usize) -> (r: &TPud)
        requires
            k < self.processes@.len(),
        ensures
            *r == self.processes@[k as int].user_data,
    {
        &self.processes[k].user_data
    }

    fn process_user_data_mut(&mut self, k: usize) -> (r: &mut TPud)
        requires
            old(self).wf(),
            k < old(self).processes@.len(),
        ensures
            final(self).host_count() == old(self).host_count(),
            final(self).wf(),
            final(self).pids() == old(self).pids(),
            final(self).tids() == old(self).tids(),
            final(self).readiness() == old(self).readiness(),
            final(self).pid_pool == old(self).pid_pool,
            final(self).tid_pool == old(self).tid_pool,
            forall|a: int, b: int| #[trigger] final(self).valid(a, b) == old(self).valid(a, b),
    {
        proof {
            self.lemma_views();
        }
        proof {
            self.lemma_user_data_free(k as int);
        }
        let r = &mut self.processes[k].user_data;
        r
    }

    fn thread_user_data_mut(&mut self, k: usize, j: usize) -> (r: &mut TTud)
        requires
            old(self).wf(),
            old(self).valid(k as int, j as int),
        ensures
            final(self).host_count() == old(self).host_count(),
            final(self).wf(),
            final(self).pids() == old(self).pids(),
            final(self).tids() == old(self).tids(),
            final(self).readiness() == old(self).readiness(),
            final(self).pid_pool == old(self).pid_pool,
            final(self).tid_pool == old(self).tid_pool,
            forall|a: int, b: int| #[trigger] final(self).valid(a, b) == old(self).valid(a, b),
            forall|a: int, b: int|
                #[trigger] final(self).valid(a, b) ==> final(self).processes@[a].state_machine.expected_results(b)
                    == old(self).processes@[a].state_machine.expected_results(b),
    {
        proof {
            self.lemma_views();
        }
        proof {
            self.lemma_thread_data_free(k as int, j as int);
        }
        let t = self.processes[k].state_machine.thread_user_data_mut(j);
        let r = user_data_of(t);
        r
    }

    fn read_memory(&self, k: usize, offset: u32, size: u32) -> (r: Result<Vec<u8>, ()>)
        requires
            k < self.processes@.len(),
        ensures
            r is Err <==> offset + size > self.processes@[k as int].state_machine.memory().len(),
            r matches Ok(v) ==> v@ == self.processes@[k as int].state_machine.memory().subrange(
                offset as int,
                offset + size,
            ),
    {
        self.processes[k].state_machine.read_memory(offset, size)
    }

    fn write_memory(&mut self, k: usize, offset: u32, value: &[u8]) -> (r: Result<(), ()>)
        requires
            old(self).wf(),
            k < old(self).processes@.len(),
        ensures
            final(self).host_count() == old(self).host_count(),
            final(self).wf(),
            final(self).pids() == old(self).pids(),
            final(self).tids() == old(self).tids(),
            final(self).readiness() == old(self).readiness(),
            final(self).pid_pool == old(self).pid_pool,
            final(self).tid_pool == old(self).tid_pool,
            forall|a: int, b: int| #[trigger] final(self).valid(a, b) == old(self).valid(a, b),
            forall|a: int, b: int|
                #[trigger] final(self).valid(a, b) ==> final(self).processes@[a].state_machine.expected_results(b)
                    == old(self).processes@[a].state_machine.expected_results(b),
            final(self).processes@.len() == old(self).processes@.len(),
            r is Err <==> offset + value@.len() > old(self).processes@[k as int].state_machine.memory().len(),
            r is Ok ==> final(self).processes@[k as int].state_machine.memory() == memory_written(
                old(self).processes@[k as int].state_machine.memory(),
                offset as int,
                value@,
            ),
            r is Err ==> final(self).processes@[k as int].state_machine.memory()
                == old(self).processes@[k as int].state_machine.memory(),
            forall|a: int| 0 <= a < final(self).processes@.len() && a != k ==> #[trigger] final(self).processes@[a]
                == old(self).processes@[a],
    {
        proof {
            self.lemma_views();
        }
        let ghost sm0 = self.processes@[k as int].state_machine;
        assert(process_ok(self.processes@[k as int]));
        let r = self.processes[k].state_machine.write_memory(offset, value);
        proof {
            lemma_hosts_kept(old(self), self, k as int);
        }
        proof {
            let sm1 = self.processes@[k as int].state_machine;
            self.lemma_views();
            old(self).lemma_views();
            assert(self.pids() =~= old(self).pids());
            assert(self.tids() =~= old(self).tids()) by {
                assert(self.tids()[k as int] =~= old(self).tids()[k as int]);
            }
            assert(self.readiness() =~= old(self).readiness()) by {
                assert(self.readiness()[k as int] =~= old(self).readiness()[k as int]);
            }
            assert forall|b: int| 0 <= b < sm1.user_datas().len() implies #[trigger] thread_ok(sm1, b) by {
                assert(process_ok(old(self).processes@[k as int]));
                assert(thread_ok(sm0, b));
            }
            assert forall|a: int| 0 <= a < self.processes@.len() implies #[trigger] process_ok(
                self.processes@[a],
            ) by {
                assert(process_ok(old(self).processes@[a]));
            }
        }
        r
    }

    /// Finds the process with identifier `pid`.
    fn position_of(&self, pid: Pid) -> (r: Option<usize>)
        requires
            self.wf(),
        ensures
            r matches Some(k) ==> k < self.pids().len() && self.pids()[k as int] == pid,
            r is None ==> !self.pids().contains(pid),
    {
        proof {
            self.lemma_views();
        }
        let mut k: usize = 0;
        while k < self.processes.len()
            invariant
                0 <= k <= self.processes@.len(),
                self.pids().len() == self.processes@.len(),
                forall|a: int| 0 <= a < k ==> self.pids()[a] != pid,
            decreases self.processes.len() - k,
        {
            proof {
                self.lemma_views();
            }
            if self.processes[k].pid == pid {
                return Some(k);
            }
            k = k + 1;
        }
        None
    }

    /// Finds the thread with identifier `tid`.
    fn position_of_thread(&self, tid: ThreadId) -> (r: Option<(usize, usize)>)
        requires
            self.wf(),
        ensures
            r matches Some((k, j)) ==> self.valid(k as int, j as int) && self.tids()[k as int][j as int]
                == tid,
            r is None ==> forall|k: int, j: int| #[trigger] self.valid(k, j) ==> self.tids()[k][j] != tid,
    {
        proof {
            self.lemma_views();
        }
        let mut k: usize = 0;
        while k < self.processes.len()
            invariant
                0 <= k <= self.processes@.len(),
                self.tids().len() == self.processes@.len(),
                forall|a: int, b: int| 0 <= a < k && #[trigger] self.valid(a, b) ==> self.tids()[a][b] != tid,
            decreases self.processes.len() - k,
        {
            let sm = &self.processes[k].state_machine;
            let count = sm.num_threads();
            let mut j: usize = 0;
            while j < count
                invariant
                    0 <= k < self.processes@.len(),
                    *sm == self.processes@[k as int].state_machine,
                    count == sm.user_datas().len(),
                    0 <= j <= count,
                    self.tids().len() == self.processes@.len(),
                    forall|a: int, b: int| 0 <= a < k && #[trigger] self.valid(a, b) ==> self.tids()[a][b] != tid,
                    forall|b: int| 0 <= b < j ==> self.tids()[k as int][b] != tid,
                decreases count - j,
            {
                proof {
                    self.lemma_views();
                }
                if sm.thread_user_data(j).thread_id == tid {
                    return Some((k, j));
                }
                j = j + 1;
            }
            k = k + 1;
        }
        None
    }
}

/// A registered host function: its interface, its name and its signature.
pub type HostFunctionEntry = (InterfaceKey, Seq<char>, (Seq<ValueType>, Option<ValueType>));

/// The entry at `i` is registered under that interface and name, with a signature that the
/// engine signature `(params, results)` matches.
pub open spec fn entry_matches(
    table: Seq<HostFunctionEntry>,
    i: int,
    interface: InterfaceKey,
    name: Seq<char>,
    params: Seq<ValueType>,
    results: Seq<ValueType>,
) -> bool {
    &&& 0 <= i < table.len()
    &&& table[i].0 == interface
    &&& table[i].1 == name
    &&& signature_matches(table[i].2, params, results)
}

/// Some entry is registered under that interface and name, with a signature that the engine
/// signature `(params, results)` matches.
pub open spec fn entry_exists(
    table: Seq<HostFunctionEntry>,
    interface: InterfaceKey,
    name: Seq<char>,
    params: Seq<ValueType>,
    results: Seq<ValueType>,
) -> bool {
    exists|i: int| #[trigger] entry_matches(table, i, interface, name, params, results)
}

/// No two entries share an interface and a name.
pub open spec fn keys_unique(table: Seq<HostFunctionEntry>) -> bool {
    forall|a: int, b: int|
        0 <= a < table.len() && 0 <= b < table.len() && a != b ==> (#[trigger] table[a].0, table[a].1)
            != (#[trigger] table[b].0, table[b].1)
}

/// Some entry is registered under that interface and name.
pub open spec fn key_registered(table: Seq<HostFunctionEntry>, interface: InterfaceKey, name: Seq<char>) -> bool {
    exists|i: int| 0 <= i < table.len() && #[trigger] table[i].0 == interface && table[i].1 == name
}

/// The import at `k` of `module` is a function that a registered host function answers.
pub open spec fn import_registered(table: Seq<HostFunctionEntry>, module: &WasmModule, k: int) -> bool {
    &&& module.import_is_function(k)
    &&& module.import_signature(k) matches Some(sig) && exists|i: int|
        #[trigger] entry_matches(
            table,
            i,
            interface_of_module_name(module.import_module(k)),
            module.import_name(k),
            sig.0,
            sig.1,
        )
}

/// An identifier that no process has, and that was handed out already, stays unused when a
/// process is created: the new process gets the next identifier, which is larger.
pub proof fn lemma_no_revival(before: Seq<Pid>, next: nat, pid: Pid)
    requires
        !before.contains(pid),
        pid < next,
        next <= u64::MAX,
    ensures
        !before.push(next as Pid).contains(pid),
{
    let after = before.push(next as Pid);
    assert forall|i: int| 0 <= i < after.len() implies #[trigger] after[i] != pid by {
        if i < before.len() {
            assert(after[i] == before[i]);
        }
    }
}

/// Host function registered in the collection.
struct Extrinsic {
    interface: InterfaceId,
    name: String,
    signature: Signature,
}

spec fn entries_view(entries: Seq<Extrinsic>) -> Seq<HostFunctionEntry> {
    entries.map_values(|e: Extrinsic| (e.interface@, e.name@, e.signature@))
}

/// Finds the host function registered under that interface and name whose signature the engine
/// signature matches.
fn resolve_extrinsic(entries: &Vec<Extrinsic>, interface: &InterfaceId, name: &str, sig: &EngineSignature) -> (r:
    Result<usize, ()>)
    ensures
        r matches Ok(i) ==> entry_matches(
            entries_view(entries@),
            i as int,
            interface@,
            name@,
            sig.params@,
            sig.results@,
        ),
        r is Err ==> forall|i: int|
            !#[trigger] entry_matches(
                entries_view(entries@),
                i,
                interface@,
                name@,
                sig.params@,
                sig.results@,
            ),
{
    let wanted = name.to_owned();
    let mut i: usize = 0;
    while i < entries.len()
        invariant
            0 <= i <= entries.len(),
            wanted@ == name@,
            forall|a: int|
                0 <= a < i ==> !#[trigger] entry_matches(
                    entries_view(entries@),
                    a,
                    interface@,
                    name@,
                    sig.params@,
                    sig.results@,
                ),
        decreases entries.len() - i,
    {
        let e = &entries[i];
        assert(entries_view(entries@)[i as int] == (e.interface@, e.name@, e.signature@));
        if e.interface.same_as(interface) && e.name.eq(&wanted) && e.signature.matches_engine(sig) {
            return Ok(i);
        }
        i = i + 1;
    }
    Err(())
}

/// Prototype of a `ProcessesCollection`: the host functions that processes may call, and the
/// process identifiers reserved so far.
pub struct ProcessesCollectionBuilder<TExtr> {
    pid_pool: IdPool,
    extrinsics: Vec<TExtr>,
    extrinsics_id_assign: Vec<Extrinsic>,
}

impl<TExtr> ProcessesCollectionBuilder<TExtr> {
    /// Registered host functions; the token of the entry at `i` is `tokens()[i]`.
    pub closed spec fn host_functions(&self) -> Seq<HostFunctionEntry> {
        entries_view(self.extrinsics_id_assign@)
    }

    /// Token of each registered host function.
    pub closed spec fn tokens(&self) -> Seq<TExtr> {
        self.extrinsics@
    }

    /// The identifier that `reserve_pid` hands out next.
    pub closed spec fn next_pid(&self) -> nat {
        self.pid_pool.next_id()
    }

    pub closed spec fn wf(&self) -> bool {
        &&& self.pid_pool.wf()
        &&& self.extrinsics@.len() == self.extrinsics_id_assign@.len()
        &&& keys_unique(self.host_functions())
    }

    /// A builder with no host function and no reserved identifier.
    pub fn new() -> (r: Self)
        ensures
            r.wf(),
            r.host_functions() == Seq::<HostFunctionEntry>::empty(),
            r.tokens() == Seq::<TExtr>::empty(),
            r.next_pid() == 1,
    {
        let r = ProcessesCollectionBuilder {
            pid_pool: IdPool::new(),
            extrinsics: Vec::new(),
            extrinsics_id_assign: Vec::new(),
        };
        assert(r.host_functions() =~= Seq::<HostFunctionEntry>::empty());
        r
    }

    /// Reserves a process identifier that no process will have.
    pub fn reserve_pid(&mut self) -> (pid: Pid)
        requires
            old(self).wf(),
            old(self).next_pid() < u64::MAX,
        ensures
            final(self).wf(),
            pid as nat == old(self).next_pid(),
            final(self).next_pid() == old(self).next_pid() + 1,
            final(self).host_functions() == old(self).host_functions(),
            final(self).tokens() == old(self).tokens(),
    {
        self.pid_pool.assign()
    }

    /// Returns true if a host function is registered under that interface and name.
    pub fn has_extrinsic(&self, interface: &InterfaceId, f_name: &str) -> (r: bool)
        ensures
            r == key_registered(self.host_functions(), interface@, f_name@),
    {
        let wanted = f_name.to_owned();
        let mut i: usize = 0;
        while i < self.extrinsics_id_assign.len()
            invariant
                0 <= i <= self.extrinsics_id_assign@.len(),
                wanted@ == f_name@,
                self.host_functions().len() == self.extrinsics_id_assign@.len(),
                forall|a: int|
                    0 <= a < i ==> !(#[trigger] self.host_functions()[a].0 == interface@
                        && self.host_functions()[a].1 == f_name@),
            decreases self.extrinsics_id_assign.len() - i,
        {
            let e = &self.extrinsics_id_assign[i];
            assert(self.host_functions()[i as int] == (e.interface@, e.name@, e.signature@));
            if e.interface.same_as(interface) && e.name.eq(&wanted) {
                assert(self.host_functions()[i as int].0 == interface@);
                return true;
            }
            i = i + 1;
        }
        false
    }

    /// Registers a host function that processes may import under `interface` and `f_name`.
    ///
    /// A process that calls it is interrupted, and `run` hands out `token`. The signature is
    /// checked against the import when a process is created. Each interface and name can be
    /// registered once.
    pub fn with_extrinsic(self, interface: InterfaceId, f_name: &str, signature: Signature, token: TExtr) -> (r:
        Self)
        requires
            self.wf(),
            !key_registered(self.host_functions(), interface@, f_name@),
        ensures
            r.wf(),
            r.host_functions() == self.host_functions().push((interface@, f_name@, signature@)),
            r.tokens() == self.tokens().push(token),
            r.next_pid() == self.next_pid(),
    {
        let ProcessesCollectionBuilder { pid_pool, mut extrinsics, mut extrinsics_id_assign } = self;
        let ghost before = extrinsics_id_assign@;
        let entry = Extrinsic { interface, name: f_name.to_owned(), signature };
        extrinsics_id_assign.push(entry);
        extrinsics.push(token);
        let r = ProcessesCollectionBuilder { pid_pool, extrinsics, extrinsics_id_assign };
        proof {
            assert(entries_view(extrinsics_id_assign@) =~= entries_view(before).push(
                (interface@, f_name@, signature@),
            ));
            let t = r.host_functions();
            assert forall|a: int, b: int|
                0 <= a < t.len() && 0 <= b < t.len() && a != b implies (#[trigger] t[a].0, t[a].1) != (
                #[trigger] t[b].0,
                t[b].1,
            ) by {
                if a == t.len() - 1 {
                    assert(t[b] == self.host_functions()[b]);
                } else if b == t.len() - 1 {
                    assert(t[a] == self.host_functions()[a]);
                } else {
                    assert(t[a] == self.host_functions()[a]);
                    assert(t[b] == self.host_functions()[b]);
                }
            }
        }
        r
    }

    /// Turns the builder into a collection with no process.
    pub fn build<TPud, TTud>(self) -> (r: ProcessesCollection<TExtr, TPud, TTud>)
        requires
            self.wf(),
        ensures
            r.wf(),
            r.host_functions() == self.host_functions(),
            r.tokens() == self.tokens(),
            r.process_ids() == Seq::<Pid>::empty(),
            r.next_pid() == self.next_pid(),
            r.next_tid() == 1,
    {
        let core = ProcessTable::new(self.pid_pool, self.extrinsics.len());
        let r = ProcessesCollection {
            core,
            extrinsics: self.extrinsics,
            extrinsics_id_assign: self.extrinsics_id_assign,
            next_run: 0,
        };
        proof {
            r.core.lemma_views();
            assert(r.process_ids() =~= Seq::<Pid>::empty());
        }
        r
    }
}

impl<TExtr> Default for ProcessesCollectionBuilder<TExtr> {
    fn default() -> (r: Self)
        ensures
            r.wf(),
            r.host_functions() == Seq::<HostFunctionEntry>::empty(),
            r.tokens() == Seq::<TExtr>::empty(),
            r.next_pid() == 1,
    {
        ProcessesCollectionBuilder::new()
    }
}

/// Collection of processes, each a WebAssembly instance with one or more threads, and of the
/// host functions that they may call.
///
/// `run` picks a ready thread, in turn across the processes, and runs it until something
/// happens. The user data of each process (`TPud`) and of each thread (`TTud`) is handed back
/// when they end.
pub struct ProcessesCollection<TExtr, TPud, TTud> {
    core: ProcessTable<TPud, TTud>,
    extrinsics: Vec<TExtr>,
    extrinsics_id_assign: Vec<Extrinsic>,
    /// Position of the process where the search for a ready thread starts.
    next_run: usize,
}

/// Outcome of `ProcessesCollection::run`.
pub enum RunOneOutcome<'a, TExtr, TPud, TTud> {
    /// The first thread of a process returned, or one of its threads stopped abnormally. The
    /// process no longer exists.
    ProcessFinished {
        pid: Pid,
        user_data: TPud,
        /// Identifier and user data of each thread of the process, the first thread first.
        dead_threads: Vec<(ThreadId, TTud)>,
        /// What the first thread returned, or why the process stopped.
        outcome: Result<Option<WasmValue>, ExecError>,
    },
    /// A thread other than the first returned. It no longer exists.
    ThreadFinished {
        thread_id: ThreadId,
        process: ProcessesCollectionProc<'a, TPud, TTud>,
        user_data: TTud,
        value: Option<WasmValue>,
    },
    /// A thread called a host function, whose token is `id`. The thread waits for `resume`.
    Interrupted {
        thread: ProcessesCollectionThread<'a, TPud, TTud>,
        id: &'a mut TExtr,
        params: Vec<WasmValue>,
    },
    /// No thread is ready to run. Nothing was done.
    Idle,
}

/// Access to a process of the collection.
pub struct ProcessesCollectionProc<'a, TPud, TTud> {
    /// The table of the collection, borrowed for as long as the handle lives.
    pub core: &'a mut ProcessTable<TPud, TTud>,
    /// Position of the process in the table.
    pub index: usize,
}

/// Access to a thread of the collection.
pub struct ProcessesCollectionThread<'a, TPud, TTud> {
    /// The table of the collection, borrowed for as long as the handle lives.
    pub core: &'a mut ProcessTable<TPud, TTud>,
    /// Position of the thread's process in the table.
    pub process_index: usize,
    /// Position of the thread among the threads of its process.
    pub thread_index: usize,
}

/// Some thread of these is ready.
pub open spec fn some_ready(readiness: Seq<Seq<bool>>) -> bool {
    exists|k: int, j: int| 0 <= k < readiness.len() && 0 <= j < readiness[k].len() && #[trigger] readiness[k][j]
}

/// A thread that was handed its value is ready, so the next `run` is not `Idle`: with the
/// readiness that `resume` leaves, some thread is ready.
pub proof fn lemma_resumed_thread_is_pending(readiness: Seq<Seq<bool>>, k: int, j: int)
    requires
        0 <= k < readiness.len(),
        0 <= j < readiness[k].len(),
    ensures
        some_ready(readiness.update(k, readiness[k].update(j, true))),
{
    let r = readiness.update(k, readiness[k].update(j, true));
    assert(r[k][j]);
}

/// What `run` gives when the thread at position `j` of its process takes `step`, with the
/// tokens `tokens` of the host functions: the first thread returning ends the process with its
/// value; another thread returning ends that thread; a host call interrupts the thread and hands
/// out the token of the host function, or ends the process if no host function has that number;
/// an abnormal stop ends the process with the error.
pub open spec fn run_matches<'a, TExtr, TPud, TTud>(
    step: Step,
    j: int,
    tokens: Seq<TExtr>,
    r: RunOneOutcome<'a, TExtr, TPud, TTud>,
) -> bool {
    match step {
        Step::Finished(v) => if j == 0 {
            (r matches RunOneOutcome::ProcessFinished { outcome, .. } && outcome == Ok::<Option<WasmValue>, ExecError>(v))
        } else {
            (r matches RunOneOutcome::ThreadFinished { value, .. } && value == v)
        },
        Step::Interrupted { id, params, .. } => if id < tokens.len() {
            (r matches RunOneOutcome::Interrupted { id: t, params: p, .. } && *t == tokens[id as int] && p == params)
        } else {
            (r matches RunOneOutcome::ProcessFinished { outcome, .. } && outcome matches Err(ExecError::UnknownHostCall))
        },
        Step::Errored(e) => (r matches RunOneOutcome::ProcessFinished { outcome, .. } && outcome == Err::<
            Option<WasmValue>,
            ExecError,
        >(e)),
    }
}

/// Some thread has this identifier.
pub open spec fn has_thread_id(thread_ids: Seq<Seq<ThreadId>>, tid: ThreadId) -> bool {
    exists|k: int, j: int| 0 <= k < thread_ids.len() && 0 <= j < thread_ids[k].len() && #[trigger] thread_ids[k][j] == tid
}

impl<TExtr, TPud, TTud> ProcessesCollection<TExtr, TPud, TTud> {
    /// The table of processes.
    pub closed spec fn table(&self) -> ProcessTable<TPud, TTud> {
        self.core
    }

    pub open spec fn wf(&self) -> bool {
        &&& self.table().wf()
        &&& self.tokens().len() == self.host_functions().len()
        &&& self.table().host_count() == self.tokens().len()
    }

    /// Identifier of each process.
    pub open spec fn process_ids(&self) -> Seq<Pid> {
        self.table().pids()
    }

    /// Identifiers of the threads of each process, in the order of `process_ids`.
    pub open spec fn thread_ids(&self) -> Seq<Seq<ThreadId>> {
        self.table().tids()
    }

    /// For each thread, in the order of `thread_ids`, whether it is ready to run.
    pub open spec fn readiness(&self) -> Seq<Seq<bool>> {
        self.table().readiness()
    }

    /// Registered host functions.
    pub closed spec fn host_functions(&self) -> Seq<HostFunctionEntry> {
        entries_view(self.extrinsics_id_assign@)
    }

    /// Token of each registered host function.
    pub closed spec fn tokens(&self) -> Seq<TExtr> {
        self.extrinsics@
    }

    /// User data of each process, in the order of `process_ids`.
    pub open spec fn process_user_datas(&self) -> Seq<TPud> {
        self.table().puds()
    }

    /// User data of the threads of each process, in the order of `thread_ids`.
    pub open spec fn thread_user_datas(&self) -> Seq<Seq<TTud>> {
        self.table().tuds()
    }

    /// For each thread, in the order of `thread_ids`, the value it holds to run with: `None` if
    /// it waits for `resume`, else the value handed to it.
    pub open spec fn pending_values(&self) -> Seq<Seq<Option<Option<WasmValue>>>> {
        self.table().pendings()
    }

    /// The identifier that the next process gets.
    pub open spec fn next_pid(&self) -> nat {
        self.table().next_pid()
    }

    /// Position of the process where `run` starts looking for a ready thread.
    pub closed spec fn cursor(&self) -> int {
        self.next_run as int
    }

    /// The identifier that the next thread gets.
    pub open spec fn next_tid(&self) -> nat {
        self.table().next_tid()
    }

    /// Both identifier pools can hand out an identifier.
    pub open spec fn can_allocate(&self) -> bool {
        self.next_pid() < u64::MAX && self.next_tid() < u64::MAX
    }

    /// Returns true if both identifier pools can hand out an identifier.
    pub fn ids_available(&self) -> (r: bool)
        ensures
            r == self.can_allocate(),
    {
        self.core.pid_pool.has_available() && self.core.tid_pool.has_available()
    }

    /// Identifiers are unique: no two processes share an identifier, no two threads share one
    /// even across processes, so each thread belongs to exactly one process, and every
    /// identifier lies below the one that the pools hand out next.
    pub proof fn lemma_unique_ids(&self)
        requires
            self.wf(),
        ensures
            ids_ok(self.process_ids(), self.next_pid()),
            distinct2(self.thread_ids()),
            all_below(self.thread_ids(), self.next_tid()),
            self.next_pid() >= 1,
            self.next_tid() >= 1,
    {
        self.core.pid_pool.lemma_positive();
        self.core.tid_pool.lemma_positive();
    }

    /// Creates a process from `module`, whose main thread, if any, is ready to run `main`.
    ///
    /// Each function import resolves to the host function registered under the interface that
    /// its module name designates and under its name, provided that the signatures match.
    /// A thread identifier is used up even if the process cannot be created.
    pub fn execute(&mut self, module: &WasmModule, proc_user_data: TPud, main_thread_user_data: TTud) -> (r:
        Result<ProcessesCollectionProc<'_, TPud, TTud>, NewErr>)
        requires
            old(self).wf(),
            old(self).can_allocate(),
        ensures
            !(r matches Err(NewErr::Interpreter(_))) ==> forall|k: int|
                0 <= k < module.import_count() ==> import_registered(old(self).host_functions(), module, k),
            r matches Ok(p) ==> {
                &&& p.wf()
                &&& p.spec_pid() == old(self).next_pid()
                &&& p.process_ids() == old(self).process_ids().push(old(self).next_pid() as Pid)
                &&& p.thread_ids().len() == old(self).thread_ids().len() + 1
                &&& p.thread_ids().drop_last() == old(self).thread_ids()
                &&& p.thread_ids().last().len() <= 1
                &&& forall|j: int| 0 <= j < p.thread_ids().last().len() ==> #[trigger] p.thread_ids().last()[j]
                    == old(self).next_tid()
                &&& p.next_pid() == old(self).next_pid() + 1
                &&& p.next_tid() == old(self).next_tid() + 1
                &&& p.spec_pid() >= 1
                &&& p.readiness() == old(self).readiness().push(p.readiness().last())
                &&& forall|j: int| 0 <= j < p.readiness().last().len() ==> #[trigger] p.readiness().last()[j]
                &&& p.process_user_datas() == old(self).process_user_datas().push(proc_user_data)
                &&& p.thread_user_datas().drop_last() == old(self).thread_user_datas()
                &&& forall|j: int| 0 <= j < p.thread_user_datas().last().len() ==> #[trigger] p.thread_user_datas().last()[j]
                    == main_thread_user_data
            },
            r matches Err(NewErr::Interpreter(InstantiationError::UnsupportedImport { .. })) ==> exists|k: int|
                0 <= k < module.import_count() && !#[trigger] module.import_is_function(k),
            r matches Err(NewErr::Interpreter(InstantiationError::UnresolvedImport { .. })) ==> exists|k: int|
                0 <= k < module.import_count() && #[trigger] module.import_is_function(k)
                    && !import_registered(old(self).host_functions(), module, k),
            !(r matches Err(NewErr::Interpreter(_))) ==> (r is Ok <==> exports_check(
                module.export_kind(MEMORY_EXPORT@),
                module.export_kind(MAIN_EXPORT@),
            ) is Accept),
            r matches Err(NewErr::MemoryIsntMemory) ==> exports_check(
                module.export_kind(MEMORY_EXPORT@),
                module.export_kind(MAIN_EXPORT@),
            ) == ExportsCheck::MemoryIsntMemory,
            r matches Err(NewErr::MainIsntAFunction) ==> exports_check(
                module.export_kind(MEMORY_EXPORT@),
                module.export_kind(MAIN_EXPORT@),
            ) == ExportsCheck::MainIsntAFunction,
            r matches Ok(p) ==> (p.thread_ids().last().len() == 1 <==> module.export_kind(MAIN_EXPORT@)
                == ExportKind::Func),
            (forall|k: int|
                0 <= k < module.import_count() ==> #[trigger] module.import_is_function(k)
                    && import_registered(old(self).host_functions(), module, k))
                && exports_check(module.export_kind(MEMORY_EXPORT@), module.export_kind(MAIN_EXPORT@))
                is Accept ==> (r is Ok || r matches Err(NewErr::Interpreter(InstantiationError::Engine(_)))),
            r is Err ==> {
                &&& final(self).wf()
                &&& final(self).process_ids() == old(self).process_ids()
                &&& final(self).thread_ids() == old(self).thread_ids()
                &&& final(self).readiness() == old(self).readiness()
                &&& final(self).next_pid() == old(self).next_pid()
                &&& final(self).next_tid() == old(self).next_tid() + 1
                &&& final(self).host_functions() == old(self).host_functions()
                &&& final(self).tokens() == old(self).tokens()
                &&& final(self).process_user_datas() == old(self).process_user_datas()
                &&& final(self).thread_user_datas() == old(self).thread_user_datas()
                &&& final(self).pending_values() == old(self).pending_values()
            },
            r matches Ok(p) ==> {
                &&& final(self).table() == *final(p.core)
                &&& (*p.core).host_count() == old(self).table().host_count()
                &&& final(self).host_functions() == old(self).host_functions()
                &&& final(self).tokens() == old(self).tokens()
                &&& final(self).cursor() == old(self).cursor()
                &&& p.position() == old(self).process_ids().len()
            },
    {
        proof {
            self.core.lemma_views();
        }
        let main_tid = self.core.assign_tid();
        let thread = Thread { user_data: main_thread_user_data, thread_id: main_tid, value_back: Some(None) };
        let table = &self.extrinsics_id_assign;
        let resolve = |interface: &InterfaceId, name: &str, sig: &EngineSignature| -> (r: Result<usize, ()>)
            ensures
                r matches Ok(i) ==> entry_matches(
                    entries_view(table@),
                    i as int,
                    interface@,
                    name@,
                    sig.params@,
                    sig.results@,
                ),
                r is Err ==> !entry_exists(
                    entries_view(table@),
                    interface@,
                    name@,
                    sig.params@,
                    sig.results@,
                ),
            { resolve_extrinsic(table, interface, name, sig) };
        let created = ProcessStateMachine::new(module, thread, resolve);
        proof {
            if !(created matches Err(NewErr::Interpreter(_))) {
                assert forall|k: int| 0 <= k < module.import_count() implies import_registered(
                    old(self).host_functions(),
                    module,
                    k,
                ) by {
                    assert(import_accepted(module, k, resolve));
                    let (id, name, sig, index) = choose|
                        id: InterfaceId,
                        name: &str,
                        sig: EngineSignature,
                        index: usize,
                    |
                        id@ == interface_of_module_name(module.import_module(k)) && name@ == module.import_name(k)
                            && module.import_signature(k) == Some((sig.params@, sig.results@))
                            && resolve.ensures((&id, name, &sig), Ok::<usize, ()>(index));
                    assert(resolve.ensures((&id, name, &sig), Ok::<usize, ()>(index)));
                    assert(entry_matches(
                        entries_view(table@),
                        index as int,
                        id@,
                        name@,
                        sig.params@,
                        sig.results@,
                    ));
                    assert(table@ == old(self).extrinsics_id_assign@);
                    let s = module.import_signature(k)->Some_0;
                    assert(s.0 == sig.params@ && s.1 == sig.results@);
                    assert(entry_matches(
                        old(self).host_functions(),
                        index as int,
                        interface_of_module_name(module.import_module(k)),
                        module.import_name(k),
                        s.0,
                        s.1,
                    ));
                    assert(entry_matches(
                        old(self).host_functions(),
                        index as int,
                        interface_of_module_name(module.import_module(k)),
                        module.import_name(k),
                        sig.params@,
                        sig.results@,
                    ));
                }
            }
        }
        proof {
            assert forall|k: int|
                0 <= k < module.import_count() && #[trigger] module.import_is_function(k)
                    && import_registered(old(self).host_functions(), module, k) implies module.import_signature(k) is Some
                    && !import_refusable(module, k, resolve) by {
                if import_refusable(module, k, resolve) {
                    let (id, name, sig, rr) = choose|id: InterfaceId, name: &str, sig: EngineSignature, rr: Result<usize, ()>|
                        #![trigger resolve.ensures((&id, name, &sig), rr)]
                        id@ == interface_of_module_name(module.import_module(k)) && name@ == module.import_name(k)
                            && module.import_signature(k) == Some((sig.params@, sig.results@)) && resolve.ensures(
                            (&id, name, &sig),
                            rr,
                        ) && rr is Err;
                    assert(resolve.ensures((&id, name, &sig), rr));
                    assert(table@ == old(self).extrinsics_id_assign@);
                    let sg = module.import_signature(k)->Some_0;
                    let i = choose|i: int|
                        #[trigger] entry_matches(
                            old(self).host_functions(),
                            i,
                            interface_of_module_name(module.import_module(k)),
                            module.import_name(k),
                            sg.0,
                            sg.1,
                        );
                    assert(entry_matches(entries_view(table@), i, id@, name@, sig.params@, sig.results@));
                }
            }
            if created matches Err(NewErr::Interpreter(InstantiationError::UnresolvedImport { .. })) {
                let k = choose|k: int|
                    0 <= k < module.import_count() && #[trigger] module.import_is_function(k) && (
                    module.import_signature(k) is None || import_refusable(module, k, resolve));
                if module.import_signature(k) is Some {
                    let (id, name, sig, rr) = choose|id: InterfaceId, name: &str, sig: EngineSignature, rr: Result<usize, ()>|
                        #![trigger resolve.ensures((&id, name, &sig), rr)]
                        id@ == interface_of_module_name(module.import_module(k)) && name@ == module.import_name(k)
                            && module.import_signature(k) == Some((sig.params@, sig.results@)) && resolve.ensures(
                            (&id, name, &sig),
                            rr,
                        ) && rr is Err;
                    assert(resolve.ensures((&id, name, &sig), rr));
                    assert(table@ == old(self).extrinsics_id_assign@);
                    if import_registered(old(self).host_functions(), module, k) {
                        let sg = module.import_signature(k)->Some_0;
                        let i = choose|i: int|
                            #[trigger] entry_matches(
                                old(self).host_functions(),
                                i,
                                interface_of_module_name(module.import_module(k)),
                                module.import_name(k),
                                sg.0,
                                sg.1,
                            );
                        assert(!entry_matches(entries_view(table@), i, id@, name@, sig.params@, sig.results@));
                    }
                }
                assert(!import_registered(old(self).host_functions(), module, k));
            }
        }
        let state_machine = match created {
            Ok(sm) => sm,
            Err(e) => {
                return Err(e);
            },
        };
        proof {
            assert forall|a: int, b: int|
                0 <= a < self.core.tids().len() && 0 <= b < self.core.tids()[a].len() implies self.core.tids()[a][b]
                != main_tid by {
                assert(self.core.tids() == old(self).core.tids());
                assert(old(self).core.tids()[a][b] < old(self).core.tid_pool.next_id());
            }
            assert forall|j: int| 0 <= j < state_machine.user_datas().len() implies #[trigger] thread_ok(
                state_machine,
                j,
            ) by {}
        }
        let ghost sm_view = state_machine;
        proof {
            assert forall|i: int| 0 <= i < sm_view.host_ids().len() implies #[trigger] sm_view.host_ids()[i]
                < self.core.host_count as nat by {
                let x = sm_view.host_ids()[i];
                assert(resolver_index(module, resolve, x));
                let (kk, id, name, sig) = choose|kk: int, id: InterfaceId, name: &str, sig: EngineSignature|
                    #![trigger resolve.ensures((&id, name, &sig), Ok::<usize, ()>(x)), module.import_name(kk)]
                    0 <= kk < module.import_count() && id@ == interface_of_module_name(module.import_module(kk))
                        && name@ == module.import_name(kk) && module.import_signature(kk) == Some(
                        (sig.params@, sig.results@),
                    ) && resolve.ensures((&id, name, &sig), Ok::<usize, ()>(x));
                assert(resolve.ensures((&id, name, &sig), Ok::<usize, ()>(x)));
                assert(entry_matches(entries_view(table@), x as int, id@, name@, sig.params@, sig.results@));
            }
        }
        proof {
            assert(thread_ids_of(sm_view).len() == sm_view.user_datas().len());
        }
        let k = self.core.insert_process(state_machine, proc_user_data, main_tid);
        proof {
            assert(self.core.tids().drop_last() =~= old(self).core.tids());
            assert(self.core.tuds().drop_last() =~= old(self).core.tuds());
            self.core.pid_pool.lemma_positive();
            old(self).core.pid_pool.lemma_positive();
            assert(self.core.readiness() =~= old(self).core.readiness().push(self.core.readiness().last()));
            assert forall|j: int| 0 <= j < self.core.readiness().last().len() implies #[trigger] self.core.readiness().last()[j] by {
                assert(thread_ok(sm_view, j));
            }
        }
        Ok(ProcessesCollectionProc { core: &mut self.core, index: k })
    }

    /// Runs one ready thread until it returns, calls a host function, or traps.
    ///
    /// The search for a ready thread starts at the process after the one that ran last, so that
    /// every process gets its turn. Returns `Idle` if no thread is ready.
    #[verifier::spinoff_prover]
    #[verifier::rlimit(40)]
    pub fn run(&mut self) -> (r: RunOneOutcome<'_, TExtr, TPud, TTud>)
        requires
            old(self).wf(),
        ensures
            r is Idle <==> !some_ready(old(self).readiness()),
            !(r is Idle) ==> exists|step: Step, k: int, j: int|
                #![trigger first_ready_from(old(self).readiness(), old(self).cursor(), k, j), run_matches(step, j, old(self).tokens(), r)]
                first_ready_from(old(self).readiness(), old(self).cursor(), k, j) && run_matches(
                    step,
                    j,
                    old(self).tokens(),
                    r,
                ) && (step matches Step::Interrupted { id, .. } ==> id < old(self).tokens().len()),
            r is Idle ==> {
                &&& final(self).wf()
                &&& final(self).process_ids() == old(self).process_ids()
                &&& final(self).thread_ids() == old(self).thread_ids()
                &&& final(self).readiness() == old(self).readiness()
                &&& final(self).cursor() == old(self).cursor()
                &&& final(self).next_pid() == old(self).next_pid()
                &&& final(self).next_tid() == old(self).next_tid()
                &&& final(self).host_functions() == old(self).host_functions()
                &&& final(self).tokens() == old(self).tokens()
                &&& final(self).pending_values() == old(self).pending_values()
                &&& final(self).process_user_datas() == old(self).process_user_datas()
                &&& final(self).thread_user_datas() == old(self).thread_user_datas()
            },
            r matches RunOneOutcome::ProcessFinished { pid, user_data, .. } ==> exists|k: int|
                0 <= k < old(self).process_ids().len() && #[trigger] old(self).process_ids()[k] == pid
                    && user_data == old(self).process_user_datas()[k],
            !(r is Interrupted) ==> final(self).tokens() == old(self).tokens(),
            final(self).host_functions() == old(self).host_functions(),
            r matches RunOneOutcome::ProcessFinished { pid, .. } ==> exists|k: int|
                {
                    &&& 0 <= k < old(self).process_ids().len()
                    &&& #[trigger] old(self).process_ids()[k] == pid
                    &&& final(self).readiness() == old(self).readiness().remove(k)
                    &&& final(self).pending_values() == old(self).pending_values().remove(k)
                    &&& final(self).process_user_datas() == old(self).process_user_datas().remove(k)
                    &&& final(self).thread_user_datas() == old(self).thread_user_datas().remove(k)
                },
            r matches RunOneOutcome::ThreadFinished { process, .. } ==> {
                &&& final(self).table() == *final(process.core)
                &&& (*process.core).host_count() == old(self).table().host_count()
                &&& process.process_user_datas() == old(self).process_user_datas()
                &&& forall|a: int|
                    0 <= a < old(self).process_ids().len() && a != process.position() ==> {
                        &&& #[trigger] process.pending_values()[a] == old(self).pending_values()[a]
                        &&& process.thread_user_datas()[a] == old(self).thread_user_datas()[a]
                        &&& process.readiness()[a] == old(self).readiness()[a]
                    }
            },
            r matches RunOneOutcome::Interrupted { thread, id, .. } ==> {
                &&& final(self).table() == *final(thread.core)
                &&& (*thread.core).host_count() == old(self).table().host_count()
                &&& exists|i: int| 0 <= i < old(self).tokens().len() && #[trigger] old(self).tokens()[i] == *id
                    && final(self).tokens() == old(self).tokens().update(i, *final(id))
                &&& thread.process_user_datas() == old(self).process_user_datas()
                &&& thread.thread_user_datas() == old(self).thread_user_datas()
                &&& thread.pending_values() == old(self).pending_values().update(
                    thread.process_position(),
                    old(self).pending_values()[thread.process_position()].update(thread.thread_position(), None),
                )
            },
            r matches RunOneOutcome::ProcessFinished { pid, dead_threads, .. } ==> {
                &&& final(self).wf()
                &&& exists|k: int|
                    {
                        &&& 0 <= k < old(self).process_ids().len()
                        &&& #[trigger] old(self).process_ids()[k] == pid
                        &&& final(self).process_ids() == old(self).process_ids().remove(k)
                        &&& final(self).thread_ids() == old(self).thread_ids().remove(k)
                        &&& dead_threads@.map_values(|d: (ThreadId, TTud)| d.0) == old(self).thread_ids()[k]
                        &&& dead_threads@.map_values(|d: (ThreadId, TTud)| d.1) == old(self).thread_user_datas()[k]
                        &&& exists|j: int| first_ready_from(old(self).readiness(), old(self).cursor(), k, j)
                        &&& final(self).cursor() == k + 1
                    }
                &&& !final(self).process_ids().contains(pid)
                &&& final(self).next_pid() == old(self).next_pid()
                &&& final(self).next_tid() == old(self).next_tid()
            },
            r matches RunOneOutcome::ThreadFinished { thread_id, process, user_data, .. } ==> {
                &&& process.wf()
                &&& process.process_ids() == old(self).process_ids()
                &&& exists|j: int|
                    {
                        &&& 0 < j < old(self).thread_ids()[process.position()].len()
                        &&& #[trigger] old(self).thread_ids()[process.position()][j] == thread_id
                        &&& process.thread_ids() == old(self).thread_ids().update(
                            process.position(),
                            old(self).thread_ids()[process.position()].remove(j),
                        )
                        &&& first_ready_from(old(self).readiness(), old(self).cursor(), process.position(), j)
                        &&& user_data == old(self).thread_user_datas()[process.position()][j]
                    }
                &&& !has_thread_id(process.thread_ids(), thread_id)
                &&& final(self).cursor() == process.position() + 1
                &&& process.next_pid() == old(self).next_pid()
                &&& process.next_tid() == old(self).next_tid()
            },
            r matches RunOneOutcome::Interrupted { thread, .. } ==> {
                &&& thread.wf()
                &&& thread.process_ids() == old(self).process_ids()
                &&& thread.thread_ids() == old(self).thread_ids()
                &&& first_ready_from(
                    old(self).readiness(),
                    old(self).cursor(),
                    thread.process_position(),
                    thread.thread_position(),
                )
                &&& thread.readiness() == old(self).readiness().update(
                    thread.process_position(),
                    old(self).readiness()[thread.process_position()].update(thread.thread_position(), false),
                )
                &&& thread.next_pid() == old(self).next_pid()
                &&& thread.next_tid() == old(self).next_tid()
                &&& final(self).cursor() == thread.process_position() + 1
            },
    {
        proof {
            self.core.lemma_views();
        }
        let (k, j) = match self.core.find_ready(self.next_run) {
            None => {
                proof {
                    if some_ready(old(self).readiness()) {
                        let (a, b) = choose|a: int, b: int|
                            0 <= a < old(self).readiness().len() && 0 <= b < old(self).readiness()[a].len()
                                && #[trigger] old(self).readiness()[a][b];
                        assert(self.core.valid(a, b));
                    }
                }
                return RunOneOutcome::Idle;
            },
            Some(found) => found,
        };
        proof {
            assert(old(self).readiness()[k as int][j as int]);
        }
        let n = self.core.processes.len();
        assert(k < n);
        self.next_run = k + 1;
        let stepped = self.core.run_thread(k, j);
        let ghost cs = stepped;
        let ghost st = choose|step: Step| #[trigger] core_step_matches(step, j as int, cs);
        proof {
            assert(first_ready_from(old(self).readiness(), old(self).cursor(), k as int, j as int));
        }
        match stepped {
            CoreStep::ProcessFinished { pid, user_data, dead_threads, outcome } => {
                proof {
                    lemma_removed_absent(old(self).core.pids(), old(self).core.pid_pool.next_id(), k as int);
                    assert(old(self).process_ids()[k as int] == pid);
                    assert(first_ready_from(old(self).readiness(), old(self).cursor(), k as int, j as int));
                    old(self).core.lemma_views();
                    assert(user_data == old(self).process_user_datas()[k as int]);
                }
                let r = RunOneOutcome::ProcessFinished { pid, user_data, dead_threads, outcome };
                proof {
                    assert(run_matches(st, j as int, old(self).tokens(), r));
                }
                r
            },
            CoreStep::ThreadFinished { thread_id, user_data, value } => {
                let process = ProcessesCollectionProc { core: &mut self.core, index: k };
                proof {
                    lemma_removed_inner_absent(old(self).core.tids(), k as int, j as int);
                    assert(old(self).thread_ids()[process.position()][j as int] == thread_id);
                    assert(user_data == old(self).thread_user_datas()[process.position()][j as int]);
                    old(self).core.lemma_views();
                    assert(0 <= j < old(self).thread_ids()[process.position()].len());
                    assert(process.thread_ids() == old(self).thread_ids().update(
                        process.position(),
                        old(self).thread_ids()[process.position()].remove(j as int),
                    ));
                    assert(first_ready_from(old(self).readiness(), old(self).cursor(), process.position(), j as int));
                    assert(0 < j);
                    let jj = j as int;
                    assert({
                        &&& 0 < jj < old(self).thread_ids()[process.position()].len()
                        &&& old(self).thread_ids()[process.position()][jj] == thread_id
                        &&& process.thread_ids() == old(self).thread_ids().update(
                            process.position(),
                            old(self).thread_ids()[process.position()].remove(jj),
                        )
                        &&& first_ready_from(old(self).readiness(), old(self).cursor(), process.position(), jj)
                        &&& user_data == old(self).thread_user_datas()[process.position()][jj]
                    });
                    assert(exists|j2: int|
                        {
                            &&& 0 < j2 < old(self).thread_ids()[process.position()].len()
                            &&& #[trigger] old(self).thread_ids()[process.position()][j2] == thread_id
                            &&& process.thread_ids() == old(self).thread_ids().update(
                                process.position(),
                                old(self).thread_ids()[process.position()].remove(j2),
                            )
                            &&& first_ready_from(old(self).readiness(), old(self).cursor(), process.position(), j2)
                            &&& user_data == old(self).thread_user_datas()[process.position()][j2]
                        });
                    assert(!has_thread_id(process.thread_ids(), thread_id));
                    assert(process.wf());
                }
                let r = RunOneOutcome::ThreadFinished { thread_id, process, user_data, value };
                proof {
                    assert(run_matches(st, j as int, old(self).tokens(), r));
                }
                r
            },
            CoreStep::Interrupted { id, params } => {
                if id < self.extrinsics.len() {
                    let r = RunOneOutcome::Interrupted {
                        thread: ProcessesCollectionThread { core: &mut self.core, process_index: k, thread_index: j },
                        id: &mut self.extrinsics[id],
                        params,
                    };
                    proof {
                        assert(run_matches(st, j as int, old(self).tokens(), r));
                    }
                    r
                } else {
                    let ghost mid = self.core;
                    let p = self.core.take_process(k);
                    let ghost psm = p.state_machine;
                    let dead_threads = dead_threads_of(p.state_machine.into_user_datas());
                    proof {
                        mid.lemma_views();
                        old(self).core.lemma_views();
                        assert(psm == mid.processes@[k as int].state_machine);
                        let u = dead_threads@.map_values(|d: (ThreadId, TTud)| d.1);
                        assert forall|b: int| 0 <= b < u.len() implies #[trigger] u[b] == mid.tuds()[k as int][b] by {
                            assert(u[b] == psm.user_datas()[b].user_data);
                        }
                        assert(u =~= old(self).thread_user_datas()[k as int]);
                        assert(p.user_data == old(self).process_user_datas()[k as int]);
                        lemma_removed_absent(old(self).core.pids(), old(self).core.pid_pool.next_id(), k as int);
                        let d = dead_threads@.map_values(|d: (ThreadId, TTud)| d.0);
                        assert(d =~= old(self).core.tids()[k as int]);
                        assert(old(self).process_ids()[k as int] == p.pid);
                        assert(first_ready_from(old(self).readiness(), old(self).cursor(), k as int, j as int));
                    }
                    let r = RunOneOutcome::ProcessFinished {
                        pid: p.pid,
                        user_data: p.user_data,
                        dead_threads,
                        outcome: Err(ExecError::UnknownHostCall),
                    };
                    proof {
                        assert(run_matches(st, j as int, old(self).tokens(), r));
                    }
                    r
                }
            },
        }
    }

    /// Identifier of each process.
    pub fn pids(&self) -> (r: Vec<Pid>)
        requires
            self.wf(),
        ensures
            r@ == self.process_ids(),
    {
        proof {
            self.core.lemma_views();
        }
        let mut r: Vec<Pid> = Vec::new();
        let mut k: usize = 0;
        while k < self.core.processes.len()
            invariant
                0 <= k <= self.core.processes@.len(),
                self.core.pids().len() == self.core.processes@.len(),
                r@ == self.core.pids().subrange(0, k as int),
            decreases self.core.processes.len() - k,
        {
            r.push(self.core.pid_at(k));
            k = k + 1;
        }
        assert(r@ =~= self.process_ids());
        r
    }

    /// Access to the process with identifier `pid`, if it exists.
    pub fn process_by_id(&mut self, pid: Pid) -> (r: Option<ProcessesCollectionProc<'_, TPud, TTud>>)
        requires
            old(self).wf(),
        ensures
            r is Some <==> old(self).process_ids().contains(pid),
            r matches Some(p) ==> {
                &&& p.wf()
                &&& p.spec_pid() == pid
                &&& p.process_ids() == old(self).process_ids()
                &&& p.thread_ids() == old(self).thread_ids()
                &&& p.readiness() == old(self).readiness()
            },
            r is None ==> *final(self) == *old(self),
            r matches Some(p) ==> {
                &&& *p.core == old(self).table()
                &&& final(self).table() == *final(p.core)
                &&& final(self).host_functions() == old(self).host_functions()
                &&& final(self).tokens() == old(self).tokens()
                &&& final(self).cursor() == old(self).cursor()
            },
    {
        match self.core.position_of(pid) {
            Some(k) => Some(ProcessesCollectionProc { core: &mut self.core, index: k }),
            None => None,
        }
    }

    /// Access to the thread with identifier `tid`, if it exists.
    pub fn thread_by_id(&mut self, tid: ThreadId) -> (r: Option<ProcessesCollectionThread<'_, TPud, TTud>>)
        requires
            old(self).wf(),
        ensures
            r is Some <==> has_thread_id(old(self).thread_ids(), tid),
            r matches Some(t) ==> {
                &&& t.wf()
                &&& t.spec_tid() == tid
                &&& t.process_ids() == old(self).process_ids()
                &&& t.thread_ids() == old(self).thread_ids()
                &&& t.readiness() == old(self).readiness()
            },
            r is None ==> *final(self) == *old(self),
            r matches Some(t) ==> {
                &&& *t.core == old(self).table()
                &&& final(self).table() == *final(t.core)
                &&& final(self).host_functions() == old(self).host_functions()
                &&& final(self).tokens() == old(self).tokens()
                &&& final(self).cursor() == old(self).cursor()
                &&& t.spec_pid() == old(self).process_ids()[t.process_position()]
            },
    {
        proof {
            self.core.lemma_views();
        }
        match self.core.position_of_thread(tid) {
            Some((k, j)) => Some(ProcessesCollectionThread { core: &mut self.core, process_index: k, thread_index: j }),
            None => {
                proof {
                    if has_thread_id(old(self).thread_ids(), tid) {
                        let (a, b) = choose|a: int, b: int|
                            0 <= a < old(self).thread_ids().len() && 0 <= b < old(self).thread_ids()[a].len()
                                && #[trigger] old(self).thread_ids()[a][b] == tid;
                        assert(self.core.valid(a, b));
                    }
                }
                None
            },
        }
    }
}

impl<'a, TPud, TTud> ProcessesCollectionProc<'a, TPud, TTud> {
    /// For each thread of the collection, the value it holds to run with.
    pub open spec fn pending_values(&self) -> Seq<Seq<Option<Option<WasmValue>>>> {
        (*self.core).pendings()
    }

    /// Bytes of the memory of each process of the collection.
    pub open spec fn memories(&self) -> Seq<Seq<u8>> {
        (*self.core).memories()
    }

    pub closed spec fn wf(&self) -> bool {
        self.core.wf() && self.index < self.core.processes@.len()
    }

    /// Position of the process in `process_ids`.
    pub closed spec fn position(&self) -> int {
        self.index as int
    }

    /// Bytes of the process's memory.
    pub closed spec fn memory(&self) -> Seq<u8> {
        self.core.processes@[self.index as int].state_machine.memory()
    }

    /// User data of each process of the collection.
    pub open spec fn process_user_datas(&self) -> Seq<TPud> {
        (*self.core).puds()
    }

    /// User data of the threads of each process of the collection.
    pub open spec fn thread_user_datas(&self) -> Seq<Seq<TTud>> {
        (*self.core).tuds()
    }

    pub closed spec fn spec_pid(&self) -> Pid {
        self.core.pids()[self.index as int]
    }

    /// What a process handle designates: its process sits at its position, and its identifier
    /// is the one found there, not zero.
    pub proof fn lemma_handle_views(&self)
        requires
            self.wf(),
        ensures
            0 <= self.position() < self.process_ids().len(),
            self.spec_pid() == self.process_ids()[self.position()],
            self.spec_pid() >= 1,
            forall|j: int| 0 <= j < self.thread_ids()[self.position()].len() ==> #[trigger] self.thread_ids()[self.position()][j] >= 1,
    {
        self.core.lemma_views();
    }

    /// Identifier of each process of the collection.
    pub open spec fn process_ids(&self) -> Seq<Pid> {
        (*self.core).pids()
    }

    /// Identifiers of the threads of each process of the collection.
    pub open spec fn thread_ids(&self) -> Seq<Seq<ThreadId>> {
        (*self.core).tids()
    }

    /// Readiness of each thread of the collection.
    pub open spec fn readiness(&self) -> Seq<Seq<bool>> {
        (*self.core).readiness()
    }

    pub open spec fn next_pid(&self) -> nat {
        (*self.core).next_pid()
    }

    pub open spec fn next_tid(&self) -> nat {
        (*self.core).next_tid()
    }

    /// Identifier of the process.
    #[verifier::when_used_as_spec(spec_pid)]
    pub fn pid(&self) -> (r: Pid)
        requires
            self.wf(),
        ensures
            r == self.spec_pid(),
    {
        self.core.pid_at(self.index)
    }

    /// User data of the process.
    pub fn user_data(&self) -> (r: &TPud)
        requires
            self.wf(),
        ensures
            *r == self.process_user_datas()[self.position()],
    {
        proof {
            self.core.lemma_views();
        }
        self.core.process_user_data(self.index)
    }

    /// Number of threads of the process.
    pub fn num_threads(&self) -> (r: usize)
        requires
            self.wf(),
        ensures
            r == self.thread_ids()[self.position()].len(),
    {
        self.core.thread_count(self.index)
    }

    /// Starts a thread at the function that entry `fn_index` of the process's function table
    /// holds, called with `params`. The thread is ready to run.
    pub fn start_thread(self, fn_index: u32, params: Vec<WasmValue>, user_data: TTud) -> (r: Result<
        ProcessesCollectionThread<'a, TPud, TTud>,
        StartErr,
    >)
        requires
            self.wf(),
            self.next_tid() < u64::MAX,
        ensures
            r is Err ==> (*final(self.core)).host_count() == (*old(self.core)).host_count(),
            r matches Ok(t) ==> (*t.core).host_count() == (*old(self.core)).host_count(),
            r matches Ok(t) ==> {
                &&& t.wf()
                &&& t.spec_tid() == self.next_tid()
                &&& t.process_position() == self.position()
                &&& t.process_ids() == self.process_ids()
                &&& t.thread_ids() == self.thread_ids().update(
                    self.position(),
                    self.thread_ids()[self.position()].push(self.next_tid() as ThreadId),
                )
                &&& t.readiness() == self.readiness().update(
                    self.position(),
                    self.readiness()[self.position()].push(true),
                )
                &&& t.next_tid() == self.next_tid() + 1
                &&& t.spec_tid() >= 1
                &&& t.process_user_datas() == self.process_user_datas()
                &&& t.thread_user_datas() == self.thread_user_datas().update(
                    self.position(),
                    self.thread_user_datas()[self.position()].push(user_data),
                )
            },
            r != Err::<ProcessesCollectionThread<'a, TPud, TTud>, StartErr>(StartErr::Poisoned),
            r matches Ok(t) ==> {
                &&& *final(t.core) == *final(self.core)
                &&& t.thread_position() == self.thread_ids()[self.position()].len()
            },
            r is Err ==> {
                &&& (*final(self.core)).wf()
                &&& (*final(self.core)).pids() == self.process_ids()
                &&& (*final(self.core)).tids() == self.thread_ids()
                &&& (*final(self.core)).readiness() == self.readiness()
                &&& (*final(self.core)).puds() == self.process_user_datas()
                &&& (*final(self.core)).tuds() == self.thread_user_datas()
                &&& (*final(self.core)).next_tid() == self.next_tid() + 1
            },
    {
        let ProcessesCollectionProc { core, index } = self;
        match core.start_thread(index, fn_index, params, user_data) {
            Ok(j) => {
                proof {
                    core.lemma_views();
                    self.core.tid_pool.lemma_positive();
                }
                Ok(ProcessesCollectionThread { core, process_index: index, thread_index: j })
            },
            Err(e) => Err(e),
        }
    }

    /// The first thread of the process, whose end ends the process.
    pub fn main_thread(self) -> (r: ProcessesCollectionThread<'a, TPud, TTud>)
        requires
            self.wf(),
            self.thread_ids()[self.position()].len() > 0,
        ensures
            r.wf(),
            r.process_position() == self.position(),
            r.thread_position() == 0,
            r.spec_tid() == self.thread_ids()[self.position()][0],
            r.thread_ids() == self.thread_ids(),
            r.readiness() == self.readiness(),
            *r.core == *old(self.core),
            *final(r.core) == *final(self.core),
    {
        proof {
            self.core.lemma_views();
        }
        ProcessesCollectionThread { core: self.core, process_index: self.index, thread_index: 0 }
    }

    /// Copies `size` bytes of the process's memory at `offset`.
    pub fn read_memory(&mut self, offset: u32, size: u32) -> (r: Result<Vec<u8>, ()>)
        requires
            old(self).wf(),
        ensures
            (*final(self).core).host_count() == (*old(self).core).host_count(),
            *final(self) == *old(self),
            r is Err <==> offset + size > old(self).memory().len(),
            r matches Ok(v) ==> v@ == old(self).memory().subrange(offset as int, offset + size),
    {
        self.core.read_memory(self.index, offset, size)
    }

    /// Writes `value` into the process's memory at `offset`.
    pub fn write_memory(&mut self, offset: u32, value: &[u8]) -> (r: Result<(), ()>)
        requires
            old(self).wf(),
        ensures
            (*final(self).core).host_count() == (*old(self).core).host_count(),
            final(self).wf(),
            final(self).position() == old(self).position(),
            final(self).process_ids() == old(self).process_ids(),
            final(self).thread_ids() == old(self).thread_ids(),
            final(self).readiness() == old(self).readiness(),
            r is Err <==> offset + value@.len() > old(self).memory().len(),
            r is Ok ==> final(self).memory() == memory_written(old(self).memory(), offset as int, value@),
            r is Err ==> final(self).memory() == old(self).memory(),
    {
        self.core.write_memory(self.index, offset, value)
    }

    /// Ends the process and returns its user data and the identifier and user data of each of
    /// its threads, the first thread first.
    pub fn abort(self) -> (r: (TPud, Vec<(ThreadId, TTud)>))
        requires
            self.wf(),
        ensures
            (*final(self.core)).host_count() == (*old(self.core)).host_count(),
            r.0 == self.process_user_datas()[self.position()],
            r.1@.map_values(|d: (ThreadId, TTud)| d.0) == self.thread_ids()[self.position()],
            r.1@.map_values(|d: (ThreadId, TTud)| d.1) == self.thread_user_datas()[self.position()],
            (*final(self.core)).wf(),
            (*final(self.core)).pids() == self.process_ids().remove(self.position()),
            (*final(self.core)).tids() == self.thread_ids().remove(self.position()),
            (*final(self.core)).readiness() == self.readiness().remove(self.position()),
            (*final(self.core)).pendings() == self.pending_values().remove(self.position()),
            (*final(self.core)).puds() == self.process_user_datas().remove(self.position()),
            (*final(self.core)).tuds() == self.thread_user_datas().remove(self.position()),
            (*final(self.core)).next_pid() == self.next_pid(),
            (*final(self.core)).next_tid() == self.next_tid(),
    {
        let ProcessesCollectionProc { core, index } = self;
        proof {
            core.lemma_views();
        }
        let p = core.take_process(index);
        let ghost psm = p.state_machine;
        let dead_threads = dead_threads_of(p.state_machine.into_user_datas());
        proof {
            assert(dead_threads@.map_values(|d: (ThreadId, TTud)| d.0) =~= self.thread_ids()[self.position()]);
            let u = dead_threads@.map_values(|d: (ThreadId, TTud)| d.1);
            assert forall|b: int| 0 <= b < u.len() implies #[trigger] u[b] == self.thread_user_datas()[self.position()][b] by {
                assert(u[b] == psm.user_datas()[b].user_data);
            }
            assert(u =~= self.thread_user_datas()[self.position()]);
        }
        (p.user_data, dead_threads)
    }
}

impl<'a, TPud, TTud> ProcessesCollectionThread<'a, TPud, TTud> {
    /// For each thread of the collection, the value it holds to run with.
    pub open spec fn pending_values(&self) -> Seq<Seq<Option<Option<WasmValue>>>> {
        (*self.core).pendings()
    }

    /// Bytes of the memory of each process of the collection.
    pub open spec fn memories(&self) -> Seq<Seq<u8>> {
        (*self.core).memories()
    }

    pub closed spec fn wf(&self) -> bool {
        self.core.wf() && self.core.valid(self.process_index as int, self.thread_index as int)
    }

    /// Position of the thread's process in `process_ids`.
    pub closed spec fn process_position(&self) -> int {
        self.process_index as int
    }

    /// User data of each process of the collection.
    pub open spec fn process_user_datas(&self) -> Seq<TPud> {
        (*self.core).puds()
    }

    /// User data of the threads of each process of the collection.
    pub open spec fn thread_user_datas(&self) -> Seq<Seq<TTud>> {
        (*self.core).tuds()
    }

    /// Bytes of the memory of the thread's process.
    pub closed spec fn memory(&self) -> Seq<u8> {
        self.core.processes@[self.process_index as int].state_machine.memory()
    }

    /// Position of the thread among the threads of its process.
    pub closed spec fn thread_position(&self) -> int {
        self.thread_index as int
    }

    pub closed spec fn spec_tid(&self) -> ThreadId {
        self.core.tids()[self.process_index as int][self.thread_index as int]
    }

    pub closed spec fn spec_pid(&self) -> Pid {
        self.core.pids()[self.process_index as int]
    }

    /// The value the thread holds to run with: `None` if it waits for `resume`.
    pub closed spec fn spec_pending(&self) -> Option<Option<WasmValue>> {
        self.core.pending(self.process_index as int, self.thread_index as int)
    }

    /// What a thread handle designates: its thread sits at its positions, and its identifiers
    /// are those found there, neither of them zero.
    pub proof fn lemma_handle_views(&self)
        requires
            self.wf(),
        ensures
            0 <= self.process_position() < self.process_ids().len(),
            0 <= self.thread_position() < self.thread_ids()[self.process_position()].len(),
            self.spec_pid() == self.process_ids()[self.process_position()],
            self.spec_tid() == self.thread_ids()[self.process_position()][self.thread_position()],
            self.spec_pid() >= 1,
            self.spec_tid() >= 1,
            self.spec_is_ready() == self.readiness()[self.process_position()][self.thread_position()],
    {
        self.core.lemma_views();
    }

    /// The thread holds a value to run with.
    pub closed spec fn spec_is_ready(&self) -> bool {
        self.core.ready(self.process_index as int, self.thread_index as int)
    }

    /// `value` is what the thread expects to be handed.
    pub closed spec fn spec_accepts(&self, value: Option<WasmValue>) -> bool {
        value_fits(
            self.core.processes@[self.process_index as int].state_machine.expected_results(
                self.thread_index as int,
            ),
            value,
        )
    }

    /// Identifier of each process of the collection.
    pub open spec fn process_ids(&self) -> Seq<Pid> {
        (*self.core).pids()
    }

    /// Identifiers of the threads of each process of the collection.
    pub open spec fn thread_ids(&self) -> Seq<Seq<ThreadId>> {
        (*self.core).tids()
    }

    /// Readiness of each thread of the collection.
    pub open spec fn readiness(&self) -> Seq<Seq<bool>> {
        (*self.core).readiness()
    }

    pub open spec fn next_pid(&self) -> nat {
        (*self.core).next_pid()
    }

    pub open spec fn next_tid(&self) -> nat {
        (*self.core).next_tid()
    }

    /// Identifier of the thread, unique within the collection.
    pub fn tid(&self) -> (r: ThreadId)
        requires
            self.wf(),
        ensures
            r == self.spec_tid(),
    {
        self.core.tid_at(self.process_index, self.thread_index)
    }

    /// Identifier of the thread's process.
    pub fn pid(&self) -> (r: Pid)
        requires
            self.wf(),
        ensures
            r == self.spec_pid(),
    {
        proof {
            self.core.lemma_views();
        }
        self.core.pid_at(self.process_index)
    }

    /// The next thread of the same process, if any.
    pub fn next_thread(self) -> (r: Option<ProcessesCollectionThread<'a, TPud, TTud>>)
        requires
            self.wf(),
        ensures
            r is Some <==> self.thread_position() + 1 < self.thread_ids()[self.process_position()].len(),
            r matches Some(t) ==> {
                &&& t.wf()
                &&& t.process_position() == self.process_position()
                &&& t.thread_position() == self.thread_position() + 1
                &&& t.thread_ids() == self.thread_ids()
                &&& *t.core == *old(self.core)
                &&& *final(t.core) == *final(self.core)
            },
            r is None ==> *final(self.core) == *old(self.core),
    {
        proof {
            self.core.lemma_views();
        }
        let ProcessesCollectionThread { core, process_index, thread_index } = self;
        let count = core.thread_count(process_index);
        if thread_index < count - 1 {
            Some(ProcessesCollectionThread { core, process_index, thread_index: thread_index + 1 })
        } else {
            None
        }
    }

    /// User data of the thread's process.
    pub fn process_user_data(&mut self) -> (r: &mut TPud)
        requires
            old(self).wf(),
        ensures
            (*final(self).core).host_count() == (*old(self).core).host_count(),
            final(self).wf(),
            final(self).process_position() == old(self).process_position(),
            final(self).thread_position() == old(self).thread_position(),
            final(self).thread_ids() == old(self).thread_ids(),
            final(self).readiness() == old(self).readiness(),
    {
        self.core.process_user_data_mut(self.process_index)
    }

    /// User data of the thread.
    pub fn user_data(&mut self) -> (r: &mut TTud)
        requires
            old(self).wf(),
        ensures
            (*final(self).core).host_count() == (*old(self).core).host_count(),
            final(self).wf(),
            final(self).process_position() == old(self).process_position(),
            final(self).thread_position() == old(self).thread_position(),
            final(self).thread_ids() == old(self).thread_ids(),
            final(self).readiness() == old(self).readiness(),
    {
        self.core.thread_user_data_mut(self.process_index, self.thread_index)
    }

    /// Returns true if the thread holds a value to run with.
    pub fn is_ready(&self) -> (r: bool)
        requires
            self.wf(),
        ensures
            r == self.spec_is_ready(),
    {
        self.core.is_ready(self.process_index, self.thread_index)
    }

    /// Returns true if `value` is what the thread expects: the result of the host function call
    /// that it waits on.
    pub fn accepts(&self, value: &Option<WasmValue>) -> (r: bool)
        requires
            self.wf(),
        ensures
            !self.spec_is_ready() ==> r == self.spec_accepts(*value),
    {
        self.core.accepts(self.process_index, self.thread_index, value)
    }

    /// Hands `value` to the thread as the result of the host function call that it waits on.
    /// The thread becomes ready to run.
    pub fn resume(&mut self, value: Option<WasmValue>)
        requires
            old(self).wf(),
            !old(self).spec_is_ready(),
            old(self).spec_accepts(value),
        ensures
            (*final(self).core).host_count() == (*old(self).core).host_count(),
            final(self).wf(),
            final(self).spec_is_ready(),
            final(self).spec_pending() == Some(value),
            final(self).spec_tid() == old(self).spec_tid(),
            final(self).process_ids() == old(self).process_ids(),
            final(self).thread_ids() == old(self).thread_ids(),
            final(self).readiness() == old(self).readiness().update(
                old(self).process_position(),
                old(self).readiness()[old(self).process_position()].update(old(self).thread_position(), true),
            ),
    {
        self.core.resume(self.process_index, self.thread_index, value);
        proof {
            self.core.lemma_views();
        }
    }

    /// Copies `size` bytes of the process's memory at `offset`.
    pub fn read_memory(&mut self, offset: u32, size: u32) -> (r: Result<Vec<u8>, ()>)
        requires
            old(self).wf(),
        ensures
            (*final(self).core).host_count() == (*old(self).core).host_count(),
            *final(self) == *old(self),
            r is Err <==> offset + size > old(self).memory().len(),
            r matches Ok(v) ==> v@ == old(self).memory().subrange(offset as int, offset + size),
    {
        self.core.read_memory(self.process_index, offset, size)
    }

    /// Writes `value` into the process's memory at `offset`.
    pub fn write_memory(&mut self, offset: u32, value: &[u8]) -> (r: Result<(), ()>)
        requires
            old(self).wf(),
        ensures
            (*final(self).core).host_count() == (*old(self).core).host_count(),
            final(self).wf(),
            final(self).thread_ids() == old(self).thread_ids(),
            final(self).readiness() == old(self).readiness(),
            r is Err <==> offset + value@.len() > old(self).memory().len(),
            r is Ok ==> final(self).memory() == memory_written(old(self).memory(), offset as int, value@),
            r is Err ==> final(self).memory() == old(self).memory(),
    {
        self.core.write_memory(self.process_index, offset, value)
    }
}

} // verus!
