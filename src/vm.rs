//! State machine of one process: a WebAssembly instance and the threads that run in it.

use crate::engine::{
    compile, engine_values, export_kind_in, func_type_signature, module_imports, new_engine,
    AddThread, CompiledModule, EngineInstance, ExportKind, HostCallSlot, Linking, RawStep,
};
pub use crate::engine::Phase;
use crate::interface::{interface_of_module_name, InterfaceId};
use crate::signature::{
    copy_types, fits, optional_type, type_of_optional, value_fits, EngineSignature, ValueType,
    WasmValue,
};
use vstd::prelude::*;

verus! {

/// Name of the export that holds the linear memory of a process.
pub const MEMORY_EXPORT: &'static str = "memory";

/// Name of the export where the main thread starts.
pub const MAIN_EXPORT: &'static str = "main";

/// Name of the export that holds the function table, through which threads are started.
pub const FUNCTION_TABLE_EXPORT: &'static str = "__indirect_function_table";

/// Number of bytes in a page of linear memory.
pub const PAGE_SIZE: u64 = 65536;

/// One import of a module.
struct Import {
    module: String,
    name: String,
    /// For a function import, its signature, where all its types are numeric.
    func: Option<Option<EngineSignature>>,
}

/// A parsed and validated WebAssembly module, with the list of what it imports.
pub struct WasmModule {
    inner: CompiledModule,
    imports: Vec<Import>,
}

impl WasmModule {
    /// The kind of the export named `name`: `Missing` if there is none.
    pub closed spec fn export_kind(&self, name: Seq<char>) -> ExportKind {
        export_kind_in(self.inner.exports(), name)
    }

    /// Number of imports of the module.
    pub closed spec fn import_count(&self) -> nat {
        self.imports@.len()
    }

    /// Module name of the import at `k`.
    pub closed spec fn import_module(&self, k: int) -> Seq<char> {
        self.imports@[k].module@
    }

    /// Field name of the import at `k`.
    pub closed spec fn import_name(&self, k: int) -> Seq<char> {
        self.imports@[k].name@
    }

    /// The import at `k` is a function.
    pub closed spec fn import_is_function(&self, k: int) -> bool {
        self.imports@[k].func is Some
    }

    /// Parameter and result types of the import at `k`, if it is a function whose types are all
    /// numeric.
    pub closed spec fn import_signature(&self, k: int) -> Option<(Seq<ValueType>, Seq<ValueType>)> {
        match self.imports@[k].func {
            Some(Some(sig)) => Some((sig.params@, sig.results@)),
            _ => None,
        }
    }

    /// Parses a binary WebAssembly module.
    pub fn from_bytes(bytes: &[u8]) -> (r: Result<WasmModule, wasmi::Error>) {
        let engine = new_engine();
        let inner = match compile(&engine, bytes) {
            Ok(m) => m,
            Err(e) => return Err(e),
        };
        let mut raw = module_imports(&inner);
        let mut imports: Vec<Import> = Vec::new();
        while raw.len() > 0
            decreases raw.len(),
        {
            let (module, name, ty) = raw.remove(0);
            let func = match ty {
                Some(t) => Some(func_type_signature(&t)),
                None => None,
            };
            imports.push(Import { module, name, func });
        }
        Ok(WasmModule { inner, imports })
    }
}

/// `resolve` may accept the import at `k` of `module`, a function with numeric types.
pub open spec fn import_accepted<F: Fn(&InterfaceId, &str, &EngineSignature) -> Result<usize, ()>>(
    module: &WasmModule,
    k: int,
    resolve: F,
) -> bool {
    &&& module.import_is_function(k)
    &&& module.import_signature(k) is Some
    &&& exists|id: InterfaceId, name: &str, sig: EngineSignature, index: usize|
        #![trigger resolve.ensures((&id, name, &sig), Ok::<usize, ()>(index))]
        id@ == interface_of_module_name(module.import_module(k)) && name@ == module.import_name(k)
            && module.import_signature(k) == Some((sig.params@, sig.results@)) && resolve.ensures(
            (&id, name, &sig),
            Ok::<usize, ()>(index),
        )
}

/// `resolve` may assign `index` to some import of `module`, a function with numeric types.
pub open spec fn resolver_index<F: Fn(&InterfaceId, &str, &EngineSignature) -> Result<usize, ()>>(
    module: &WasmModule,
    resolve: F,
    index: usize,
) -> bool {
    exists|k: int, id: InterfaceId, name: &str, sig: EngineSignature|
        #![trigger resolve.ensures((&id, name, &sig), Ok::<usize, ()>(index)), module.import_name(k)]
        0 <= k < module.import_count() && id@ == interface_of_module_name(module.import_module(k))
            && name@ == module.import_name(k) && module.import_signature(k) == Some(
            (sig.params@, sig.results@),
        ) && resolve.ensures((&id, name, &sig), Ok::<usize, ()>(index))
}

/// `resolve` may refuse the import at `k` of `module`, a function with numeric types.
pub open spec fn import_refusable<F: Fn(&InterfaceId, &str, &EngineSignature) -> Result<usize, ()>>(
    module: &WasmModule,
    k: int,
    resolve: F,
) -> bool {
    exists|id: InterfaceId, name: &str, sig: EngineSignature, r: Result<usize, ()>|
        #![trigger resolve.ensures((&id, name, &sig), r)]
        id@ == interface_of_module_name(module.import_module(k)) && name@ == module.import_name(k)
            && module.import_signature(k) == Some((sig.params@, sig.results@)) && resolve.ensures(
            (&id, name, &sig),
            r,
        ) && r is Err
}

/// Error that can happen when creating a state machine.
#[derive(Debug)]
pub enum NewErr {
    /// The module could not be instantiated.
    Interpreter(InstantiationError),
    /// The module exports a `memory` symbol that is not a memory.
    MemoryIsntMemory,
    /// The module exports a `main` symbol that is not a function.
    MainIsntAFunction,
}

/// Why a module could not be instantiated.
#[derive(Debug)]
pub enum InstantiationError {
    /// The module imports a global, a memory or a table, which processes cannot import.
    UnsupportedImport { module: String, name: String },
    /// No host function answers this function import with its signature.
    UnresolvedImport { module: String, name: String },
    /// The engine refused to instantiate the module; it does so for a module that declares a
    /// start function.
    Engine(wasmi::Error),
}

/// What the exports `memory` and `main` of an instance call for.
#[derive(Clone, Copy, Debug, PartialEq, Eq, Structural)]
pub enum ExportsCheck {
    /// The instance is usable: it uses the memory export if `memory`, and has a main thread if
    /// `main`.
    Accept { memory: bool, main: bool },
    MemoryIsntMemory,
    MainIsntAFunction,
}

/// What the kinds of the exports `memory` and `main` call for: a `memory` export must be a
/// memory and a `main` export a function; either may be missing.
pub open spec fn exports_check(memory: ExportKind, main: ExportKind) -> ExportsCheck {
    if memory != ExportKind::Missing && memory != ExportKind::Memory {
        ExportsCheck::MemoryIsntMemory
    } else if main != ExportKind::Missing && main != ExportKind::Func {
        ExportsCheck::MainIsntAFunction
    } else {
        ExportsCheck::Accept { memory: memory == ExportKind::Memory, main: main == ExportKind::Func }
    }
}

/// Decides from the kinds of the exports `memory` and `main` what a new state machine does.
pub fn check_exports(memory: ExportKind, main: ExportKind) -> (r: ExportsCheck)
    ensures
        r == exports_check(memory, main),
{
    if memory != ExportKind::Missing && memory != ExportKind::Memory {
        ExportsCheck::MemoryIsntMemory
    } else if main != ExportKind::Missing && main != ExportKind::Func {
        ExportsCheck::MainIsntAFunction
    } else {
        ExportsCheck::Accept { memory: memory == ExportKind::Memory, main: main == ExportKind::Func }
    }
}

/// Error that can happen when starting a thread.
#[derive(Clone, Copy, Debug, PartialEq, Eq, Structural)]
pub enum StartErr {
    /// The state machine is poisoned and cannot run anymore.
    Poisoned,
    /// The module has no function table, or the index lies beyond its end.
    SymbolNotFound,
    /// The table entry at that index holds no function.
    NotAFunction,
}

/// Error that can happen when resuming a thread.
#[derive(Debug)]
pub enum ResumeErr {
    /// The value handed back does not have the type that the thread expects.
    BadValueTy { expected: Vec<ValueType>, obtained: Option<ValueType> },
    /// The state machine is poisoned and cannot run anymore.
    Poisoned,
}

/// Why a thread stopped abnormally.
#[derive(Debug)]
pub enum ExecError {
    /// The code trapped, or the engine refused to run it.
    Trap(wasmi::Error),
    /// The code produced a value that has no plain form here (a reference, or several results).
    UnsupportedValue,
    /// The engine paused on a host call that no import resolution produced.
    UnknownHostCall,
}

/// What a call into the engine amounts to.
#[derive(Debug)]
pub enum Step {
    /// The function returned this value, if any.
    Finished(Option<WasmValue>),
    /// The function called the host function that import resolution assigned `id` to, with
    /// `params`; it expects results of the types `expected`.
    Interrupted { id: usize, params: Vec<WasmValue>, expected: Vec<ValueType> },
    /// The function stopped abnormally.
    Errored(ExecError),
}

/// What the engine's answer to a call amounts to: a return with at most one plain result; a
/// pause on a recorded host call whose arguments and result types have a plain form; anything
/// else is an abnormal stop.
pub open spec fn step_of(raw: RawStep, call: HostCallSlot, result_types: Option<Vec<ValueType>>) -> Step {
    match raw {
        RawStep::Finished(Some(values)) => if values@.len() == 0 {
            Step::Finished(None)
        } else if values@.len() == 1 {
            Step::Finished(Some(values@[0]))
        } else {
            Step::Errored(ExecError::UnsupportedValue)
        },
        RawStep::Finished(None) => Step::Errored(ExecError::UnsupportedValue),
        RawStep::Paused => match (call, result_types) {
            (Some((id, Some(params))), Some(expected)) => Step::Interrupted { id, params, expected },
            (None, _) => Step::Errored(ExecError::UnknownHostCall),
            _ => Step::Errored(ExecError::UnsupportedValue),
        },
        RawStep::Failed(e) => Step::Errored(ExecError::Trap(e)),
    }
}

/// Turns the engine's answer to a call into a step; `call` is the host call recorded meanwhile
/// and `result_types` the result types of the host function paused on.
pub fn interpret_step(raw: RawStep, call: HostCallSlot, result_types: Option<Vec<ValueType>>) -> (r: Step)
    ensures
        r == step_of(raw, call, result_types),
{
    match raw {
        RawStep::Finished(Some(values)) => if values.len() == 0 {
            Step::Finished(None)
        } else if values.len() == 1 {
            Step::Finished(Some(values[0]))
        } else {
            Step::Errored(ExecError::UnsupportedValue)
        },
        RawStep::Finished(None) => Step::Errored(ExecError::UnsupportedValue),
        RawStep::Paused => match (call, result_types) {
            (Some((id, Some(params))), Some(expected)) => Step::Interrupted { id, params, expected },
            (None, _) => Step::Errored(ExecError::UnknownHostCall),
            _ => Step::Errored(ExecError::UnsupportedValue),
        },
        RawStep::Failed(e) => Step::Errored(ExecError::Trap(e)),
    }
}

/// Outcome of resuming a thread.
#[derive(Debug)]
pub enum ExecOutcome<T> {
    /// The thread's function returned. The thread no longer exists.
    ThreadFinished { thread_index: usize, return_value: Option<WasmValue>, user_data: T },
    /// The thread called the host function that the import resolution assigned `id` to. The
    /// thread waits for the result of that call.
    Interrupted { thread_index: usize, id: usize, params: Vec<WasmValue> },
    /// The thread stopped abnormally. It no longer exists, and the state machine is now
    /// poisoned.
    Errored { thread_index: usize, error: ExecError, user_data: T },
}

/// The outcome that a step of the thread at `i`, whose user data is `user_data`, gives.
pub open spec fn outcome_of<T>(step: Step, i: usize, user_data: T) -> ExecOutcome<T> {
    match step {
        Step::Finished(v) => ExecOutcome::ThreadFinished { thread_index: i, return_value: v, user_data },
        Step::Interrupted { id, params, .. } => ExecOutcome::Interrupted { thread_index: i, id, params },
        Step::Errored(error) => ExecOutcome::Errored { thread_index: i, error, user_data },
    }
}

/// Mutable access to the user data of a thread, leaving its other fields as they are.
fn user_data_of<T>(t: &mut VmThread<T>) -> (r: &mut T)
    ensures
        *r == old(t).user_data,
        *final(t) == (VmThread { args: old(t).args, expected: old(t).expected, user_data: *final(r) }),
{
    &mut t.user_data
}

struct VmThread<T> {
    /// Arguments the thread's function is called with.
    args: Vec<WasmValue>,
    /// Result types of the host call that the thread waits on.
    expected: Vec<ValueType>,
    user_data: T,
}

/// One process: an instance of a module, its memory, and its threads.
///
/// Each thread is a call stack in the same instance. A thread that traps poisons the whole
/// state machine, which then refuses to run any code.
pub struct ProcessStateMachine<T> {
    engine: EngineInstance,
    threads: Vec<VmThread<T>>,
    is_poisoned: bool,
    /// The values last handed to the engine to start or resume a thread.
    handed: Ghost<Seq<WasmValue>>,
}

/// `memory` with the bytes at `offset` replaced by `bytes`.
pub open spec fn memory_written(memory: Seq<u8>, offset: int, bytes: Seq<u8>) -> Seq<u8> {
    memory.subrange(0, offset) + bytes + memory.subrange(offset + bytes.len(), memory.len() as int)
}

/// The range of `size` bytes at `offset` lies within a memory of `pages` pages.
pub open spec fn in_memory(offset: int, size: int, pages: int) -> bool {
    offset + size <= pages * PAGE_SIZE
}

/// Returns true if the range of `size` bytes at `offset` lies within a memory of `pages` pages.
pub fn range_in_memory(offset: u32, size: u64, pages: u32) -> (r: bool)
    ensures
        r == in_memory(offset as int, size as int, pages as int),
{
    assert((pages as int) * (PAGE_SIZE as int) <= (u32::MAX as int) * (PAGE_SIZE as int))
        by (nonlinear_arith)
        requires
            pages <= u32::MAX,
    ;
    let limit: u128 = (pages as u128) * (PAGE_SIZE as u128);
    (offset as u128) + (size as u128) <= limit
}

/// `resume` refuses to run the thread at `i` with `value`: the state machine is poisoned, or the
/// value is not one that the thread expects.
pub open spec fn resume_refused<T>(sm: &ProcessStateMachine<T>, i: int, value: Option<WasmValue>) -> bool {
    ||| sm.poisoned()
    ||| sm.phases()[i] == Phase::NotYetStarted && value is Some
    ||| sm.phases()[i] == Phase::Paused && !value_fits(sm.expected_results(i), value)
}

impl<T> ProcessStateMachine<T> {
    /// User data of each thread, the main thread first.
    pub closed spec fn user_datas(&self) -> Seq<T> {
        self.threads@.map_values(|t: VmThread<T>| t.user_data)
    }

    /// Phase of each thread.
    pub closed spec fn phases(&self) -> Seq<Phase> {
        self.engine.phases()
    }

    /// Result types that the paused thread at `i` expects to be handed back.
    pub closed spec fn expected_results(&self, i: int) -> Seq<ValueType> {
        self.threads@[i].expected@
    }

    /// Arguments that the function of the thread at `i` is called with.
    pub closed spec fn start_args(&self, i: int) -> Seq<WasmValue> {
        self.threads@[i].args@
    }

    pub closed spec fn poisoned(&self) -> bool {
        self.is_poisoned
    }

    /// The numbers that the host functions of the instance were defined with: the numbers that
    /// the resolver assigned to the imports.
    pub closed spec fn host_ids(&self) -> Seq<usize> {
        self.engine.host_ids()
    }

    /// The values last handed to the engine to start or resume a thread.
    pub closed spec fn last_handed(&self) -> Seq<WasmValue> {
        self.handed@
    }

    /// Bytes of the process's memory; empty if the module exports none.
    pub closed spec fn memory(&self) -> Seq<u8> {
        self.engine.memory()
    }

    /// Everything about the threads but their user data: phases, poisoning, and the result
    /// types that each thread expects.
    pub closed spec fn shape(&self) -> (Seq<Phase>, bool, Seq<Seq<ValueType>>) {
        (self.phases(), self.is_poisoned, self.threads@.map_values(|t: VmThread<T>| t.expected@))
    }

    pub proof fn lemma_shape(&self)
        ensures
            self.shape().0 == self.phases(),
            self.shape().1 == self.poisoned(),
            self.shape().2.len() == self.user_datas().len(),
            forall|i: int|
                0 <= i < self.user_datas().len() ==> #[trigger] self.shape().2[i] == self.expected_results(i),
    {
    }

    /// No thread is left in the middle of a run.
    pub open spec fn wf(&self) -> bool {
        &&& self.phases().len() == self.user_datas().len()
        &&& forall|i: int| 0 <= i < self.phases().len() ==> self.phases()[i] != Phase::Running
    }

    pub closed spec fn has_memory(&self) -> bool {
        self.engine.has_memory()
    }

    proof fn lemma_views(&self)
        ensures
            self.user_datas().len() == self.threads@.len(),
            forall|i: int|
                0 <= i < self.threads@.len() ==> self.user_datas()[i] == self.threads@[i].user_data,
    {
    }

    /// Instantiates the module and prepares its main thread.
    ///
    /// `resolve` assigns to each function import, given its interface, its name and its
    /// signature, the number that the state machine reports when the import is called, or
    /// refuses it. Imports of globals, memories and tables are refused. A start function of the
    /// module makes the instantiation fail, as the engine offers no way to skip it.
    ///
    /// If the module exports a function `main`, the state machine has one thread, not yet
    /// started, that runs `main(0, 0)`. Otherwise it has no thread.
    pub fn new<F: Fn(&InterfaceId, &str, &EngineSignature) -> Result<usize, ()>>(
        module: &WasmModule,
        main_thread_user_data: T,
        resolve: F,
    ) -> (r: Result<Self, NewErr>)
        requires
            forall|id: &InterfaceId, name: &str, sig: &EngineSignature|
                resolve.requires((id, name, sig)),
        ensures
            r matches Ok(sm) ==> {
                &&& sm.wf()
                &&& !sm.poisoned()
                &&& sm.user_datas().len() <= 1
                &&& sm.user_datas().len() == 1 ==> sm.user_datas()[0] == main_thread_user_data
                    && sm.phases()[0] == Phase::NotYetStarted && sm.start_args(0) == seq![
                    WasmValue::I32(0),
                    WasmValue::I32(0),
                ]
            },
            !(r matches Err(NewErr::Interpreter(_))) ==> forall|k: int|
                0 <= k < module.import_count() ==> import_accepted(module, k, resolve),
            r matches Err(NewErr::Interpreter(InstantiationError::UnsupportedImport { .. })) ==> exists|k: int|
                0 <= k < module.import_count() && !#[trigger] module.import_is_function(k),
            r matches Err(NewErr::Interpreter(InstantiationError::UnresolvedImport { .. })) ==> exists|k: int|
                0 <= k < module.import_count() && #[trigger] module.import_is_function(k) && (
                module.import_signature(k) is None || import_refusable(module, k, resolve)),
            !(r matches Err(NewErr::Interpreter(_))) ==> (r is Ok <==> exports_check(
                module.export_kind(MEMORY_EXPORT@),
                module.export_kind(MAIN_EXPORT@),
            ) is Accept),
            r matches Err(NewErr::MemoryIsntMemory) ==> exports_check(
                module.export_kind(MEMORY_EXPORT@),
                module.export_kind(MAIN_EXPORT@),
            ) == ExportsCheck::MemoryIsntMemory,
            r matches Err(NewErr::MainIsntAFunction) ==> exports_check(
                module.export_kind(MEMORY_EXPORT@),
                module.export_kind(MAIN_EXPORT@),
            ) == ExportsCheck::MainIsntAFunction,
            r matches Ok(sm) ==> (sm.user_datas().len() == 1 <==> module.export_kind(MAIN_EXPORT@)
                == ExportKind::Func),
            r matches Ok(sm) ==> forall|i: int|
                0 <= i < sm.host_ids().len() ==> resolver_index(module, resolve, #[trigger] sm.host_ids()[i]),
            (forall|k: int|
                0 <= k < module.import_count() ==> #[trigger] module.import_is_function(k)
                    && module.import_signature(k) is Some && !import_refusable(module, k, resolve))
                && exports_check(module.export_kind(MEMORY_EXPORT@), module.export_kind(MAIN_EXPORT@))
                is Accept ==> (r is Ok || r matches Err(NewErr::Interpreter(InstantiationError::Engine(_)))),
    {
        let mut linking = Linking::new(&module.inner);
        let mut k: usize = 0;
        while k < module.imports.len()
            invariant
                0 <= k <= module.imports.len(),
                linking.module_exports() == module.inner.exports(),
                forall|i: int|
                    0 <= i < linking.defined().len() ==> resolver_index(module, resolve, #[trigger] linking.defined()[i]),
                forall|id: &InterfaceId, name: &str, sig: &EngineSignature|
                    resolve.requires((id, name, sig)),
                forall|j: int| 0 <= j < k ==> import_accepted(module, j, resolve),
            decreases module.imports.len() - k,
        {
            let import = &module.imports[k];
            match &import.func {
                None => {
                    assert(!module.import_is_function(k as int));
                    return Err(
                        NewErr::Interpreter(
                            InstantiationError::UnsupportedImport {
                                module: import.module.clone(),
                                name: import.name.clone(),
                            },
                        ),
                    );
                },
                Some(None) => {
                    assert(module.import_is_function(k as int));
                    return Err(
                        NewErr::Interpreter(
                            InstantiationError::UnresolvedImport {
                                module: import.module.clone(),
                                name: import.name.clone(),
                            },
                        ),
                    );
                },
                Some(Some(sig)) => {
                    let id = InterfaceId::from_module_name(import.module.as_str());
                    let name = import.name.as_str();
                    let resolved = resolve(&id, name, sig);
                    match resolved {
                        Ok(index) => {
                            assert(resolve.ensures((&id, name, sig), Ok::<usize, ()>(index)));
                            assert(import_accepted(module, k as int, resolve));
                            assert(resolver_index(module, resolve, index)) by {
                                assert(module.import_name(k as int) == name@);
                            }
                            // A second import of the same name is served by the first definition.
                            linking.define(import.module.as_str(), name, sig, index);
                        },
                        Err(()) => {
                            assert(resolve.ensures((&id, name, sig), resolved));
                            assert(import_refusable(module, k as int, resolve));
                            assert(module.import_is_function(k as int));
                            return Err(
                                NewErr::Interpreter(
                                    InstantiationError::UnresolvedImport {
                                        module: import.module.clone(),
                                        name: import.name.clone(),
                                    },
                                ),
                            );
                        },
                    }
                },
            }
            k = k + 1;
        }
        let mut engine = match linking.instantiate() {
            Ok(e) => e,
            Err(e) => return Err(NewErr::Interpreter(InstantiationError::Engine(e))),
        };
        let memory_kind = engine.export_kind(MEMORY_EXPORT);
        let main_kind = engine.export_kind(MAIN_EXPORT);
        proof {
            assert(memory_kind == module.export_kind(MEMORY_EXPORT@));
            assert(main_kind == module.export_kind(MAIN_EXPORT@));
        }
        let (use_memory, start_main) = match check_exports(memory_kind, main_kind) {
            ExportsCheck::Accept { memory, main } => (memory, main),
            ExportsCheck::MemoryIsntMemory => return Err(NewErr::MemoryIsntMemory),
            ExportsCheck::MainIsntAFunction => return Err(NewErr::MainIsntAFunction),
        };
        if use_memory {
            engine.select_memory(MEMORY_EXPORT);
        }
        let mut threads: Vec<VmThread<T>> = Vec::new();
        if start_main {
            let args = vec![WasmValue::I32(0), WasmValue::I32(0)];
            match engine.add_export_thread(MAIN_EXPORT, engine_values(&args)) {
                AddThread::Added => {
                    threads.push(VmThread { args, expected: Vec::new(), user_data: main_thread_user_data });
                },
                _ => return Err(NewErr::MainIsntAFunction),
            }
        }
        let sm = ProcessStateMachine { engine, threads, is_poisoned: false, handed: Ghost(Seq::empty()) };
        proof {
            sm.lemma_views();
            assert(sm.start_args(0) =~= seq![WasmValue::I32(0), WasmValue::I32(0)] || sm.threads@.len() == 0);
        }
        Ok(sm)
    }

    /// Returns true if the state machine has at least one thread.
    pub fn is_executing(&self) -> (r: bool)
        ensures
            r == (self.user_datas().len() > 0),
    {
        proof {
            self.lemma_views();
        }
        self.threads.len() > 0
    }

    /// Returns true if a thread trapped, after which no code runs anymore.
    pub fn is_poisoned(&self) -> (r: bool)
        ensures
            r == self.poisoned(),
    {
        self.is_poisoned
    }

    /// Number of threads.
    pub fn num_threads(&self) -> (r: usize)
        ensures
            r == self.user_datas().len(),
    {
        proof {
            self.lemma_views();
        }
        self.threads.len()
    }

    /// Phase of the thread at `index`.
    pub fn thread_phase(&self, index: usize) -> (r: Phase)
        requires
            self.wf(),
            index < self.user_datas().len(),
        ensures
            r == self.phases()[index as int],
    {
        self.engine.phase(index)
    }

    /// User data of the thread at `index`.
    pub fn thread_user_data(&self, index: usize) -> (r: &T)
        requires
            index < self.user_datas().len(),
        ensures
            *r == self.user_datas()[index as int],
    {
        proof {
            self.lemma_views();
        }
        &self.threads[index].user_data
    }

    /// Mutable access to the user data of the thread at `index`.
    pub fn thread_user_data_mut(&mut self, index: usize) -> (r: &mut T)
        requires
            index < old(self).user_datas().len(),
        ensures
            final(self).host_ids() == old(self).host_ids(),
            *r == old(self).user_datas()[index as int],
            final(self).user_datas() == old(self).user_datas().update(index as int, *final(r)),
            final(self).shape() == old(self).shape(),
            final(self).phases() == old(self).phases(),
            final(self).poisoned() == old(self).poisoned(),
            final(self).memory() == old(self).memory(),
            final(self).has_memory() == old(self).has_memory(),
    {
        proof {
            self.lemma_views();
        }
        let r = user_data_of(&mut self.threads[index]);
        r
    }

    /// Starts a new thread at the function that entry `fn_index` of the module's function table
    /// holds, to be called with `params`.
    pub fn start_thread_by_id(&mut self, fn_index: u32, params: Vec<WasmValue>, user_data: T) -> (r:
        Result<(), StartErr>)
        requires
            old(self).wf(),
        ensures
            final(self).host_ids() == old(self).host_ids(),
            final(self).wf(),
            old(self).poisoned() <==> r == Err::<(), StartErr>(StartErr::Poisoned),
            r is Ok ==> final(self).user_datas() == old(self).user_datas().push(user_data)
                && final(self).phases() == old(self).phases().push(Phase::NotYetStarted)
                && final(self).start_args(old(self).user_datas().len() as int) == params@
                && !final(self).poisoned(),
            r is Ok ==> forall|i: int|
                0 <= i < old(self).phases().len() ==> #[trigger] final(self).expected_results(i)
                    == old(self).expected_results(i),
            r is Err ==> final(self).user_datas() == old(self).user_datas() && final(self).shape()
                == old(self).shape(),
            final(self).memory() == old(self).memory(),
            final(self).has_memory() == old(self).has_memory(),
    {
        if self.is_poisoned {
            return Err(StartErr::Poisoned);
        }
        proof {
            self.lemma_views();
        }
        let ghost before = self.threads@;
        match self.engine.add_table_thread(FUNCTION_TABLE_EXPORT, fn_index, engine_values(&params)) {
            AddThread::Added => {},
            AddThread::NotFound => return Err(StartErr::SymbolNotFound),
            AddThread::NotAFunction => return Err(StartErr::NotAFunction),
        }
        let ghost p = params@;
        self.threads.push(VmThread { args: params, expected: Vec::new(), user_data });
        proof {
            self.lemma_views();
            assert(self.user_datas() =~= old(self).user_datas().push(user_data));
            assert forall|i: int| 0 <= i < old(self).phases().len() implies #[trigger] self.expected_results(i)
                == old(self).expected_results(i) by {
                assert(self.threads@[i] == before[i]);
            }
        }
        Ok(())
    }

    /// Consumes the state machine and returns the user data of its threads, the main thread
    /// first.
    pub fn into_user_datas(self) -> (r: Vec<T>)
        ensures
            r@ == self.user_datas(),
    {
        let mut threads = self.threads;
        let ghost all = threads@;
        let mut out: Vec<T> = Vec::new();
        while threads.len() > 0
            invariant
                out@.len() + threads@.len() == all.len(),
                forall|j: int| 0 <= j < out@.len() ==> out@[j] == all[j].user_data,
                forall|j: int| 0 <= j < threads@.len() ==> threads@[j] == all[out@.len() + j],
            decreases threads.len(),
        {
            let t = threads.remove(0);
            out.push(t.user_data);
        }
        assert(out@ =~= all.map_values(|t: VmThread<T>| t.user_data));
        out
    }

    /// Size of the memory in pages of 65536 bytes.
    pub fn memory_pages(&self) -> (r: u32)
        ensures
            r as int * PAGE_SIZE == self.memory().len(),
    {
        self.engine.memory_pages()
    }

    /// Copies the `size` bytes of memory at `offset`.
    ///
    /// Fails if the range does not lie within the memory, whose size is a whole number of pages
    /// (none if the module exports no memory).
    pub fn read_memory(&self, offset: u32, size: u32) -> (r: Result<Vec<u8>, ()>)
        ensures
            r is Err <==> offset + size > self.memory().len(),
            r matches Ok(v) ==> v@ == self.memory().subrange(offset as int, offset + size),
    {
        let pages = self.engine.memory_pages();
        if !range_in_memory(offset, size as u64, pages) {
            return Err(());
        }
        Ok(self.engine.memory_read(offset as usize, size as usize))
    }

    /// Writes `value` into memory at `offset`.
    ///
    /// Fails, writing nothing, if the range does not lie within the memory, whose size is a
    /// whole number of pages (none if the module exports no memory).
    pub fn write_memory(&mut self, offset: u32, value: &[u8]) -> (r: Result<(), ()>)
        requires
            old(self).wf(),
        ensures
            final(self).host_ids() == old(self).host_ids(),
            final(self).wf(),
            r is Err <==> offset + value@.len() > old(self).memory().len(),
            r is Ok ==> final(self).memory() == memory_written(old(self).memory(), offset as int, value@),
            r is Err ==> final(self).memory() == old(self).memory(),
            final(self).user_datas() == old(self).user_datas(),
            final(self).shape() == old(self).shape(),
            final(self).phases() == old(self).phases(),
            final(self).poisoned() == old(self).poisoned(),
            forall|i: int| #[trigger] final(self).expected_results(i) == old(self).expected_results(i),
    {
        if !self.engine.has_memory_exec() {
            if offset == 0 && value.len() == 0 {
                assert(value@ =~= Seq::<u8>::empty());
                assert(memory_written(self.memory(), 0, value@) =~= self.memory());
                return Ok(());
            }
            return Err(());
        }
        let pages = self.engine.memory_pages();
        if !range_in_memory(offset, value.len() as u64, pages) {
            return Err(());
        }
        if self.engine.memory_write(offset as usize, value) {
            Ok(())
        } else {
            Err(())
        }
    }

    /// Returns true if `value` is what the thread at `index` expects to be handed: nothing for a
    /// thread that has not started, the result of its host call for a paused thread.
    pub fn thread_accepts(&self, index: usize, value: &Option<WasmValue>) -> (r: bool)
        requires
            self.wf(),
            index < self.user_datas().len(),
        ensures
            r == if self.phases()[index as int] == Phase::NotYetStarted {
                value is None
            } else {
                value_fits(self.expected_results(index as int), *value)
            },
    {
        match self.engine.phase(index) {
            Phase::NotYetStarted => value.is_none(),
            _ => fits(&self.threads[index].expected, value),
        }
    }

    /// Runs the thread at `thread_index` until its function returns, it calls a host function,
    /// or it traps.
    ///
    /// A thread that has not started is handed no value and starts its function with its
    /// arguments; a paused thread is handed the result of the host function call that paused it.
    pub fn resume(&mut self, thread_index: usize, value: Option<WasmValue>) -> (r: Result<
        ExecOutcome<T>,
        ResumeErr,
    >)
        requires
            old(self).wf(),
            thread_index < old(self).user_datas().len(),
        ensures
            final(self).wf(),
            r is Err <==> resume_refused(old(self), thread_index as int, value),
            r is Err ==> *final(self) == *old(self),
            old(self).poisoned() ==> r matches Err(ResumeErr::Poisoned),
            !old(self).poisoned() && r is Err ==> (r matches Err(ResumeErr::BadValueTy { expected, obtained })
                && obtained == type_of_optional(value) && expected@ == (if old(self).phases()[thread_index as int]
                == Phase::NotYetStarted {
                Seq::<ValueType>::empty()
            } else {
                old(self).expected_results(thread_index as int)
            })),
            r is Ok ==> exists|step: Step|
                #[trigger] outcome_of(step, thread_index, old(self).user_datas()[thread_index as int])
                    == r->Ok_0,
            r matches Ok(ExecOutcome::ThreadFinished { thread_index: t, user_data, .. }) ==> {
                &&& t == thread_index
                &&& user_data == old(self).user_datas()[thread_index as int]
                &&& final(self).user_datas() == old(self).user_datas().remove(thread_index as int)
                &&& final(self).phases() == old(self).phases().remove(thread_index as int)
                &&& !final(self).poisoned()
                &&& forall|j: int|
                    0 <= j < final(self).phases().len() ==> #[trigger] final(self).expected_results(j)
                        == old(self).expected_results(if j < thread_index { j } else { j + 1 })
            },
            final(self).host_ids() == old(self).host_ids(),
            r matches Ok(ExecOutcome::Interrupted { id, .. }) ==> old(self).host_ids().contains(id),
            r is Ok && old(self).phases()[thread_index as int] == Phase::NotYetStarted ==> final(self).last_handed()
                == old(self).start_args(thread_index as int),
            r is Ok && old(self).phases()[thread_index as int] == Phase::Paused ==> final(self).last_handed()
                == (match value {
                Some(v) => seq![v],
                None => Seq::<WasmValue>::empty(),
            }),
            r matches Ok(ExecOutcome::Interrupted { thread_index: t, .. }) ==> {
                &&& t == thread_index
                &&& final(self).user_datas() == old(self).user_datas()
                &&& final(self).phases() == old(self).phases().update(thread_index as int, Phase::Paused)
                &&& !final(self).poisoned()
                &&& forall|j: int|
                    0 <= j < final(self).phases().len() && j != thread_index
                        ==> #[trigger] final(self).expected_results(j) == old(self).expected_results(j)
            },
            r matches Ok(ExecOutcome::Errored { thread_index: t, user_data, .. }) ==> {
                &&& t == thread_index
                &&& user_data == old(self).user_datas()[thread_index as int]
                &&& final(self).user_datas() == old(self).user_datas().remove(thread_index as int)
                &&& final(self).phases() == old(self).phases().remove(thread_index as int)
                &&& final(self).poisoned()
            },
    {
        proof {
            self.lemma_views();
        }
        if self.is_poisoned {
            return Err(ResumeErr::Poisoned);
        }
        let phase = self.engine.phase(thread_index);
        let raw = match phase {
            Phase::NotYetStarted => {
                if value.is_some() {
                    return Err(ResumeErr::BadValueTy { expected: Vec::new(), obtained: optional_type(&value) });
                }
                let outputs = self.engine.result_slots(thread_index);
                self.handed = Ghost(self.threads[thread_index as int].args@);
                self.engine.call_ready(thread_index, outputs)
            },
            Phase::Paused => {
                if !fits(&self.threads[thread_index].expected, &value) {
                    return Err(
                        ResumeErr::BadValueTy {
                            expected: copy_types(&self.threads[thread_index].expected),
                            obtained: optional_type(&value),
                        },
                    );
                }
                let handed: Vec<WasmValue> = match value {
                    Some(v) => vec![v],
                    None => Vec::new(),
                };
                let outputs = self.engine.result_slots(thread_index);
                self.handed = Ghost(handed@);
                proof {
                    assert(handed@ =~= (match value {
                        Some(v) => seq![v],
                        None => Seq::<WasmValue>::empty(),
                    }));
                }
                self.engine.resume_paused(thread_index, engine_values(&handed), outputs)
            },
            Phase::Running => {
                return Err(ResumeErr::Poisoned);
            },
        };
        let paused = matches!(raw, RawStep::Paused);
        let ghost raw_copy = raw;
        let call: HostCallSlot = self.engine.take_host_call();
        let result_types = if paused {
            self.engine.paused_result_types(thread_index)
        } else {
            None
        };
        let step = interpret_step(raw, call, result_types);
        let ghost step_copy = step;
        let ghost mid = self.threads@;
        let outcome = match step {
            Step::Finished(return_value) => {
                if paused {
                    self.engine.remove_thread(thread_index);
                    self.is_poisoned = true;
                    let thread = self.threads.remove(thread_index);
                    proof {
                        assert(false);
                    }
                    ExecOutcome::Errored { thread_index, error: ExecError::UnsupportedValue, user_data: thread.user_data }
                } else {
                    self.engine.remove_thread(thread_index);
                    let thread = self.threads.remove(thread_index);
                    ExecOutcome::ThreadFinished { thread_index, return_value, user_data: thread.user_data }
                }
            },
            Step::Interrupted { id, params, expected } => {
                self.threads[thread_index].expected = expected;
                ExecOutcome::Interrupted { thread_index, id, params }
            },
            Step::Errored(error) => {
                self.engine.remove_thread(thread_index);
                self.is_poisoned = true;
                let thread = self.threads.remove(thread_index);
                ExecOutcome::Errored { thread_index, error, user_data: thread.user_data }
            },
        };
        proof {
            assert(step_copy == step_of(raw_copy, call, result_types));
            assert(outcome_of(step_copy, thread_index, old(self).user_datas()[thread_index as int]) == outcome);
            self.lemma_views();
            if outcome is Interrupted {
                assert(self.user_datas() =~= old(self).user_datas());
            } else {
                assert(self.user_datas() =~= old(self).user_datas().remove(thread_index as int));
            }
        }
        Ok(outcome)
    }
}

} // verus!
