//! The WebAssembly engine: the `wasmi` items that the state machine relies on.
//!
//! A `Sandbox` owns a store together with everything that lives in it: the instance, its
//! memory, and the call stack of each thread. Engine handles never leave it, so every call into
//! `wasmi` pairs a handle with the store that owns it.

use crate::signature::{EngineSignature, ValueType, WasmValue};
use vstd::prelude::*;

verus! {

#[verifier::external_type_specification]
#[verifier::external_body]
pub struct ExEngine(wasmi::Engine);

#[verifier::external_type_specification]
#[verifier::external_body]
pub struct ExModule(wasmi::Module);

#[verifier::external_type_specification]
#[verifier::external_body]
#[verifier::reject_recursive_types(T)]
pub struct ExStore<T>(wasmi::Store<T>);

#[verifier::external_type_specification]
#[verifier::external_body]
#[verifier::reject_recursive_types(T)]
pub struct ExLinker<T>(wasmi::Linker<T>);

#[verifier::external_type_specification]
#[verifier::external_body]
pub struct ExInstance(wasmi::Instance);

#[verifier::external_type_specification]
#[verifier::external_body]
pub struct ExFunc(wasmi::Func);

#[verifier::external_type_specification]
#[verifier::external_body]
pub struct ExFuncType(wasmi::FuncType);

#[verifier::external_type_specification]
#[verifier::external_body]
pub struct ExMemory(wasmi::Memory);

#[verifier::external_type_specification]
#[verifier::external_body]
pub struct ExResumableInvocation(wasmi::ResumableInvocation);

#[verifier::external_type_specification]
#[verifier::external_body]
pub struct ExValue(wasmi::Value);

#[verifier::external_type_specification]
#[verifier::external_body]
pub struct ExError(wasmi::Error);

#[verifier::external_type_specification]
#[verifier::external_body]
pub struct ExTrap(wasmi::core::Trap);

/// A host function call that paused the code: the number its import was resolved to, and its
/// arguments, if they all have a plain form.
pub type HostCall = (usize, Option<Vec<WasmValue>>);

/// Data of a store: the host function call that paused the code running in it, if any.
pub type HostCallSlot = Option<HostCall>;

/// The bytes of the memory that a sandbox has selected; empty if it has selected none.
pub uninterp spec fn sandbox_memory(sandbox: Sandbox) -> Seq<u8>;

/// Phase of a thread.
#[derive(Clone, Copy, Debug, PartialEq, Eq, Structural)]
pub enum Phase {
    /// The thread's function has not started.
    NotYetStarted,
    /// The thread waits for the result of a host function call.
    Paused,
    /// The thread is being run; only seen while it runs.
    Running,
}

/// What a module export turned out to be.
#[derive(Clone, Copy, Debug, PartialEq, Eq, Structural)]
pub enum ExportKind {
    Missing,
    Func,
    Memory,
    Table,
    Global,
}

/// Outcome of adding a thread.
#[derive(Clone, Copy, Debug, PartialEq, Eq, Structural)]
pub enum AddThread {
    Added,
    /// No such export, or the table index lies beyond its end.
    NotFound,
    /// The export or table entry holds no function.
    NotAFunction,
}

/// How a call into WebAssembly code ended, as the engine reports it.
pub enum RawStep {
    /// The code returned; its results, if they all have a plain form.
    Finished(Option<Vec<WasmValue>>),
    /// The code called a host function and waits for its result.
    Paused,
    /// The code trapped, or the engine refused the call.
    Failed(wasmi::Error),
}

/// The call stack of a thread.
enum EngineThread {
    Ready { func: wasmi::Func, args: Vec<wasmi::Value> },
    Paused { func: wasmi::Func, invocation: wasmi::ResumableInvocation },
    Running,
}

/// A store, the instance that lives in it and the memory it uses.
pub struct Sandbox {
    store: wasmi::Store<HostCallSlot>,
    instance: wasmi::Instance,
    memory: Option<wasmi::Memory>,
    /// Name and kind of each export of the instance, which are those of its module.
    exports: Vec<(String, ExportKind)>,
}

/// A sandbox and the call stack of each of its threads.
pub struct EngineInstance {
    sandbox: Sandbox,
    threads: Vec<EngineThread>,
    /// The numbers that the host functions of the instance were defined with.
    host_ids: Vec<usize>,
}

/// A module being linked: host functions are defined for its imports.
pub struct Linking<'a> {
    linker: wasmi::Linker<HostCallSlot>,
    module: &'a CompiledModule,
    /// The numbers that host functions were defined with.
    defined: Vec<usize>,
}

/// Records a host function call in the data of the store and returns the trap that pauses the
/// calling code.
pub fn record_host_call(slot: &mut HostCallSlot, index: usize, params: &[wasmi::Value]) -> (r:
    wasmi::core::Trap)
    ensures
        *final(slot) matches Some((i, _)) && i == index,
{
    let converted = plain_values(params);
    *slot = Some((index, converted));
    host_call_trap()
}

/// Relies on `wasmi::core::Trap::new`: a trap that reports a host function call.
#[verifier::external_body]
fn host_call_trap() -> wasmi::core::Trap {
    wasmi::core::Trap::new("host function call")
}

/// Relies on `wasmi::Value`'s numeric variants: the plain form of each value, or `None` if one
/// of them is a reference.
#[verifier::external_body]
fn plain_values(values: &[wasmi::Value]) -> (r: Option<Vec<WasmValue>>)
    ensures
        r matches Some(v) ==> v@.len() == values@.len(),
{
    values.iter().map(|v| match v {
        wasmi::Value::I32(x) => Some(WasmValue::I32(*x)),
        wasmi::Value::I64(x) => Some(WasmValue::I64(*x)),
        wasmi::Value::F32(x) => Some(WasmValue::F32(x.to_bits())),
        wasmi::Value::F64(x) => Some(WasmValue::F64(x.to_bits())),
        _ => None,
    }).collect()
}

/// Relies on `wasmi::Value`'s numeric variants: the engine form of each value.
#[verifier::external_body]
pub(crate) fn engine_values(values: &Vec<WasmValue>) -> (r: Vec<wasmi::Value>)
    ensures
        r@.len() == values@.len(),
{
    values.iter().map(|v| match *v {
        WasmValue::I32(x) => wasmi::Value::I32(x),
        WasmValue::I64(x) => wasmi::Value::I64(x),
        WasmValue::F32(b) => wasmi::Value::F32(wasmi::core::F32::from_bits(b)),
        WasmValue::F64(b) => wasmi::Value::F64(wasmi::core::F64::from_bits(b)),
    }).collect()
}

/// Relies on `wasmi::Engine::default`: a new engine.
#[verifier::external_body]
pub(crate) fn new_engine() -> wasmi::Engine {
    wasmi::Engine::default()
}

/// A parsed and validated module, with the name and kind of each of its exports.
pub struct CompiledModule {
    module: wasmi::Module,
    exports: Vec<(String, ExportKind)>,
}

/// Mathematical form of a list of exports.
pub open spec fn exports_view(exports: Seq<(String, ExportKind)>) -> Seq<(Seq<char>, ExportKind)> {
    exports.map_values(|e: (String, ExportKind)| (e.0@, e.1))
}

/// The kind of the first export named `name`, or `Missing`.
pub open spec fn export_kind_in(exports: Seq<(Seq<char>, ExportKind)>, name: Seq<char>) -> ExportKind
    decreases exports.len(),
{
    if exports.len() == 0 {
        ExportKind::Missing
    } else if exports[0].0 == name {
        exports[0].1
    } else {
        export_kind_in(exports.drop_first(), name)
    }
}

/// Returns the kind of the first export named `name`, or `Missing`.
pub fn lookup_export_kind(exports: &Vec<(String, ExportKind)>, name: &str) -> (r: ExportKind)
    ensures
        r == export_kind_in(exports_view(exports@), name@),
{
    let wanted = name.to_owned();
    let ghost all = exports_view(exports@);
    assert(all.subrange(0, all.len() as int) =~= all);
    let mut i: usize = 0;
    while i < exports.len()
        invariant
            0 <= i <= exports.len(),
            wanted@ == name@,
            all == exports_view(exports@),
            export_kind_in(all, name@) == export_kind_in(all.subrange(i as int, all.len() as int), name@),
        decreases exports.len() - i,
    {
        let ghost rest = all.subrange(i as int, all.len() as int);
        assert(rest[0] == all[i as int]);
        if exports[i].0.eq(&wanted) {
            return exports[i].1;
        }
        assert(rest.drop_first() =~= all.subrange(i + 1, all.len() as int));
        i = i + 1;
    }
    assert(all.subrange(i as int, all.len() as int).len() == 0);
    ExportKind::Missing
}

impl CompiledModule {
    /// Name and kind of each export, in the order of the module.
    pub closed spec fn exports(&self) -> Seq<(Seq<char>, ExportKind)> {
        exports_view(self.exports@)
    }
}

/// Relies on `wasmi::Module::new` and `wasmi::Module::exports`: parses and validates a binary
/// module, and lists the name and kind of each of its exports.
#[verifier::external_body]
pub(crate) fn compile(engine: &wasmi::Engine, bytes: &[u8]) -> Result<CompiledModule, wasmi::Error> {
    let module = wasmi::Module::new(engine, bytes)?;
    let exports = module.exports().map(|e| (e.name().to_owned(), match e.ty() {
        wasmi::ExternType::Func(_) => ExportKind::Func,
        wasmi::ExternType::Memory(_) => ExportKind::Memory,
        wasmi::ExternType::Table(_) => ExportKind::Table,
        wasmi::ExternType::Global(_) => ExportKind::Global,
    })).collect();
    Ok(CompiledModule { module, exports })
}

/// Relies on `wasmi::Module::imports`: module name, field name and, for a function import,
/// its type, in the order of the module.
#[verifier::external_body]
pub(crate) fn module_imports(module: &CompiledModule) -> Vec<(String, String, Option<wasmi::FuncType>)> {
    module
        .module
        .imports()
        .map(|i| (i.module().to_owned(), i.name().to_owned(), i.ty().func().cloned()))
        .collect()
}

/// Relies on `wasmi::FuncType::params` and `results`: the signature, if all its types are
/// numeric.
#[verifier::external_body]
pub(crate) fn func_type_signature(ty: &wasmi::FuncType) -> Option<EngineSignature> {
    let conv = |t: &wasmi::core::ValueType| match t {
        wasmi::core::ValueType::I32 => Some(ValueType::I32),
        wasmi::core::ValueType::I64 => Some(ValueType::I64),
        wasmi::core::ValueType::F32 => Some(ValueType::F32),
        wasmi::core::ValueType::F64 => Some(ValueType::F64),
        _ => None,
    };
    let params = ty.params().iter().map(conv).collect::<Option<Vec<_>>>()?;
    let results = ty.results().iter().map(conv).collect::<Option<Vec<_>>>()?;
    Some(EngineSignature { params, results })
}

impl<'a> Linking<'a> {
    /// Name and kind of each export of the module being linked.
    pub closed spec fn module_exports(&self) -> Seq<(Seq<char>, ExportKind)> {
        self.module.exports()
    }

    /// The numbers that host functions were defined with so far.
    pub closed spec fn defined(&self) -> Seq<usize> {
        self.defined@
    }

    /// Defines `module`/`name` as a host function of the signature `sig`, whose calls are
    /// recorded with `index`, and notes `index` among the numbers defined. Returns false if the
    /// name was already defined.
    pub(crate) fn define(&mut self, module: &str, name: &str, sig: &EngineSignature, index: usize) -> (r: bool)
        ensures
            final(self).module_exports() == old(self).module_exports(),
            final(self).defined() == old(self).defined().push(index),
    {
        let r = self.define_host(module, name, sig, index);
        self.defined.push(index);
        r
    }

    /// Relies on `wasmi::Linker::new`: a linker with no definition, for the engine of `module`.
    #[verifier::external_body]
    pub(crate) fn new(module: &'a CompiledModule) -> (r: Linking<'a>)
        ensures
            r.module_exports() == module.exports(),
            r.defined() == Seq::<usize>::empty(),
    {
        Linking { linker: wasmi::Linker::new(module.module.engine()), module, defined: Vec::new() }
    }

    /// Relies on `wasmi::Linker::func_new`: defines `module`/`name` as a host function of the
    /// signature `sig`, whose calls `record_host_call` records with `index`. Returns false if the
    /// name was already defined.
    #[verifier::external_body]
    fn define_host(&mut self, module: &str, name: &str, sig: &EngineSignature, index: usize) -> (r: bool)
        ensures
            final(self).module_exports() == old(self).module_exports(),
            final(self).defined() == old(self).defined(),
    {
        let conv = |t: &ValueType| match t {
            ValueType::I32 => wasmi::core::ValueType::I32,
            ValueType::I64 => wasmi::core::ValueType::I64,
            ValueType::F32 => wasmi::core::ValueType::F32,
            ValueType::F64 => wasmi::core::ValueType::F64,
        };
        let ty = wasmi::FuncType::new(sig.params.iter().map(conv), sig.results.iter().map(conv));
        self.linker.func_new(module, name, ty, move |mut caller, params, _results| {
            Err(record_host_call(caller.data_mut(), index, params))
        }).is_ok()
    }

    /// Relies on `wasmi::Linker::instantiate` and `wasmi::InstancePre::ensure_no_start`:
    /// instantiates the module in a new store of its engine, with no host call recorded. Fails if
    /// an import has no matching definition or if the module declares a start function.
    #[verifier::external_body]
    pub(crate) fn instantiate(self) -> (r: Result<EngineInstance, wasmi::Error>)
        ensures
            r matches Ok(e) ==> e.phases() == Seq::<Phase>::empty() && e.memory() == Seq::<u8>::empty()
                && !e.has_memory() && e.exports() == self.module_exports() && e.host_ids()
                == self.defined(),
    {
        let mut store = wasmi::Store::new(self.module.module.engine(), None);
        let pre = self.linker.instantiate(&mut store, &self.module.module)?;
        let instance = pre.ensure_no_start(&mut store)?;
        let exports = self.module.exports.clone();
        let sandbox = Sandbox { store, instance, memory: None, exports };
        Ok(EngineInstance { sandbox, threads: Vec::new(), host_ids: self.defined })
    }
}

impl Sandbox {
    /// Relies on the memory field: whether a memory is selected; the bytes of a sandbox with no
    /// selected memory are empty.
    #[verifier::external_body]
    fn has_selected_memory(&self) -> (r: bool)
        ensures
            r == (self.memory is Some),
            !r ==> sandbox_memory(*self).len() == 0,
    {
        self.memory.is_some()
    }

    /// Relies on `wasmi::Instance::get_memory`: selects the memory exported under `name`, which
    /// the instance exports as a memory.
    #[verifier::external_body]
    fn select_memory(&mut self, name: &str)
        requires
            export_kind_in(exports_view(old(self).exports@), name@) == ExportKind::Memory,
        ensures
            final(self).memory is Some,
            final(self).exports == old(self).exports,
    {
        self.memory = self.instance.get_memory(&self.store, name);
    }

    /// Relies on `wasmi::Memory::current_pages`: the size of the selected memory in pages of
    /// 65536 bytes, which is the length of its bytes.
    #[verifier::external_body]
    fn memory_pages(&self) -> (r: u32)
        ensures
            r as int * 65536 == sandbox_memory(*self).len() && r as int * 65536 <= usize::MAX,
    {
        self.memory.map_or(0, |m| u32::from(m.current_pages(&self.store)))
    }

    /// Relies on `wasmi::Memory::data`: the `len` bytes at `offset`, which lie within the
    /// selected memory.
    #[verifier::external_body]
    fn memory_read(&self, offset: usize, len: usize) -> (r: Vec<u8>)
        requires
            offset + len <= sandbox_memory(*self).len(),
        ensures
            r@ == sandbox_memory(*self).subrange(offset as int, offset + len),
    {
        let data: &[u8] = self.memory.as_ref().map_or(&[], |m| m.data(&self.store));
        data[offset..][..len].to_vec()
    }

    /// Relies on `wasmi::Memory::write`: writes `bytes` into the selected memory at `offset`;
    /// false, with nothing written, if they would not all fall within it.
    #[verifier::external_body]
    fn memory_write(&mut self, offset: usize, bytes: &[u8]) -> (r: bool)
        requires
            old(self).memory is Some,
            offset + bytes@.len() <= usize::MAX,
        ensures
            r <==> offset + bytes@.len() <= sandbox_memory(*old(self)).len(),
            r ==> sandbox_memory(*final(self)) == sandbox_memory(*old(self)).subrange(0, offset as int)
                + bytes@ + sandbox_memory(*old(self)).subrange(
                offset + bytes@.len(),
                sandbox_memory(*old(self)).len() as int,
            ),
            !r ==> sandbox_memory(*final(self)) == sandbox_memory(*old(self)),
            final(self).memory is Some,
            final(self).exports == old(self).exports,
    {
        match self.memory {
            Some(memory) => memory.write(&mut self.store, offset, bytes).is_ok(),
            None => false,
        }
    }
}

impl EngineInstance {
    /// Phase of each thread.
    pub closed spec fn phases(&self) -> Seq<Phase> {
        self.threads@.map_values(|t: EngineThread| match t {
            EngineThread::Ready { .. } => Phase::NotYetStarted,
            EngineThread::Paused { .. } => Phase::Paused,
            EngineThread::Running => Phase::Running,
        })
    }

    /// Bytes of the selected memory.
    pub closed spec fn memory(&self) -> Seq<u8> {
        sandbox_memory(self.sandbox)
    }

    /// A memory is selected.
    pub closed spec fn has_memory(&self) -> bool {
        self.sandbox.memory is Some
    }

    /// Phase of the thread at `i`.
    pub fn phase(&self, i: usize) -> (r: Phase)
        requires
            i < self.phases().len(),
        ensures
            r == self.phases()[i as int],
    {
        match &self.threads[i] {
            EngineThread::Ready { .. } => Phase::NotYetStarted,
            EngineThread::Paused { .. } => Phase::Paused,
            EngineThread::Running => Phase::Running,
        }
    }

    /// Forgets the thread at `i`.
    pub fn remove_thread(&mut self, i: usize)
        requires
            i < old(self).phases().len(),
        ensures
            final(self).phases() == old(self).phases().remove(i as int),
            final(self).memory() == old(self).memory(),
            final(self).has_memory() == old(self).has_memory(),
            final(self).host_ids() == old(self).host_ids(),
    {
        self.threads.remove(i);
        proof {
            assert(self.phases() =~= old(self).phases().remove(i as int));
        }
    }

    /// The numbers that the host functions of the instance were defined with.
    pub closed spec fn host_ids(&self) -> Seq<usize> {
        self.host_ids@
    }

    /// Name and kind of each export of the instance.
    pub closed spec fn exports(&self) -> Seq<(Seq<char>, ExportKind)> {
        exports_view(self.sandbox.exports@)
    }

    /// The kind of the export of that name.
    pub fn export_kind(&self, name: &str) -> (r: ExportKind)
        ensures
            r == export_kind_in(self.exports(), name@),
    {
        lookup_export_kind(&self.sandbox.exports, name)
    }

    /// Selects the memory exported under `name`.
    pub fn select_memory(&mut self, name: &str)
        requires
            export_kind_in(old(self).exports(), name@) == ExportKind::Memory,
        ensures
            final(self).phases() == old(self).phases(),
            final(self).has_memory(),
            final(self).exports() == old(self).exports(),
            final(self).host_ids() == old(self).host_ids(),
    {
        self.sandbox.select_memory(name);
    }

    /// Returns true if a memory is selected; otherwise the memory has no bytes.
    pub fn has_memory_exec(&self) -> (r: bool)
        ensures
            r == self.has_memory(),
            !r ==> self.memory().len() == 0,
    {
        self.sandbox.has_selected_memory()
    }

    /// Size of the selected memory in pages of 65536 bytes.
    pub fn memory_pages(&self) -> (r: u32)
        ensures
            r as int * 65536 == self.memory().len(),
            self.memory().len() <= usize::MAX,
    {
        self.sandbox.memory_pages()
    }

    /// The `len` bytes at `offset`, which lie within the selected memory.
    pub fn memory_read(&self, offset: usize, len: usize) -> (r: Vec<u8>)
        requires
            offset + len <= self.memory().len(),
        ensures
            r@ == self.memory().subrange(offset as int, offset + len),
    {
        self.sandbox.memory_read(offset, len)
    }

    /// Writes `bytes` into the selected memory at `offset`; false, with nothing written, if they
    /// would not all fall within it.
    pub fn memory_write(&mut self, offset: usize, bytes: &[u8]) -> (r: bool)
        requires
            old(self).has_memory(),
            offset + bytes@.len() <= usize::MAX,
        ensures
            r <==> offset + bytes@.len() <= old(self).memory().len(),
            r ==> final(self).memory() == old(self).memory().subrange(0, offset as int) + bytes@
                + old(self).memory().subrange(offset + bytes@.len(), old(self).memory().len() as int),
            !r ==> final(self).memory() == old(self).memory(),
            final(self).phases() == old(self).phases(),
            final(self).has_memory(),
            final(self).exports() == old(self).exports(),
            final(self).host_ids() == old(self).host_ids(),
    {
        self.sandbox.memory_write(offset, bytes)
    }

    /// Relies on `wasmi::Instance::get_export`: adds a thread, not yet started, that calls the
    /// function exported under `name` with `args`.
    #[verifier::external_body]
    pub fn add_export_thread(&mut self, name: &str, args: Vec<wasmi::Value>) -> (r: AddThread)
        ensures
            r == AddThread::Added <==> export_kind_in(old(self).exports(), name@) == ExportKind::Func,
            r == AddThread::NotFound <==> export_kind_in(old(self).exports(), name@) == ExportKind::Missing,
            r == AddThread::Added ==> final(self).phases() == old(self).phases().push(Phase::NotYetStarted),
            r != AddThread::Added ==> final(self).phases() == old(self).phases(),
            final(self).memory() == old(self).memory(),
            final(self).has_memory() == old(self).has_memory(),
            final(self).exports() == old(self).exports(),
            final(self).host_ids() == old(self).host_ids(),
    {
        match self.sandbox.instance.get_export(&self.sandbox.store, name) {
            Some(wasmi::Extern::Func(func)) => {
                self.threads.push(EngineThread::Ready { func, args });
                AddThread::Added
            },
            None => AddThread::NotFound,
            Some(_) => AddThread::NotAFunction,
        }
    }

    /// Relies on `wasmi::Instance::get_table` and `wasmi::Table::get`: adds a thread, not yet
    /// started, that calls the function at `index` of the table exported under `table`.
    #[verifier::external_body]
    pub fn add_table_thread(&mut self, table: &str, index: u32, args: Vec<wasmi::Value>) -> (r: AddThread)
        ensures
            r == AddThread::Added ==> final(self).phases() == old(self).phases().push(Phase::NotYetStarted),
            r != AddThread::Added ==> final(self).phases() == old(self).phases(),
            final(self).memory() == old(self).memory(),
            final(self).has_memory() == old(self).has_memory(),
            final(self).exports() == old(self).exports(),
            final(self).host_ids() == old(self).host_ids(),
    {
        let store = &self.sandbox.store;
        match self.sandbox.instance.get_table(store, table).map(|t| t.get(store, index)) {
            None | Some(None) => AddThread::NotFound,
            Some(Some(wasmi::Value::FuncRef(r))) => match r.func() {
                Some(func) => {
                    self.threads.push(EngineThread::Ready { func: *func, args });
                    AddThread::Added
                },
                None => AddThread::NotAFunction,
            },
            Some(Some(_)) => AddThread::NotAFunction,
        }
    }

    /// Relies on `wasmi::Func::ty` and `wasmi::Value::default`: one placeholder value per result
    /// of the function of the thread at `i`, to receive its results.
    #[verifier::external_body]
    pub fn result_slots(&self, i: usize) -> Vec<wasmi::Value>
        requires
            i < self.phases().len(),
    {
        let func = match &self.threads[i] {
            EngineThread::Ready { func, .. } | EngineThread::Paused { func, .. } => *func,
            EngineThread::Running => return Vec::new(),
        };
        func.ty(&self.sandbox.store).results().iter().map(|t| wasmi::Value::default(*t)).collect()
    }

    /// Relies on `wasmi::Func::call_resumable`: runs the thread at `i`, not yet started, until it
    /// returns, traps, or calls a host function, with `outputs` to receive its results. Only a
    /// paused thread is left in place.
    #[verifier::external_body]
    pub fn call_ready(&mut self, i: usize, mut outputs: Vec<wasmi::Value>) -> (r: RawStep)
        requires
            i < old(self).phases().len(),
            old(self).phases()[i as int] == Phase::NotYetStarted,
        ensures
            final(self).phases() == old(self).phases().update(
                i as int,
                if r is Paused { Phase::Paused } else { Phase::Running },
            ),
            final(self).has_memory() == old(self).has_memory(),
            final(self).exports() == old(self).exports(),
            final(self).host_ids() == old(self).host_ids(),
    {
        let (func, args) = match std::mem::replace(&mut self.threads[i], EngineThread::Running) {
            EngineThread::Ready { func, args } => (func, args),
            other => {
                self.threads[i] = other;
                return RawStep::Paused;
            },
        };
        match func.call_resumable(&mut self.sandbox.store, &args, &mut outputs) {
            Ok(wasmi::ResumableCall::Finished) => RawStep::Finished(plain_values(&outputs)),
            Ok(wasmi::ResumableCall::Resumable(invocation)) => {
                self.threads[i] = EngineThread::Paused { func, invocation };
                RawStep::Paused
            },
            Err(e) => RawStep::Failed(e),
        }
    }

    /// Relies on `wasmi::ResumableInvocation::resume`: hands `value` to the paused thread at `i`
    /// as the result of its host call, then runs it as `call_ready` does.
    #[verifier::external_body]
    pub fn resume_paused(&mut self, i: usize, value: Vec<wasmi::Value>, mut outputs: Vec<wasmi::Value>) -> (r: RawStep)
        requires
            i < old(self).phases().len(),
            old(self).phases()[i as int] == Phase::Paused,
        ensures
            final(self).phases() == old(self).phases().update(
                i as int,
                if r is Paused { Phase::Paused } else { Phase::Running },
            ),
            final(self).has_memory() == old(self).has_memory(),
            final(self).exports() == old(self).exports(),
            final(self).host_ids() == old(self).host_ids(),
    {
        let (func, invocation) = match std::mem::replace(&mut self.threads[i], EngineThread::Running) {
            EngineThread::Paused { func, invocation } => (func, invocation),
            other => {
                self.threads[i] = other;
                return RawStep::Paused;
            },
        };
        match invocation.resume(&mut self.sandbox.store, &value, &mut outputs) {
            Ok(wasmi::ResumableCall::Finished) => RawStep::Finished(plain_values(&outputs)),
            Ok(wasmi::ResumableCall::Resumable(invocation)) => {
                self.threads[i] = EngineThread::Paused { func, invocation };
                RawStep::Paused
            },
            Err(e) => RawStep::Failed(e),
        }
    }

    /// Relies on `wasmi::ResumableInvocation::host_func` and `wasmi::Func::ty`: the result types
    /// of the host function that the paused thread at `i` waits on, if they are all numeric.
    #[verifier::external_body]
    pub fn paused_result_types(&self, i: usize) -> Option<Vec<ValueType>>
        requires
            i < self.phases().len(),
            self.phases()[i as int] == Phase::Paused,
    {
        match &self.threads[i] {
            EngineThread::Paused { invocation, .. } => {
                let ty = invocation.host_func().ty(&self.sandbox.store);
                func_type_signature(&ty).map(|sig| sig.results)
            },
            _ => None,
        }
    }

    /// Relies on `wasmi::Store::data_mut`: takes the recorded host call out of the store. Only the
    /// host functions defined for this instance record calls there, each with its own number.
    #[verifier::external_body]
    pub fn take_host_call(&mut self) -> (r: HostCallSlot)
        ensures
            r matches Some((id, _)) ==> old(self).host_ids().contains(id),
            final(self).phases() == old(self).phases(),
            final(self).memory() == old(self).memory(),
            final(self).has_memory() == old(self).has_memory(),
            final(self).exports() == old(self).exports(),
            final(self).host_ids() == old(self).host_ids(),
    {
        self.sandbox.store.data_mut().take()
    }
}

} // verus!
