use redshirt_core::interface::{InterfaceHash, InterfaceId};
use redshirt_core::processes::{ProcessesCollection, ProcessesCollectionBuilder, RunOneOutcome};
use redshirt_core::signature::{Signature, ValueType, WasmValue};
use redshirt_core::vm::{NewErr, WasmModule};

fn module_from_wat(source: &str) -> WasmModule {
    WasmModule::from_bytes(&wat::parse_str(source).unwrap()).unwrap()
}

fn empty_collection() -> ProcessesCollection<u32, u32, u32> {
    ProcessesCollectionBuilder::<u32>::default().build()
}

fn zero_hash_interface() -> InterfaceId {
    InterfaceId::from_hash(InterfaceHash::from_bytes([0; 32]))
}

#[test]
fn main_returns_constant() {
    let mut collection = empty_collection();
    let module = module_from_wat(
        r#"(module
        (func $main (param i32 i32) (result i32) i32.const 5)
        (export "main" (func $main)))"#,
    );
    let pid = collection.execute(&module, 1, 2).unwrap().pid();
    match collection.run() {
        RunOneOutcome::ProcessFinished { pid: p, user_data, dead_threads, outcome } => {
            assert_eq!(p, pid);
            assert_eq!(user_data, 1);
            assert_eq!(dead_threads.len(), 1);
            assert_eq!(dead_threads[0].1, 2);
            assert_eq!(outcome.unwrap(), Some(WasmValue::I32(5)));
        }
        _ => panic!(),
    }
    assert!(matches!(collection.run(), RunOneOutcome::Idle));
    assert!(collection.process_by_id(pid).is_none());
}

#[test]
fn no_main_is_idle() {
    let mut collection = empty_collection();
    let module = module_from_wat(
        r#"(module
        (func $foo (param i32 i32) (result i32) i32.const 5)
        (export "foo" (func $foo)))"#,
    );
    let pid = collection.execute(&module, 0, 0).unwrap().pid();
    assert!(matches!(collection.run(), RunOneOutcome::Idle));
    assert_eq!(collection.pids(), vec![pid]);
}

#[test]
fn host_call_round_trip() {
    let mut collection: ProcessesCollection<u32, (), ()> = ProcessesCollectionBuilder::default()
        .with_extrinsic(zero_hash_interface(), "test", Signature::new(vec![], Some(ValueType::I32)), 9876)
        .build();
    let module = module_from_wat(
        r#"(module
        (import "" "test" (func $test (result i32)))
        (func $main (param i32 i32) (result i32) call $test)
        (export "main" (func $main)))"#,
    );
    let pid = collection.execute(&module, (), ()).unwrap().pid();
    match collection.run() {
        RunOneOutcome::Interrupted { mut thread, id, params } => {
            assert_eq!(*id, 9876);
            assert!(params.is_empty());
            assert_eq!(thread.pid(), pid);
            assert!(!thread.is_ready());
            assert!(thread.accepts(&Some(WasmValue::I32(2227))));
            thread.resume(Some(WasmValue::I32(2227)));
            assert!(thread.is_ready());
        }
        _ => panic!(),
    }
    match collection.run() {
        RunOneOutcome::ProcessFinished { outcome, .. } => {
            assert_eq!(outcome.unwrap(), Some(WasmValue::I32(2227)));
        }
        _ => panic!(),
    }
}

#[test]
fn trap_poisons_the_process() {
    let mut collection = empty_collection();
    let module = module_from_wat(
        r#"(module
        (func $main (param i32 i32) (result i32) unreachable)
        (export "main" (func $main)))"#,
    );
    let pid = collection.execute(&module, 0, 0).unwrap().pid();
    match collection.run() {
        RunOneOutcome::ProcessFinished { pid: p, outcome, .. } => {
            assert_eq!(p, pid);
            assert!(outcome.is_err());
        }
        _ => panic!(),
    }
    assert!(collection.process_by_id(pid).is_none());
    let other = collection.execute(&module, 0, 0).unwrap().pid();
    assert_ne!(other, pid);
}

#[test]
fn duplicate_extrinsic_is_detected() {
    let builder = ProcessesCollectionBuilder::<()>::default().with_extrinsic(
        InterfaceId::from_name("foo"),
        "test",
        Signature::new(vec![], None),
        (),
    );
    assert!(builder.has_extrinsic(&InterfaceId::from_name("foo"), "test"));
    assert!(!builder.has_extrinsic(&InterfaceId::from_name("foo"), "other"));
    assert!(!builder.has_extrinsic(&InterfaceId::from_name("bar"), "test"));
}

#[test]
fn memory_round_trip() {
    let mut collection = empty_collection();
    let module = module_from_wat(r#"(module (memory (export "memory") 1))"#);
    let mut process = collection.execute(&module, 0, 0).unwrap();
    assert_eq!(process.write_memory(16, &[0xAA, 0xBB]), Ok(()));
    assert_eq!(process.read_memory(16, 2), Ok(vec![0xAA, 0xBB]));
    assert_eq!(process.read_memory(65535, 2), Err(()));
}

#[test]
fn unmatched_import_fails_execute() {
    let mut collection: ProcessesCollection<u32, (), ()> = ProcessesCollectionBuilder::default()
        .with_extrinsic(zero_hash_interface(), "test", Signature::new(vec![], Some(ValueType::I32)), 1)
        .build();
    let unknown = module_from_wat(
        r#"(module
        (import "" "other" (func (result i32)))
        (func $main (param i32 i32) (result i32) i32.const 0)
        (export "main" (func $main)))"#,
    );
    assert!(matches!(collection.execute(&unknown, (), ()), Err(NewErr::Interpreter(_))));
    let mismatched = module_from_wat(
        r#"(module
        (import "" "test" (func (result i64)))
        (func $main (param i32 i32) (result i32) i32.const 0)
        (export "main" (func $main)))"#,
    );
    assert!(matches!(collection.execute(&mismatched, (), ()), Err(NewErr::Interpreter(_))));
    assert!(collection.pids().is_empty());
}

#[test]
fn identifiers_are_unique_and_increasing() {
    let mut builder = ProcessesCollectionBuilder::<u32>::default();
    let reserved = builder.reserve_pid();
    assert_eq!(reserved, 1);
    let mut collection: ProcessesCollection<u32, u32, u32> = builder.build();
    let module = module_from_wat(
        r#"(module
        (func $main (param i32 i32) (result i32) i32.const 5)
        (export "main" (func $main)))"#,
    );
    let mut pids = vec![reserved];
    let mut tids = vec![];
    for _ in 0..3 {
        let process = collection.execute(&module, 0, 0).unwrap();
        pids.push(process.pid());
        tids.push(process.main_thread().tid());
    }
    assert_eq!(pids, vec![1, 2, 3, 4]);
    assert_eq!(tids, vec![1, 2, 3]);
    while !matches!(collection.run(), RunOneOutcome::Idle) {}
    let process = collection.execute(&module, 0, 0).unwrap();
    assert_eq!(process.pid(), 5);
}

#[test]
fn threads_finish_and_are_found_by_id() {
    let mut collection: ProcessesCollection<u32, u32, u32> = ProcessesCollectionBuilder::default()
        .with_extrinsic(zero_hash_interface(), "wait", Signature::new(vec![], None), 5)
        .build();
    let module = module_from_wat(
        r#"(module
        (import "" "wait" (func $wait))
        (func $main (param i32 i32) (result i32) call $wait i32.const 1)
        (func $double (param i32) (result i32) local.get 0 i32.const 2 i32.mul)
        (table (export "__indirect_function_table") 1 funcref)
        (elem (i32.const 0) $double)
        (export "main" (func $main)))"#,
    );
    let process = collection.execute(&module, 10, 20).unwrap();
    let pid = process.pid();
    let thread = process.start_thread(0, vec![WasmValue::I32(4)], 30).ok().unwrap();
    let second_tid = thread.tid();
    assert_eq!(thread.pid(), pid);

    let found = collection.thread_by_id(second_tid).unwrap();
    assert_eq!(found.tid(), second_tid);
    assert!(collection.thread_by_id(999).is_none());

    let mut seen_thread_finished = false;
    let mut seen_interrupt = false;
    for _ in 0..2 {
        match collection.run() {
            RunOneOutcome::ThreadFinished { thread_id, process, user_data, value } => {
                assert_eq!(thread_id, second_tid);
                assert_eq!(user_data, 30);
                assert_eq!(value, Some(WasmValue::I32(8)));
                assert_eq!(process.pid(), pid);
                assert_eq!(process.num_threads(), 1);
                seen_thread_finished = true;
            }
            RunOneOutcome::Interrupted { id, .. } => {
                assert_eq!(*id, 5);
                seen_interrupt = true;
            }
            _ => panic!(),
        }
    }
    assert!(seen_thread_finished && seen_interrupt);
    assert!(matches!(collection.run(), RunOneOutcome::Idle));
    assert!(collection.thread_by_id(second_tid).is_none());

    let mut main = collection.process_by_id(pid).unwrap().main_thread();
    assert_eq!(*main.user_data(), 20);
    assert_eq!(*main.process_user_data(), 10);
    main.resume(None);
    match collection.run() {
        RunOneOutcome::ProcessFinished { dead_threads, outcome, user_data, .. } => {
            assert_eq!(user_data, 10);
            assert_eq!(dead_threads.len(), 1);
            assert_eq!(outcome.unwrap(), Some(WasmValue::I32(1)));
        }
        _ => panic!(),
    }
}

#[test]
fn abort_returns_all_user_data() {
    let mut collection = empty_collection();
    let module = module_from_wat(
        r#"(module
        (func $main (param i32 i32) (result i32) i32.const 5)
        (func $f (param i32) (result i32) local.get 0)
        (table (export "__indirect_function_table") 1 funcref)
        (elem (i32.const 0) $f)
        (export "main" (func $main)))"#,
    );
    let process = collection.execute(&module, 7, 8).unwrap();
    let pid = process.pid();
    let thread = process.start_thread(0, vec![WasmValue::I32(1)], 9).ok().unwrap();
    let tid = thread.tid();
    let (user_data, dead_threads) = collection.process_by_id(pid).unwrap().abort();
    assert_eq!(user_data, 7);
    assert_eq!(dead_threads.len(), 2);
    assert_eq!(dead_threads[0].1, 8);
    assert_eq!(dead_threads[1], (tid, 9));
    assert!(collection.process_by_id(pid).is_none());
    assert!(matches!(collection.run(), RunOneOutcome::Idle));
}

#[test]
fn processes_take_turns() {
    let mut collection: ProcessesCollection<u32, u32, u32> = ProcessesCollectionBuilder::default()
        .with_extrinsic(zero_hash_interface(), "yield", Signature::new(vec![], None), 0)
        .build();
    let module = module_from_wat(
        r#"(module
        (import "" "yield" (func $yield))
        (func $main (param i32 i32) (result i32)
            (loop $l call $yield br $l)
            i32.const 0)
        (export "main" (func $main)))"#,
    );
    let first = collection.execute(&module, 0, 0).unwrap().pid();
    let second = collection.execute(&module, 0, 0).unwrap().pid();
    let mut order = Vec::new();
    for _ in 0..4 {
        match collection.run() {
            RunOneOutcome::Interrupted { mut thread, .. } => {
                order.push(thread.pid());
                thread.resume(None);
            }
            _ => panic!(),
        }
    }
    assert_eq!(order, vec![first, second, first, second]);
}
