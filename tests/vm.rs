use redshirt_core::engine::{lookup_export_kind, ExportKind, RawStep};
use redshirt_core::signature::{ValueType, WasmValue};
use redshirt_core::vm::{
    check_exports, interpret_step, range_in_memory, ExecError, ExportsCheck, Step, ExecOutcome, NewErr, Phase, ProcessStateMachine, ResumeErr, WasmModule,
};

fn module_from_wat(source: &str) -> WasmModule {
    WasmModule::from_bytes(&wat::parse_str(source).unwrap()).unwrap()
}

#[test]
fn start_in_paused_if_main() {
    let module = module_from_wat(
        r#"(module
        (func $main (param $p0 i32) (param $p1 i32) (result i32)
            i32.const 5)
        (export "main" (func $main)))
    "#,
    );

    let state_machine = ProcessStateMachine::new(&module, (), |_, _, _| unreachable!()).unwrap();
    assert!(state_machine.is_executing());
}

#[test]
fn start_stopped_if_no_main() {
    let module = module_from_wat(
        r#"(module
        (func $main (param $p0 i32) (param $p1 i32) (result i32)
            i32.const 5)
        (export "foo" (func $main)))
    "#,
    );

    let state_machine = ProcessStateMachine::new(&module, (), |_, _, _| unreachable!()).unwrap();
    assert!(!state_machine.is_executing());
}

#[test]
fn main_executes() {
    let module = module_from_wat(
        r#"(module
        (func $main (param $p0 i32) (param $p1 i32) (result i32)
            i32.const 5)
        (export "main" (func $main)))
    "#,
    );

    let mut state_machine = ProcessStateMachine::new(&module, (), |_, _, _| unreachable!()).unwrap();
    match state_machine.resume(0, None) {
        Ok(ExecOutcome::ThreadFinished { return_value: Some(WasmValue::I32(5)), .. }) => {}
        _ => panic!(),
    }
    assert!(!state_machine.is_executing());
}

#[test]
fn external_call_then_resume() {
    let module = module_from_wat(
        r#"(module
        (import "" "test" (func $test (result i32)))
        (func $main (param $p0 i32) (param $p1 i32) (result i32)
            call $test)
        (export "main" (func $main)))
    "#,
    );

    let mut state_machine = ProcessStateMachine::new(&module, (), |_, _, _| Ok(9876)).unwrap();
    match state_machine.resume(0, None) {
        Ok(ExecOutcome::Interrupted { id: 9876, ref params, .. }) if params.is_empty() => {}
        _ => panic!(),
    }
    assert!(state_machine.is_executing());

    match state_machine.resume(0, Some(WasmValue::I32(2227))) {
        Ok(ExecOutcome::ThreadFinished { return_value: Some(WasmValue::I32(2227)), .. }) => {}
        _ => panic!(),
    }
    assert!(!state_machine.is_executing());
}

#[test]
fn poisoning_works() {
    let module = module_from_wat(
        r#"(module
        (func $main (param $p0 i32) (param $p1 i32) (result i32)
            unreachable)
        (export "main" (func $main)))
    "#,
    );

    let mut state_machine = ProcessStateMachine::new(&module, (), |_, _, _| unreachable!()).unwrap();
    match state_machine.resume(0, None) {
        Ok(ExecOutcome::Errored { .. }) => {}
        _ => panic!(),
    }

    assert!(state_machine.is_poisoned());
    assert!(!state_machine.is_executing());
}

#[test]
fn main_thread_starts_not_yet_started_with_its_user_data() {
    let module = module_from_wat(
        r#"(module
        (func $main (param i32 i32) (result i32) i32.const 5)
        (export "main" (func $main)))"#,
    );
    let state_machine = ProcessStateMachine::new(&module, 42u32, |_, _, _| Err(())).unwrap();
    assert_eq!(state_machine.num_threads(), 1);
    assert_eq!(*state_machine.thread_user_data(0), 42);
    assert_eq!(state_machine.thread_phase(0), Phase::NotYetStarted);
}

#[test]
fn main_receives_zero_arguments() {
    let module = module_from_wat(
        r#"(module
        (func $main (param i32 i32) (result i32) local.get 0 local.get 1 i32.add i32.const 7 i32.add)
        (export "main" (func $main)))"#,
    );
    let mut state_machine = ProcessStateMachine::new(&module, (), |_, _, _| Err(())).unwrap();
    match state_machine.resume(0, None) {
        Ok(ExecOutcome::ThreadFinished { return_value: Some(WasmValue::I32(7)), .. }) => {}
        _ => panic!(),
    }
}

#[test]
fn unresolved_import_is_an_interpreter_error() {
    let module = module_from_wat(
        r#"(module
        (import "env" "missing" (func $missing))
        (func $main (param i32 i32) (result i32) i32.const 0)
        (export "main" (func $main)))"#,
    );
    match ProcessStateMachine::new(&module, (), |_, _, _| Err(())) {
        Err(NewErr::Interpreter(_)) => {}
        _ => panic!(),
    }
}

#[test]
fn imported_memory_is_refused() {
    let module = module_from_wat(r#"(module (import "env" "mem" (memory 1)))"#);
    match ProcessStateMachine::new(&module, (), |_, _, _| Ok(0)) {
        Err(NewErr::Interpreter(_)) => {}
        _ => panic!(),
    }
}

#[test]
fn memory_export_must_be_a_memory() {
    let module = module_from_wat(
        r#"(module
        (func $f)
        (export "memory" (func $f)))"#,
    );
    match ProcessStateMachine::new(&module, (), |_, _, _| Ok(0)) {
        Err(NewErr::MemoryIsntMemory) => {}
        _ => panic!(),
    }
}

#[test]
fn main_export_must_be_a_function() {
    let module = module_from_wat(r#"(module (memory (export "main") 1))"#);
    match ProcessStateMachine::new(&module, (), |_, _, _| Ok(0)) {
        Err(NewErr::MainIsntAFunction) => {}
        _ => panic!(),
    }
}

#[test]
fn value_for_a_thread_not_started_is_refused() {
    let module = module_from_wat(
        r#"(module
        (func $main (param i32 i32) (result i32) i32.const 5)
        (export "main" (func $main)))"#,
    );
    let mut state_machine = ProcessStateMachine::new(&module, (), |_, _, _| Err(())).unwrap();
    match state_machine.resume(0, Some(WasmValue::I32(1))) {
        Err(ResumeErr::BadValueTy { expected, obtained }) => {
            assert!(expected.is_empty());
            assert_eq!(obtained, Some(ValueType::I32));
        }
        _ => panic!(),
    }
    assert!(state_machine.is_executing());
}

#[test]
fn value_of_wrong_type_is_refused_and_right_one_accepted() {
    let module = module_from_wat(
        r#"(module
        (import "" "test" (func $test (result i64)))
        (func $main (param i32 i32) (result i32) call $test i32.wrap_i64)
        (export "main" (func $main)))"#,
    );
    let mut state_machine = ProcessStateMachine::new(&module, (), |_, _, _| Ok(3)).unwrap();
    match state_machine.resume(0, None) {
        Ok(ExecOutcome::Interrupted { id: 3, .. }) => {}
        _ => panic!(),
    }
    assert!(!state_machine.thread_accepts(0, &Some(WasmValue::I32(1))));
    assert!(state_machine.thread_accepts(0, &Some(WasmValue::I64(1))));
    match state_machine.resume(0, Some(WasmValue::I32(1))) {
        Err(ResumeErr::BadValueTy { .. }) => {}
        _ => panic!(),
    }
    match state_machine.resume(0, Some(WasmValue::I64(0x1_0000_0009))) {
        Ok(ExecOutcome::ThreadFinished { return_value: Some(WasmValue::I32(9)), .. }) => {}
        _ => panic!(),
    }
}

#[test]
fn host_call_parameters_are_reported() {
    let module = module_from_wat(
        r#"(module
        (import "" "log" (func $log (param i32 i64)))
        (func $main (param i32 i32) (result i32) i32.const 11 i64.const 12 call $log i32.const 0)
        (export "main" (func $main)))"#,
    );
    let mut state_machine = ProcessStateMachine::new(&module, (), |_, _, _| Ok(1)).unwrap();
    match state_machine.resume(0, None) {
        Ok(ExecOutcome::Interrupted { id: 1, params, .. }) => {
            assert_eq!(params, vec![WasmValue::I32(11), WasmValue::I64(12)]);
        }
        _ => panic!(),
    }
}

#[test]
fn poisoned_machine_refuses_to_run_and_start() {
    let module = module_from_wat(
        r#"(module
        (func $boom (param i32) (result i32) unreachable)
        (func $main (param i32 i32) (result i32) unreachable)
        (table (export "__indirect_function_table") 1 funcref)
        (elem (i32.const 0) $boom)
        (export "main" (func $main)))"#,
    );
    let mut state_machine = ProcessStateMachine::new(&module, 1u8, |_, _, _| Err(())).unwrap();
    match state_machine.resume(0, None) {
        Ok(ExecOutcome::Errored { thread_index: 0, user_data: 1, error: ExecError::Trap(_) }) => {}
        _ => panic!(),
    }
    assert_eq!(
        state_machine.start_thread_by_id(0, vec![WasmValue::I32(0)], 2),
        Err(redshirt_core::vm::StartErr::Poisoned)
    );
}

#[test]
fn start_thread_through_the_function_table() {
    let module = module_from_wat(
        r#"(module
        (func $double (param i32) (result i32) local.get 0 i32.const 2 i32.mul)
        (table (export "__indirect_function_table") 2 funcref)
        (elem (i32.const 0) $double))"#,
    );
    let mut state_machine = ProcessStateMachine::new(&module, 0u8, |_, _, _| Err(())).unwrap();
    assert!(!state_machine.is_executing());
    assert_eq!(state_machine.start_thread_by_id(0, vec![WasmValue::I32(21)], 7), Ok(()));
    assert_eq!(
        state_machine.start_thread_by_id(1, vec![], 8),
        Err(redshirt_core::vm::StartErr::NotAFunction)
    );
    assert_eq!(
        state_machine.start_thread_by_id(5, vec![], 9),
        Err(redshirt_core::vm::StartErr::SymbolNotFound)
    );
    assert_eq!(state_machine.num_threads(), 1);
    match state_machine.resume(0, None) {
        Ok(ExecOutcome::ThreadFinished { thread_index: 0, return_value: Some(WasmValue::I32(42)), user_data: 7 }) => {}
        _ => panic!(),
    }
}

#[test]
fn memory_bounds_are_checked() {
    let module = module_from_wat(r#"(module (memory (export "memory") 1))"#);
    let mut state_machine = ProcessStateMachine::new(&module, (), |_, _, _| Err(())).unwrap();
    assert_eq!(state_machine.write_memory(16, &[0xAA, 0xBB]), Ok(()));
    assert_eq!(state_machine.read_memory(16, 2), Ok(vec![0xAA, 0xBB]));
    assert_eq!(state_machine.read_memory(65534, 2), Ok(vec![0, 0]));
    assert_eq!(state_machine.read_memory(65535, 2), Err(()));
    assert_eq!(state_machine.read_memory(65536, 0), Ok(vec![]));
    assert_eq!(state_machine.write_memory(65535, &[1, 2]), Err(()));
}

#[test]
fn no_memory_means_empty_memory() {
    let module = module_from_wat(r#"(module)"#);
    let mut state_machine = ProcessStateMachine::new(&module, (), |_, _, _| Err(())).unwrap();
    assert_eq!(state_machine.read_memory(0, 0), Ok(vec![]));
    assert_eq!(state_machine.read_memory(0, 1), Err(()));
    assert_eq!(state_machine.write_memory(0, &[1]), Err(()));
}

#[test]
fn range_in_memory_formula() {
    assert!(range_in_memory(0, 65536, 1));
    assert!(!range_in_memory(1, 65536, 1));
    assert!(range_in_memory(65535, 1, 1));
    assert!(!range_in_memory(0, 1, 0));
    assert!(range_in_memory(0, 0, 0));
    assert!(range_in_memory(u32::MAX, 1, 65536));
    assert!(!range_in_memory(u32::MAX, 2, 65536));
}

#[test]
fn exports_decide_memory_and_main() {
    assert_eq!(
        check_exports(ExportKind::Memory, ExportKind::Func),
        ExportsCheck::Accept { memory: true, main: true }
    );
    assert_eq!(
        check_exports(ExportKind::Missing, ExportKind::Missing),
        ExportsCheck::Accept { memory: false, main: false }
    );
    assert_eq!(check_exports(ExportKind::Func, ExportKind::Func), ExportsCheck::MemoryIsntMemory);
    assert_eq!(check_exports(ExportKind::Table, ExportKind::Global), ExportsCheck::MemoryIsntMemory);
    assert_eq!(check_exports(ExportKind::Memory, ExportKind::Memory), ExportsCheck::MainIsntAFunction);
}

#[test]
fn engine_answers_become_steps() {
    assert!(matches!(interpret_step(RawStep::Finished(Some(vec![])), None, None), Step::Finished(None)));
    assert!(matches!(
        interpret_step(RawStep::Finished(Some(vec![WasmValue::I64(3)])), None, None),
        Step::Finished(Some(WasmValue::I64(3)))
    ));
    assert!(matches!(
        interpret_step(RawStep::Finished(Some(vec![WasmValue::I32(1), WasmValue::I32(2)])), None, None),
        Step::Errored(ExecError::UnsupportedValue)
    ));
    assert!(matches!(interpret_step(RawStep::Finished(None), None, None), Step::Errored(ExecError::UnsupportedValue)));
    match interpret_step(
        RawStep::Paused,
        Some((4, Some(vec![WasmValue::I32(8)]))),
        Some(vec![ValueType::I32]),
    ) {
        Step::Interrupted { id: 4, params, expected } => {
            assert_eq!(params, vec![WasmValue::I32(8)]);
            assert_eq!(expected, vec![ValueType::I32]);
        }
        _ => panic!(),
    }
    assert!(matches!(interpret_step(RawStep::Paused, None, Some(vec![])), Step::Errored(ExecError::UnknownHostCall)));
    assert!(matches!(
        interpret_step(RawStep::Paused, Some((1, None)), Some(vec![])),
        Step::Errored(ExecError::UnsupportedValue)
    ));
}

#[test]
fn memory_size_is_whole_pages() {
    let module = module_from_wat(r#"(module (memory (export "memory") 2))"#);
    let state_machine = ProcessStateMachine::new(&module, (), |_, _, _| Err(())).unwrap();
    assert_eq!(state_machine.memory_pages(), 2);
    assert_eq!(state_machine.read_memory(131070, 2), Ok(vec![0, 0]));
    assert_eq!(state_machine.read_memory(131071, 2), Err(()));
    let empty = module_from_wat(r#"(module)"#);
    let state_machine = ProcessStateMachine::new(&empty, (), |_, _, _| Err(())).unwrap();
    assert_eq!(state_machine.memory_pages(), 0);
}

#[test]
fn start_function_makes_instantiation_fail() {
    let module = module_from_wat(r#"(module (func $s) (start $s))"#);
    assert!(matches!(ProcessStateMachine::new(&module, (), |_, _, _| Err(())), Err(NewErr::Interpreter(_))));
}

#[test]
fn export_lookup_finds_first_by_name() {
    let exports = vec![
        ("memory".to_string(), ExportKind::Memory),
        ("main".to_string(), ExportKind::Func),
        ("main".to_string(), ExportKind::Global),
    ];
    assert_eq!(lookup_export_kind(&exports, "main"), ExportKind::Func);
    assert_eq!(lookup_export_kind(&exports, "memory"), ExportKind::Memory);
    assert_eq!(lookup_export_kind(&exports, "other"), ExportKind::Missing);
    assert_eq!(lookup_export_kind(&vec![], "main"), ExportKind::Missing);
}
