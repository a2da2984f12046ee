use std::collections::HashSet;

use runtime::load_balancer::{select_operation, DeviceCounts};
use runtime::model::{get_type_size, Device, Model, Operation, Type, Variable};
use runtime::scheduler::RuntimeState;
use runtime::values::{
    check_argument_count, decode_output, encode_input, native_is_little_endian, output_value, output_values, InputEncoding,
    InputError, OutputError, OutputValue,
};

fn variable(ty: Type) -> Variable {
    Variable { producers: Vec::new(), consumers: Vec::new(), ty }
}

fn operation(inputs: Vec<u32>, outputs: Vec<u32>, device: Device) -> Operation {
    Operation { inputs, outputs, device }
}

/// v0 and v1 are inputs; op0 (host) computes v2 from v0; op1 (GPU) computes v3
/// from v0 and v1; op2 (host) computes v4 from v2 and v3; v4 is the output.
fn diamond_model() -> Model {
    Model {
        variables: vec![
            variable(Type::I32),
            variable(Type::I32),
            variable(Type::I32),
            variable(Type::I32),
            variable(Type::I64),
        ],
        operations: vec![
            operation(vec![0], vec![2], Device::Host),
            operation(vec![0, 1], vec![3], Device::Cuda),
            operation(vec![2, 3], vec![4], Device::Host),
        ],
        inputs: vec![0, 1],
        outputs: vec![4],
    }
}

fn device_model(devices: &[Device]) -> Model {
    let mut operations = Vec::new();
    for d in devices {
        operations.push(operation(Vec::new(), Vec::new(), *d));
    }
    Model { variables: Vec::new(), operations, inputs: Vec::new(), outputs: Vec::new() }
}

fn set_of(ids: &[u32]) -> HashSet<u32> {
    ids.iter().copied().collect()
}

#[test]
fn type_sizes() {
    assert_eq!(get_type_size(&Type::I8), 1);
    assert_eq!(get_type_size(&Type::U8), 1);
    assert_eq!(get_type_size(&Type::I16), 2);
    assert_eq!(get_type_size(&Type::U16), 2);
    assert_eq!(get_type_size(&Type::I32), 4);
    assert_eq!(get_type_size(&Type::U32), 4);
    assert_eq!(get_type_size(&Type::F32), 4);
    assert_eq!(get_type_size(&Type::I64), 8);
    assert_eq!(get_type_size(&Type::U64), 8);
    assert_eq!(get_type_size(&Type::F64), 8);
    assert_eq!(get_type_size(&Type::Pointer), 8);
    assert_eq!(get_type_size(&Type::String), 8);
    assert_eq!(get_type_size(&Type::Isize), std::mem::size_of::<usize>());
    assert_eq!(get_type_size(&Type::Usize), std::mem::size_of::<usize>());
}

#[test]
fn select_from_empty_set_gives_none() {
    let model = device_model(&[Device::Host, Device::Cuda]);
    assert_eq!(select_operation(&HashSet::new(), &model, true), None);
    assert_eq!(select_operation(&HashSet::new(), &model, false), None);
}

#[test]
fn select_takes_the_only_device_present() {
    let model = device_model(&[Device::Host, Device::Host, Device::Cuda, Device::Cuda]);
    let host_only = set_of(&[0, 1]);
    for preference in [true, false] {
        let chosen = select_operation(&host_only, &model, preference).unwrap();
        assert!(chosen == 0 || chosen == 1);
    }
    let gpu_only = set_of(&[2, 3]);
    for preference in [true, false] {
        let chosen = select_operation(&gpu_only, &model, preference).unwrap();
        assert!(chosen == 2 || chosen == 3);
    }
}

#[test]
fn select_prefers_the_less_loaded_device() {
    let model = device_model(&[Device::Host, Device::Cuda, Device::Host, Device::Cuda]);
    let both = set_of(&[0, 1, 2, 3]);
    let host = select_operation(&both, &model, true).unwrap();
    assert!(host == 0 || host == 2);
    let gpu = select_operation(&both, &model, false).unwrap();
    assert!(gpu == 1 || gpu == 3);
}

#[test]
fn select_takes_the_first_in_iteration_order() {
    let model = device_model(&[Device::Host, Device::Cuda, Device::Host, Device::Cuda, Device::Host]);
    let ops = set_of(&[0, 1, 2, 3, 4]);
    let first_host = ops.iter().copied().find(|op| op % 2 == 0);
    let first_gpu = ops.iter().copied().find(|op| op % 2 == 1);
    assert_eq!(select_operation(&ops, &model, true), first_host);
    assert_eq!(select_operation(&ops, &model, false), first_gpu);
}

#[test]
fn device_counts_record_per_device() {
    let mut counts = DeviceCounts::new();
    counts.record(Device::Host);
    counts.record(Device::Host);
    counts.record(Device::Cuda);
    assert_eq!(counts, DeviceCounts { host: 2, cuda: 1 });
}

#[test]
fn runtime_starts_empty() {
    let mut state = RuntimeState::new(diamond_model());
    assert!(!state.is_done());
    assert!(state.request(0).is_none());
    assert!(state.available_operations().is_empty());
    assert_eq!(state.check_ready_operations(), Vec::<u32>::new());
}

#[test]
fn submit_stores_and_request_gives_back() {
    let mut state = RuntimeState::new(diamond_model());
    assert_eq!(state.variable_size(4), 8);
    state.submit(4, vec![1, 2, 3, 4, 5, 6, 7, 8]);
    assert_eq!(state.request(4), Some(&vec![1, 2, 3, 4, 5, 6, 7, 8]));
    state.submit(4, vec![9; 8]);
    assert_eq!(state.request(4), Some(&vec![9; 8]));
}

#[test]
fn submitting_inputs_readies_operations_in_order() {
    let mut state = RuntimeState::new(diamond_model());
    assert_eq!(state.submit(1, vec![0; 4]), Vec::<u32>::new());
    assert_eq!(state.submit(0, vec![0; 4]), vec![0, 1]);
    assert_eq!(state.available_operations(), set_of(&[0, 1]));
    // A second check marks nothing more.
    assert_eq!(state.check_ready_operations(), Vec::<u32>::new());
}

#[test]
fn readiness_check_skips_completed_and_unrunnable_operations() {
    let model = Model {
        variables: vec![variable(Type::U8), variable(Type::U8)],
        operations: vec![
            operation(vec![0], Vec::new(), Device::Host),
            operation(vec![0, 1], Vec::new(), Device::Host),
            operation(Vec::new(), Vec::new(), Device::Host),
        ],
        inputs: Vec::new(),
        outputs: Vec::new(),
    };
    let mut state = RuntimeState::new(model);
    assert_eq!(state.check_ready_operations(), vec![2]);
    state.claim_selected(2);
    assert_eq!(state.complete_operation(2), Vec::<u32>::new());
    state.store_variable(0, vec![1]);
    assert_eq!(state.check_ready_operations(), vec![0]);
    assert_eq!(state.available_operations(), set_of(&[0]));
}

#[test]
fn stored_inputs_become_ready_on_check() {
    let mut state = RuntimeState::new(diamond_model());
    state.store_variable(0, vec![0; 4]);
    assert!(state.available_operations().is_empty());
    assert_eq!(state.check_ready_operations(), vec![0]);
    assert_eq!(state.available_operations(), set_of(&[0]));
}

#[test]
fn claimed_operation_is_no_longer_available() {
    let mut state = RuntimeState::new(diamond_model());
    state.submit(0, vec![0; 4]);
    state.submit(1, vec![0; 4]);
    state.claim_selected(1);
    assert_eq!(state.available_operations(), set_of(&[0]));
    assert!(!state.claim_received(1));
    assert!(state.claim_received(0));
    assert!(state.available_operations().is_empty());
}

#[test]
fn full_run_completes_when_outputs_are_computed() {
    let mut state = RuntimeState::new(diamond_model());
    assert_eq!(state.submit(0, vec![0; 4]), vec![0]);
    assert_eq!(state.submit(1, vec![0; 4]), vec![1]);

    state.claim_selected(0);
    assert!(state.begin_operation(0));
    // The operation writes its output; a readiness check does not look at the
    // operations in progress, so the running operation is marked ready again,
    // though it is not offered to the load balancer while it runs.
    assert_eq!(state.submit(2, vec![0; 4]), vec![0]);
    assert_eq!(state.available_operations(), set_of(&[1]));
    assert_eq!(state.complete_operation(0), Vec::<u32>::new());
    assert!(!state.is_done());

    state.claim_selected(1);
    assert!(state.begin_operation(1));
    assert_eq!(state.submit(3, vec![0; 4]), vec![1, 2]);
    assert_eq!(state.complete_operation(1), Vec::<u32>::new());

    state.claim_selected(2);
    assert!(state.begin_operation(2));
    assert!(!state.all_outputs_computed());
    assert_eq!(state.submit(4, vec![7, 0, 0, 0, 0, 0, 0, 0]), vec![2]);
    assert!(state.all_outputs_computed());
    assert_eq!(state.complete_operation(2), Vec::<u32>::new());
    assert!(state.is_done());
    // Completing an operation takes it out of the ready ones: nothing
    // completed is offered to the load balancer.
    assert!(state.available_operations().is_empty());
    // An id that arrives again on the channel is not run.
    assert!(state.claim_received(2));
    assert!(!state.begin_operation(2));
}

#[test]
fn completed_operation_is_not_run_again() {
    let mut state = RuntimeState::new(diamond_model());
    assert_eq!(state.submit(0, vec![0; 4]), vec![0]);
    state.claim_selected(0);
    assert!(state.begin_operation(0));
    assert_eq!(state.complete_operation(0), Vec::<u32>::new());
    // The same id arriving again from the channel is not executed.
    assert!(state.claim_received(0));
    assert!(!state.begin_operation(0));
    assert!(state.claim_received(0));
    // A new readiness check does not mark it again.
    assert_eq!(state.check_ready_operations(), Vec::<u32>::new());
    assert!(state.available_operations().is_empty());
}

#[test]
fn model_without_outputs_is_done_after_one_operation() {
    let model = Model {
        variables: vec![variable(Type::U8)],
        operations: vec![operation(Vec::new(), vec![0], Device::Host)],
        inputs: Vec::new(),
        outputs: Vec::new(),
    };
    let mut state = RuntimeState::new(model);
    assert_eq!(state.check_ready_operations(), vec![0]);
    assert!(state.all_outputs_computed());
    state.claim_selected(0);
    assert_eq!(state.complete_operation(0), Vec::<u32>::new());
    assert!(state.is_done());
}

#[test]
fn native_byte_order_is_the_machine_order() {
    assert_eq!(native_is_little_endian(), u16::from_ne_bytes([1, 0]) == 1);
}

#[test]
fn integer_inputs_encode_natively() {
    assert_eq!(encode_input(Type::U8, "12"), Ok(InputEncoding::Native(vec![12])));
    assert_eq!(encode_input(Type::I8, "-1"), Ok(InputEncoding::Native(vec![255])));
    assert_eq!(encode_input(Type::I16, "-2"), Ok(InputEncoding::Native((-2i16).to_ne_bytes().to_vec())));
    assert_eq!(encode_input(Type::U16, "+513"), Ok(InputEncoding::Native(513u16.to_ne_bytes().to_vec())));
    assert_eq!(encode_input(Type::I32, "-2147483648"), Ok(InputEncoding::Native(i32::MIN.to_ne_bytes().to_vec())));
    assert_eq!(encode_input(Type::U32, "4294967295"), Ok(InputEncoding::Native(u32::MAX.to_ne_bytes().to_vec())));
    assert_eq!(encode_input(Type::I64, "-9223372036854775808"), Ok(InputEncoding::Native(i64::MIN.to_ne_bytes().to_vec())));
    assert_eq!(encode_input(Type::U64, "18446744073709551615"), Ok(InputEncoding::Native(u64::MAX.to_ne_bytes().to_vec())));
    assert_eq!(encode_input(Type::Isize, "-7"), Ok(InputEncoding::Native((-7isize).to_ne_bytes().to_vec())));
    assert_eq!(encode_input(Type::Usize, "7"), Ok(InputEncoding::Native(7usize.to_ne_bytes().to_vec())));
    assert_eq!(encode_input(Type::I8, "-0"), Ok(InputEncoding::Native(vec![0])));
}

#[test]
fn integer_inputs_out_of_range_or_malformed_are_refused() {
    assert_eq!(encode_input(Type::U8, "256"), Err(InputError::Parse(Type::U8)));
    assert_eq!(encode_input(Type::I8, "128"), Err(InputError::Parse(Type::I8)));
    assert_eq!(encode_input(Type::I8, "-129"), Err(InputError::Parse(Type::I8)));
    assert_eq!(encode_input(Type::U8, "-0"), Err(InputError::Parse(Type::U8)));
    assert_eq!(encode_input(Type::U32, "-1"), Err(InputError::Parse(Type::U32)));
    assert_eq!(encode_input(Type::I32, ""), Err(InputError::Parse(Type::I32)));
    assert_eq!(encode_input(Type::I32, "+"), Err(InputError::Parse(Type::I32)));
    assert_eq!(encode_input(Type::I32, " 5"), Err(InputError::Parse(Type::I32)));
    assert_eq!(encode_input(Type::I32, "5x"), Err(InputError::Parse(Type::I32)));
    assert_eq!(encode_input(Type::U64, "18446744073709551616"), Err(InputError::Parse(Type::U64)));
    assert_eq!(encode_input(Type::I64, "99999999999999999999999999999999999999999"), Err(InputError::Parse(Type::I64)));
}

#[test]
fn other_inputs_are_left_to_the_caller_or_refused() {
    assert_eq!(encode_input(Type::F32, "1.5"), Ok(InputEncoding::Float32));
    assert_eq!(encode_input(Type::F64, "x"), Ok(InputEncoding::Float64));
    assert_eq!(encode_input(Type::String, "hello"), Ok(InputEncoding::CString));
    assert_eq!(encode_input(Type::Pointer, "0"), Err(InputError::Unsupported(Type::Pointer)));
}

#[test]
fn argument_count_must_match_inputs() {
    let model = diamond_model();
    assert_eq!(check_argument_count(&model, 2), Ok(()));
    assert_eq!(check_argument_count(&model, 1), Err(InputError::ArgumentCount { expected: 2, found: 1 }));
    assert_eq!(check_argument_count(&model, 3), Err(InputError::ArgumentCount { expected: 2, found: 3 }));
    assert_eq!(check_argument_count(&model, 0), Err(InputError::ArgumentCount { expected: 2, found: 0 }));
}

#[test]
fn outputs_decode_natively() {
    assert_eq!(decode_output(Type::U8, &vec![200]), Ok(OutputValue::Integer(200)));
    assert_eq!(decode_output(Type::I8, &vec![200]), Ok(OutputValue::Integer(-56)));
    assert_eq!(decode_output(Type::I16, &(-300i16).to_ne_bytes().to_vec()), Ok(OutputValue::Integer(-300)));
    assert_eq!(decode_output(Type::U16, &60000u16.to_ne_bytes().to_vec()), Ok(OutputValue::Integer(60000)));
    assert_eq!(decode_output(Type::I32, &i32::MIN.to_ne_bytes().to_vec()), Ok(OutputValue::Integer(i32::MIN as i128)));
    assert_eq!(decode_output(Type::U32, &u32::MAX.to_ne_bytes().to_vec()), Ok(OutputValue::Integer(u32::MAX as i128)));
    assert_eq!(decode_output(Type::I64, &i64::MIN.to_ne_bytes().to_vec()), Ok(OutputValue::Integer(i64::MIN as i128)));
    assert_eq!(decode_output(Type::U64, &u64::MAX.to_ne_bytes().to_vec()), Ok(OutputValue::Integer(u64::MAX as i128)));
    assert_eq!(decode_output(Type::Isize, &(-9isize).to_ne_bytes().to_vec()), Ok(OutputValue::Integer(-9)));
    assert_eq!(decode_output(Type::Usize, &9usize.to_ne_bytes().to_vec()), Ok(OutputValue::Integer(9)));
    // Only the leading bytes of the type are read.
    assert_eq!(decode_output(Type::U8, &vec![3, 4, 5]), Ok(OutputValue::Integer(3)));
}

#[test]
fn other_outputs_decode_or_are_refused() {
    let f = 1.5f32.to_ne_bytes().to_vec();
    assert_eq!(decode_output(Type::F32, &f), Ok(OutputValue::Float32(f.clone())));
    let d = 2.25f64.to_ne_bytes().to_vec();
    assert_eq!(decode_output(Type::F64, &d), Ok(OutputValue::Float64(d.clone())));
    let addr: usize = 0x1234;
    let mut s = addr.to_ne_bytes().to_vec();
    s.resize(8, 0);
    assert_eq!(decode_output(Type::String, &s), Ok(OutputValue::CString(addr)));
    assert_eq!(decode_output(Type::Pointer, &vec![0; 8]), Err(OutputError::Unsupported(Type::Pointer)));
    assert_eq!(decode_output(Type::I32, &vec![0; 3]), Err(OutputError::Truncated(Type::I32)));
    assert_eq!(decode_output(Type::F64, &vec![0; 4]), Err(OutputError::Truncated(Type::F64)));
}

#[test]
fn input_reads_back_as_output() {
    let cases = [
        (Type::I8, "-128"),
        (Type::U8, "255"),
        (Type::I16, "-12345"),
        (Type::U16, "65535"),
        (Type::I32, "-1"),
        (Type::U32, "123456789"),
        (Type::I64, "-9000000000"),
        (Type::U64, "18446744073709551615"),
        (Type::Isize, "-42"),
        (Type::Usize, "42"),
    ];
    for (ty, text) in cases {
        let bytes = match encode_input(ty, text) {
            Ok(InputEncoding::Native(bytes)) => bytes,
            other => panic!("unexpected {:?}", other),
        };
        assert_eq!(decode_output(ty, &bytes), Ok(OutputValue::Integer(text.parse::<i128>().unwrap())));
    }
}

#[test]
fn output_value_reads_the_runtime() {
    let mut state = RuntimeState::new(diamond_model());
    assert_eq!(output_value(&state, 4), Ok(OutputValue::NotComputed));
    state.submit(4, (-5i64).to_ne_bytes().to_vec());
    assert_eq!(output_value(&state, 4), Ok(OutputValue::Integer(-5)));
}

#[test]
fn encoded_inputs_have_their_type_size() {
    let types = [
        (Type::I8, "-3"),
        (Type::U8, "3"),
        (Type::I16, "-3"),
        (Type::U16, "3"),
        (Type::I32, "-3"),
        (Type::U32, "3"),
        (Type::I64, "-3"),
        (Type::U64, "3"),
        (Type::Isize, "-3"),
        (Type::Usize, "3"),
    ];
    for (ty, text) in types {
        match encode_input(ty, text) {
            Ok(InputEncoding::Native(bytes)) => assert_eq!(bytes.len(), get_type_size(&ty)),
            other => panic!("unexpected {:?}", other),
        }
    }
}

#[test]
fn available_operations_exclude_those_in_progress() {
    let mut state = RuntimeState::new(diamond_model());
    state.submit(0, vec![0; 4]);
    state.submit(1, vec![0; 4]);
    assert!(state.claim_received(0));
    assert_eq!(state.available_operations(), set_of(&[1]));
    assert_eq!(state.model().operations.len(), 3);
}

#[test]
fn output_values_follow_the_outputs_in_order() {
    let mut model = diamond_model();
    model.outputs = vec![4, 9, 2];
    let mut state = RuntimeState::new(model);
    state.submit(2, 17i32.to_ne_bytes().to_vec());
    assert_eq!(
        output_values(&state),
        vec![
            (4, Ok(OutputValue::NotComputed)),
            (9, Err(OutputError::Undeclared(9))),
            (2, Ok(OutputValue::Integer(17))),
        ]
    );
}
