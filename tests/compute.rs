use rustquantic::compute::{
    encode_types, flatten_bonds, group_words, symbol_code_of, workgroup_count, AtomPipelineParams, ComputePass,
    MinimizationParams, PassAction, PassEvent, PassStage, ProcessKind, SimulationParams,
};
use rustquantic::error::CoreError;

fn params(tag: u32, max_steps: u32) -> AtomPipelineParams {
    AtomPipelineParams { step_size_bits: 0.1f32.to_bits(), max_steps, process_type: tag }
}

fn atoms(n: u32) -> Vec<(u32, u32, u32)> {
    (0..n).map(|i| ((i as f32).to_bits(), 1.5f32.to_bits(), (-2.0f32).to_bits())).collect()
}

fn types(names: &[&str]) -> Vec<String> {
    names.iter().map(|s| s.to_string()).collect()
}

#[test]
fn mismatched_lengths_are_malformed() {
    let r = ComputePass::begin(&atoms(3), &types(&["C", "C"]), &vec![], params(0, 10));
    assert_eq!(r.err(), Some(CoreError::MalformedInput));
}

#[test]
fn bond_outside_structure_is_malformed() {
    let r = ComputePass::begin(&atoms(2), &types(&["C", "O"]), &vec![(0, 2)], params(1, 10));
    assert_eq!(r.err(), Some(CoreError::MalformedInput));
}

#[test]
fn no_device_gives_device_unavailable() {
    let mut pass = ComputePass::begin(&atoms(2), &types(&["C", "O"]), &vec![(0, 1)], params(2, 10)).unwrap();
    assert_eq!(pass.stage(), PassStage::AwaitDevice);
    match pass.on_event(PassEvent::DeviceMissing) {
        PassAction::Finish(r) => assert_eq!(r.err(), Some(CoreError::DeviceUnavailable)),
        other => panic!("unexpected {:?}", other),
    }
    assert_eq!(pass.stage(), PassStage::Finished);
    assert!(matches!(pass.on_event(PassEvent::DeviceReady), PassAction::Ignore));
}

#[test]
fn unknown_kind_is_rejected_before_dispatch() {
    let mut pass = ComputePass::begin(&atoms(1), &types(&["C"]), &vec![], params(7, 10)).unwrap();
    match pass.on_event(PassEvent::DeviceReady) {
        PassAction::Finish(r) => assert_eq!(r.err(), Some(CoreError::InvalidProcessKind)),
        other => panic!("unexpected {:?}", other),
    }
}

#[test]
fn full_pass_keeps_length_and_order() {
    for tag in 0..3u32 {
        let mut pass = ComputePass::begin(&atoms(2), &types(&["C", "O"]), &vec![(0, 1)], params(tag, 0)).unwrap();
        match pass.on_event(PassEvent::DeviceReady) {
            PassAction::Dispatch(k) => assert_eq!(k.tag(), tag),
            other => panic!("unexpected {:?}", other),
        }
        assert_eq!(pass.stage(), PassStage::AwaitResult);
        match pass.on_event(PassEvent::ResultMapped(vec![1, 2, 3, 4, 5, 6])) {
            PassAction::Finish(Ok(v)) => assert_eq!(v, vec![(1, 2, 3), (4, 5, 6)]),
            other => panic!("unexpected {:?}", other),
        }
    }
}

#[test]
fn empty_structure_passes_with_empty_result() {
    let mut pass = ComputePass::begin(&atoms(0), &vec![], &vec![], params(0, 5)).unwrap();
    assert_eq!(pass.plan().workgroups, 0);
    assert!(matches!(pass.on_event(PassEvent::DeviceReady), PassAction::Dispatch(ProcessKind::Relax)));
    match pass.on_event(PassEvent::ResultMapped(vec![])) {
        PassAction::Finish(Ok(v)) => assert!(v.is_empty()),
        other => panic!("unexpected {:?}", other),
    }
}

#[test]
fn short_or_failed_readback_is_a_failure() {
    let mut pass = ComputePass::begin(&atoms(2), &types(&["C", "O"]), &vec![], params(1, 3)).unwrap();
    assert!(matches!(pass.on_event(PassEvent::MapFailed), PassAction::Ignore));
    assert!(matches!(pass.on_event(PassEvent::DeviceReady), PassAction::Dispatch(ProcessKind::Minimize)));
    match pass.on_event(PassEvent::ResultMapped(vec![1, 2, 3])) {
        PassAction::Finish(r) => assert_eq!(r.err(), Some(CoreError::ReadbackFailure)),
        other => panic!("unexpected {:?}", other),
    }
    let mut pass = ComputePass::begin(&atoms(1), &types(&["C"]), &vec![], params(2, 3)).unwrap();
    pass.on_event(PassEvent::DeviceReady);
    match pass.on_event(PassEvent::MapFailed) {
        PassAction::Finish(r) => assert_eq!(r.err(), Some(CoreError::ReadbackFailure)),
        other => panic!("unexpected {:?}", other),
    }
}

#[test]
fn one_dispatch_per_pass() {
    let mut pass = ComputePass::begin(&atoms(1), &types(&["C"]), &vec![], params(0, 100)).unwrap();
    assert!(matches!(pass.on_event(PassEvent::DeviceReady), PassAction::Dispatch(ProcessKind::Relax)));
    assert!(matches!(pass.on_event(PassEvent::DeviceReady), PassAction::Ignore));
    assert_eq!(pass.plan().params.max_steps, 100);
    match pass.on_event(PassEvent::ResultMapped(vec![7, 8, 9])) {
        PassAction::Finish(Ok(v)) => assert_eq!(v, vec![(7, 8, 9)]),
        other => panic!("unexpected {:?}", other),
    }
    assert!(matches!(pass.on_event(PassEvent::ResultMapped(vec![1, 2, 3])), PassAction::Ignore));
    assert_eq!(pass.stage(), PassStage::Finished);
}

#[test]
fn plan_encodes_buffers() {
    let p = params(2, 100);
    let pass = ComputePass::begin(&atoms(3), &types(&["C", "Na", "O"]), &vec![(0, 1), (2, 1)], p).unwrap();
    let plan = pass.plan();
    assert_eq!(plan.atom_count, 3);
    assert_eq!(plan.workgroups, 1);
    assert_eq!(plan.type_codes, vec![67, 78 + 97 * 256, 79]);
    assert_eq!(plan.bond_indices, vec![0, 1, 2, 1]);
    assert_eq!(plan.params, p);
    assert_eq!(plan.position_words.len(), 9);
    assert_eq!(plan.position_words[3], 1.0f32.to_bits());
}

#[test]
fn untouched_buffer_returns_the_input() {
    let input = atoms(3);
    let mut pass = ComputePass::begin(&input, &types(&["C", "O", "N"]), &vec![(0, 1)], params(1, 0)).unwrap();
    let uploaded = pass.plan().position_words.clone();
    assert!(matches!(pass.on_event(PassEvent::DeviceReady), PassAction::Dispatch(_)));
    match pass.on_event(PassEvent::ResultMapped(uploaded)) {
        PassAction::Finish(Ok(v)) => assert_eq!(v, input),
        other => panic!("unexpected {:?}", other),
    }
}

#[test]
fn workgroups_round_up() {
    assert_eq!(workgroup_count(0), 0);
    assert_eq!(workgroup_count(1), 1);
    assert_eq!(workgroup_count(64), 1);
    assert_eq!(workgroup_count(65), 2);
    assert_eq!(workgroup_count(u32::MAX), 67108864);
}

#[test]
fn symbol_codes_are_fixed_width() {
    assert_eq!(symbol_code_of(&"".to_string()), 0);
    assert_eq!(symbol_code_of(&"H".to_string()), 72);
    assert_eq!(symbol_code_of(&"ABCDE".to_string()), 65 + 66 * 256 + 67 * 65536 + 68 * 16777216);
    assert_eq!(encode_types(&types(&["H", "He"])), vec![72, 72 + 101 * 256]);
}

#[test]
fn bonds_flatten_in_order() {
    assert_eq!(flatten_bonds(&vec![(3, 4), (0, 9)], 10), vec![3, 4, 0, 9]);
    assert!(flatten_bonds(&vec![], 0).is_empty());
}

#[test]
fn words_group_into_triples() {
    assert_eq!(group_words(&vec![9, 8, 7], 1), vec![(9, 8, 7)]);
}

#[test]
fn kinds_by_tag_and_name() {
    assert_eq!(ProcessKind::from_tag(0), Ok(ProcessKind::Relax));
    assert_eq!(ProcessKind::from_tag(1), Ok(ProcessKind::Minimize));
    assert_eq!(ProcessKind::from_tag(2), Ok(ProcessKind::Simulate));
    assert_eq!(ProcessKind::from_tag(3), Err(CoreError::InvalidProcessKind));
    assert_eq!(ProcessKind::from_name("minimize"), Ok(ProcessKind::Minimize));
    assert_eq!(ProcessKind::from_name("simulate"), Ok(ProcessKind::Simulate));
    assert_eq!(ProcessKind::from_name("relax"), Ok(ProcessKind::Relax));
    assert_eq!(ProcessKind::from_name("Relax"), Err(CoreError::InvalidProcessKind));
    assert_eq!(ProcessKind::Simulate.kernel_file(), "simulate.wgsl");
    assert_eq!(ProcessKind::Relax.tag(), 0);
}

#[test]
fn specific_params_select_their_kernel() {
    let m = MinimizationParams { step_size_bits: 5, max_steps: 100 }.pipeline_params();
    assert_eq!(m, AtomPipelineParams { step_size_bits: 5, max_steps: 100, process_type: 1 });
    let s = SimulationParams { step_size_bits: 6, max_steps: 0 }.pipeline_params();
    assert_eq!(s, AtomPipelineParams { step_size_bits: 6, max_steps: 0, process_type: 2 });
}

#[test]
fn error_messages_are_distinct() {
    assert_eq!(CoreError::DeviceUnavailable.message(), "no compatible GPU device");
    assert_ne!(CoreError::MalformedInput.message(), CoreError::ReadbackFailure.message());
}
