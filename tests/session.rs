use deorr::adapter::{select_adapter, DeviceKind};
use deorr::job::{advance, begin, next_action, DeorrError, JobAction, JobStage};
use deorr::kind::{same_text, DeorrInput, DeorrType, DeorrTypeError};
use deorr::shader::kernel_source;

#[test]
fn prefers_discrete_gpu() {
    let kinds = vec![DeviceKind::Cpu, DeviceKind::IntegratedGpu, DeviceKind::DiscreteGpu, DeviceKind::DiscreteGpu];
    assert_eq!(select_adapter(&kinds), Some(2));
}

#[test]
fn falls_back_to_integrated_gpu() {
    let kinds = vec![DeviceKind::Cpu, DeviceKind::Other, DeviceKind::IntegratedGpu];
    assert_eq!(select_adapter(&kinds), Some(2));
}

#[test]
fn falls_back_to_first_adapter() {
    let kinds = vec![DeviceKind::VirtualGpu, DeviceKind::Cpu];
    assert_eq!(select_adapter(&kinds), Some(0));
}

#[test]
fn no_adapters_no_choice() {
    assert_eq!(select_adapter(&vec![]), None);
}

#[test]
fn empty_job_is_complete_at_once() {
    let s = begin(0);
    assert_eq!(s, JobStage::Completed);
    assert_eq!(next_action(s), JobAction::Stop);
    assert_eq!(advance(s, Ok(())), JobStage::Completed);
}

#[test]
fn job_walks_every_stage() {
    let mut s = begin(10);
    let mut actions = vec![];
    while next_action(s) != JobAction::Stop {
        actions.push(next_action(s));
        s = advance(s, Ok(()));
    }
    assert_eq!(s, JobStage::Completed);
    assert_eq!(
        actions,
        vec![
            JobAction::AllocateBuffers,
            JobAction::EncodeDispatch,
            JobAction::SubmitWithCopy,
            JobAction::RequestMap,
            JobAction::AwaitMap,
            JobAction::ReadAndRelease,
        ]
    );
}

#[test]
fn job_failure_is_final() {
    let s = advance(JobStage::AwaitingMap, Err(DeorrError::MapFailure));
    assert_eq!(s, JobStage::Failed(DeorrError::MapFailure));
    assert_eq!(advance(s, Ok(())), s);
    assert_eq!(next_action(s), JobAction::Stop);
}

#[test]
fn type_names_resolve() {
    assert_eq!(DeorrType::from_type_name("f32"), Ok(DeorrType::F32));
    assert_eq!(DeorrType::from_type_name("u32"), Ok(DeorrType::U32));
    assert_eq!(DeorrType::from_type_name("i32"), Ok(DeorrType::I32));
    assert_eq!(DeorrType::from_type_name("f64"), Err(DeorrTypeError));
    assert_eq!(DeorrType::from_type_name(""), Err(DeorrTypeError));
    assert_eq!(DeorrType::from_type_name("u3"), Err(DeorrTypeError));
}

#[test]
fn kinds_of_inputs() {
    let a: [u32; 2] = [1, 2];
    let b: [i32; 1] = [-1];
    assert_eq!(DeorrType::from_input(&a), Ok(DeorrType::U32));
    assert_eq!(DeorrType::from_input(&b), Ok(DeorrType::I32));
    let d = DeorrInput::new(&b).unwrap();
    assert_eq!(d.t, DeorrType::I32);
    assert_eq!(d.v, &[-1]);
}

#[test]
fn names_and_widths() {
    assert_eq!(DeorrType::F32.name(), "f32");
    assert_eq!(DeorrType::U32.name(), "u32");
    assert_eq!(DeorrType::I32.name(), "i32");
    assert_eq!(DeorrType::allowed_type_names(), vec!["f32", "u32", "i32"]);
    assert_eq!(DeorrType::U32.byte_width(), 4);
}

#[test]
fn error_message_lists_the_kinds() {
    assert_eq!(
        DeorrTypeError.message(),
        "Unsupported type for DeorrInput: only f32, u32, i32 are allowed"
    );
}

#[test]
fn text_comparison() {
    assert!(same_text("abc", "abc"));
    assert!(!same_text("abc", "abd"));
    assert!(!same_text("ab", "abc"));
    assert!(same_text("", ""));
}

#[test]
fn kernel_source_names_the_kind() {
    let src = kernel_source(DeorrType::I32);
    assert_eq!(src.matches("array<i32>").count(), 2);
    assert!(!src.contains("array<u32>"));
    assert!(src.contains("@workgroup_size(64)"));
    assert!(src.contains("fn main("));
}

#[test]
fn kind_error_converts() {
    assert_eq!(DeorrError::from(DeorrTypeError), DeorrError::UnsupportedElementKind);
}
