use ic_replica_core::system_api_meter::{
    debug_print_produces_output, ExecutionComplexity, GlobalValue, HypervisorError, Meter,
    PerformanceCounterType, SubnetType,
};

fn meter(subnet_type: SubnetType, left: i64) -> Meter {
    Meter {
        subnet_type,
        total_instruction_limit: 1000,
        total_complexity: ExecutionComplexity { cpu: 0, memory: 0, disk: 0, network: 0 },
        num_instructions_global: Some(GlobalValue::I64(left)),
        execution_error: None,
    }
}

fn cpu(cpu: u64) -> ExecutionComplexity {
    ExecutionComplexity { cpu, memory: 1, disk: 0, network: 2 }
}

#[test]
fn charging_takes_overhead_and_byte_fee() {
    let mut m = meter(SubnetType::Application, 500);
    assert_eq!(m.charge_for_system_api_call(20, 30, &cpu(10)), Ok(()));
    assert_eq!(m.num_instructions_global, Some(GlobalValue::I64(450)));
    assert_eq!(m.total_complexity, ExecutionComplexity { cpu: 10, memory: 1, disk: 0, network: 2 });
    assert_eq!(m.execution_error, None);
}

#[test]
fn running_out_of_instructions() {
    let mut m = meter(SubnetType::Application, 40);
    assert_eq!(m.charge_for_system_api_call(20, 30, &cpu(10)), Err(HypervisorError::InstructionLimitExceeded));
    assert_eq!(m.num_instructions_global, Some(GlobalValue::I64(40)));
    assert_eq!(m.execution_error, Some(HypervisorError::InstructionLimitExceeded));
    // The exact fee is fine.
    let mut exact = meter(SubnetType::Application, 50);
    assert_eq!(exact.charge_for_system_api_call(20, 30, &cpu(10)), Ok(()));
    assert_eq!(exact.num_instructions_global, Some(GlobalValue::I64(0)));
}

#[test]
fn negative_counter_counts_as_zero() {
    let mut m = meter(SubnetType::Application, -5);
    assert_eq!(m.load_instructions(), Ok(0));
    assert_eq!(m.charge_for_system_api_call(0, 0, &cpu(0)), Ok(()));
    assert_eq!(m.num_instructions_global, Some(GlobalValue::I64(0)));
}

#[test]
fn missing_or_mistyped_global() {
    let mut m = meter(SubnetType::Application, 0);
    m.num_instructions_global = Some(GlobalValue::Other);
    assert_eq!(m.load_instructions(), Err(HypervisorError::InstructionLimitExceeded));
    m.num_instructions_global = None;
    m.execution_error = None;
    assert_eq!(m.charge_for_system_api_call(1, 1, &cpu(1)), Err(HypervisorError::InstructionLimitExceeded));
    assert_eq!(m.total_complexity.cpu, 1);
}

#[test]
fn complexity_limit_outside_system_subnets() {
    let mut app = meter(SubnetType::Application, 5000);
    assert_eq!(app.observe_execution_complexity(&cpu(1000)), Ok(()));
    assert_eq!(app.observe_execution_complexity(&cpu(1)), Err(HypervisorError::InstructionLimitExceeded));
    assert_eq!(app.total_complexity.cpu, 1000);
    let mut system = meter(SubnetType::System, 5000);
    assert_eq!(system.observe_execution_complexity(&cpu(2000)), Ok(()));
    assert_eq!(system.total_complexity.cpu, 2000);
}

#[test]
fn performance_counter_counts_used_instructions() {
    let mut m = meter(SubnetType::Application, 300);
    assert_eq!(m.performance_counter_type(0), Ok(PerformanceCounterType::Instructions(700)));
    let mut over = meter(SubnetType::Application, 3000);
    assert_eq!(over.performance_counter_type(0), Ok(PerformanceCounterType::Instructions(1000)));
    assert_eq!(m.performance_counter_type(1), Err(HypervisorError::UnknownPerformanceCounter { counter_type: 1 }));
    assert_eq!(m.execution_error, Some(HypervisorError::UnknownPerformanceCounter { counter_type: 1 }));
}

#[test]
fn debug_print_rate_limiting() {
    assert!(!debug_print_produces_output(SubnetType::Application, true));
    assert!(!debug_print_produces_output(SubnetType::VerifiedApplication, true));
    assert!(debug_print_produces_output(SubnetType::System, true));
    assert!(debug_print_produces_output(SubnetType::Application, false));
}

#[test]
fn performance_counter_answer_of_the_system_api() {
    let mut m = meter(SubnetType::Application, 300);
    assert_eq!(m.performance_counter_outcome(Ok(42)), Ok(42));
    assert_eq!(m.execution_error, None);
    assert_eq!(
        m.performance_counter_outcome(Err(HypervisorError::InstructionLimitExceeded)),
        Err(HypervisorError::InstructionLimitExceeded)
    );
    assert_eq!(m.execution_error, Some(HypervisorError::InstructionLimitExceeded));
}
