//! The instruction and complexity accounting of the system API calls a
//! canister makes from WebAssembly: the charge for each call, the
//! complexity limit, the performance counter and the debug print rule.
//!
//! The WebAssembly global that counts the instructions left is read and
//! written by the embedder; its value is held here between those steps.
use vstd::prelude::*;

verus! {

/// The type of a subnet.
#[derive(Clone, Copy, Debug, PartialEq, Eq, Structural)]
pub enum SubnetType {
    Application,
    System,
    VerifiedApplication,
}

/// The value found in the instruction counter global.
#[derive(Clone, Copy, Debug, PartialEq, Eq, Structural)]
pub enum GlobalValue {
    I64(i64),
    /// A value of another type.
    Other,
}

/// The errors the accounting raises.
#[derive(Clone, Copy, Debug, PartialEq, Eq, Structural)]
pub enum HypervisorError {
    InstructionLimitExceeded,
    /// An unknown performance counter type was asked for.
    UnknownPerformanceCounter { counter_type: u32 },
}

/// The complexity of executing a message so far.
#[derive(Clone, Copy, Debug, PartialEq, Eq, Structural)]
pub struct ExecutionComplexity {
    pub cpu: u64,
    pub memory: u64,
    pub disk: u64,
    pub network: u64,
}

pub open spec fn sum_fits(a: ExecutionComplexity, b: ExecutionComplexity) -> bool {
    a.cpu + b.cpu <= u64::MAX && a.memory + b.memory <= u64::MAX && a.disk + b.disk
        <= u64::MAX && a.network + b.network <= u64::MAX
}

pub open spec fn sum_spec(a: ExecutionComplexity, b: ExecutionComplexity) -> ExecutionComplexity {
    ExecutionComplexity {
        cpu: (a.cpu + b.cpu) as u64,
        memory: (a.memory + b.memory) as u64,
        disk: (a.disk + b.disk) as u64,
        network: (a.network + b.network) as u64,
    }
}

/// The state of the accounting during the execution of a message.
#[derive(Clone, Copy, Debug, PartialEq, Eq, Structural)]
pub struct Meter {
    pub subnet_type: SubnetType,
    /// The instruction limit of the whole message.
    pub total_instruction_limit: u64,
    pub total_complexity: ExecutionComplexity,
    /// The instruction counter global, when the instance has one.
    pub num_instructions_global: Option<GlobalValue>,
    /// The error that stopped the execution, if any.
    pub execution_error: Option<HypervisorError>,
}

/// The number of instructions a global value stands for: its integer, or
/// zero when negative.
pub open spec fn instructions_in(v: i64) -> u64 {
    if v < 0 {
        0
    } else {
        v as u64
    }
}

/// The instructions left according to the counter global: `None` when there
/// is no global or it does not hold an `i64`.
pub open spec fn loaded_instructions(m: Meter) -> Option<u64> {
    match m.num_instructions_global {
        Some(GlobalValue::I64(v)) => Some(instructions_in(v)),
        _ => None,
    }
}

impl Meter {
    /// Records the error that stops the execution and returns it.
    fn fail(&mut self, e: HypervisorError) -> (res: HypervisorError)
        ensures
            res == e,
            *final(self) == (Meter { execution_error: Some(e), ..*old(self) }),
    {
        self.execution_error = Some(e);
        e
    }

    /// The instructions left, read from the counter global; a missing global
    /// or a value of another type than `i64` stops the execution as if the
    /// limit were exceeded.
    pub fn load_instructions(&mut self) -> (res: Result<u64, HypervisorError>)
        ensures
            res == match loaded_instructions(*old(self)) {
                Some(n) => Ok::<u64, HypervisorError>(n),
                None => Err(HypervisorError::InstructionLimitExceeded),
            },
            res is Ok ==> *final(self) == *old(self),
            res is Err ==> *final(self) == (Meter {
                execution_error: Some(HypervisorError::InstructionLimitExceeded),
                ..*old(self)
            }),
    {
        match self.num_instructions_global {
            Some(GlobalValue::I64(v)) => Ok(if v < 0 {
                0
            } else {
                v as u64
            }),
            _ => Err(self.fail(HypervisorError::InstructionLimitExceeded)),
        }
    }

    /// Adds `complexity` to the message's complexity; outside system subnets a
    /// total CPU complexity above the message's instruction limit stops the
    /// execution and leaves the total as it was.
    pub fn observe_execution_complexity(&mut self, complexity: &ExecutionComplexity) -> (res: Result<
        (),
        HypervisorError,
    >)
        requires
            sum_fits(old(self).total_complexity, *complexity),
        ensures
            ({
                let total = sum_spec(old(self).total_complexity, *complexity);
                if old(self).subnet_type != SubnetType::System && total.cpu
                    > old(self).total_instruction_limit {
                    res == Err::<(), HypervisorError>(HypervisorError::InstructionLimitExceeded)
                        && *final(self) == (Meter {
                        execution_error: Some(HypervisorError::InstructionLimitExceeded),
                        ..*old(self)
                    })
                } else {
                    res is Ok && *final(self) == (Meter { total_complexity: total, ..*old(self) })
                }
            }),
    {
        let total = ExecutionComplexity {
            cpu: self.total_complexity.cpu + complexity.cpu,
            memory: self.total_complexity.memory + complexity.memory,
            disk: self.total_complexity.disk + complexity.disk,
            network: self.total_complexity.network + complexity.network,
        };
        if self.subnet_type != SubnetType::System && total.cpu > self.total_instruction_limit {
            return Err(self.fail(HypervisorError::InstructionLimitExceeded));
        }
        self.total_complexity = total;
        Ok(())
    }

    /// Charges a system API call: observes its complexity, then takes
    /// `overhead` plus `bytes_fee` (the instructions for the bytes it
    /// touches) from the counter global. Running short of instructions stops
    /// the execution with the counter unchanged.
    pub fn charge_for_system_api_call(
        &mut self,
        overhead: u64,
        bytes_fee: u64,
        complexity: &ExecutionComplexity,
    ) -> (res: Result<(), HypervisorError>)
        requires
            sum_fits(old(self).total_complexity, *complexity),
            overhead + bytes_fee <= i64::MAX,
        ensures
            ({
                let total = sum_spec(old(self).total_complexity, *complexity);
                let observed = Meter { total_complexity: total, ..*old(self) };
                let fee = overhead + bytes_fee;
                if old(self).subnet_type != SubnetType::System && total.cpu
                    > old(self).total_instruction_limit {
                    res == Err::<(), HypervisorError>(HypervisorError::InstructionLimitExceeded)
                        && *final(self) == (Meter {
                        execution_error: Some(HypervisorError::InstructionLimitExceeded),
                        ..*old(self)
                    })
                } else {
                    match loaded_instructions(*old(self)) {
                        None => res == Err::<(), HypervisorError>(
                            HypervisorError::InstructionLimitExceeded,
                        ) && *final(self) == (Meter {
                            execution_error: Some(HypervisorError::InstructionLimitExceeded),
                            ..observed
                        }),
                        Some(current) => if current < fee {
                            res == Err::<(), HypervisorError>(
                                HypervisorError::InstructionLimitExceeded,
                            ) && *final(self) == (Meter {
                                execution_error: Some(HypervisorError::InstructionLimitExceeded),
                                ..observed
                            })
                        } else {
                            res is Ok && *final(self) == (Meter {
                                num_instructions_global: Some(
                                    GlobalValue::I64((current - fee) as i64),
                                ),
                                ..observed
                            })
                        },
                    }
                }
            }),
    {
        self.observe_execution_complexity(complexity)?;
        let current = self.load_instructions()?;
        let fee = overhead + bytes_fee;
        if current < fee {
            return Err(self.fail(HypervisorError::InstructionLimitExceeded));
        }
        self.num_instructions_global = Some(GlobalValue::I64((current - fee) as i64));
        Ok(())
    }

    /// The performance counter that `counter_type` asks for, to be handed to
    /// the system API: type 0 is the instructions used so far, the message
    /// limit minus the instructions left (the whole limit when more are left
    /// than the limit). Any other type stops the execution.
    pub fn performance_counter_type(&mut self, counter_type: u32) -> (res: Result<PerformanceCounterType, HypervisorError>)
        ensures
            counter_type != 0 ==> res == Err::<PerformanceCounterType, HypervisorError>(
                HypervisorError::UnknownPerformanceCounter { counter_type },
            ) && *final(self) == (Meter {
                execution_error: Some(HypervisorError::UnknownPerformanceCounter { counter_type }),
                ..*old(self)
            }),
            counter_type == 0 ==> match loaded_instructions(*old(self)) {
                None => res == Err::<PerformanceCounterType, HypervisorError>(HypervisorError::InstructionLimitExceeded)
                    && *final(self) == (Meter {
                    execution_error: Some(HypervisorError::InstructionLimitExceeded),
                    ..*old(self)
                }),
                Some(current) => *final(self) == *old(self) && res == Ok::<PerformanceCounterType, HypervisorError>(
                    PerformanceCounterType::Instructions(
                        if current <= old(self).total_instruction_limit {
                            (old(self).total_instruction_limit - current) as u64
                        } else {
                            old(self).total_instruction_limit
                        },
                    ),
                ),
            },
    {
        if counter_type != 0 {
            return Err(self.fail(HypervisorError::UnknownPerformanceCounter { counter_type }));
        }
        let current = self.load_instructions()?;
        let limit = self.total_instruction_limit;
        let used = match limit.checked_sub(current) {
            Some(u) => u,
            None => limit,
        };
        Ok(PerformanceCounterType::Instructions(used))
    }

    /// What the performance counter system call returns, given what the
    /// system API answered for the counter: its value, or its error, which
    /// stops the execution.
    pub fn performance_counter_outcome(&mut self, answer: Result<u64, HypervisorError>) -> (res: Result<u64, HypervisorError>)
        ensures
            match answer {
                Ok(v) => res == Ok::<u64, HypervisorError>(v) && *final(self) == *old(self),
                Err(e) => res == Err::<u64, HypervisorError>(e)
                    && *final(self) == (Meter { execution_error: Some(e), ..*old(self) }),
            },
    {
        match answer {
            Ok(v) => Ok(v),
            Err(e) => Err(self.fail(e)),
        }
    }
}

/// A performance counter to read from the system API.
#[derive(Clone, Copy, Debug, PartialEq, Eq, Structural)]
pub enum PerformanceCounterType {
    /// The instructions used so far.
    Instructions(u64),
}

/// Whether debug prints produce output: not on application subnets (verified
/// or not) while debug prints are rate limited; always otherwise.
pub fn debug_print_produces_output(subnet_type: SubnetType, rate_limiting_enabled: bool) -> (res: bool)
    ensures
        res == !(rate_limiting_enabled && (subnet_type == SubnetType::Application || subnet_type
            == SubnetType::VerifiedApplication)),
{
    match (subnet_type, rate_limiting_enabled) {
        (SubnetType::Application, true) => false,
        (SubnetType::VerifiedApplication, true) => false,
        _ => true,
    }
}

} // verus!
