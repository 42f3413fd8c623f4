//! The power states of an instance, and the next step towards running or stopped.

use crate::cloud::InstanceRunningState;
use crate::cloud::InstanceType;
use crate::dns::DnsTarget;
use crate::dns::DnsTargetView;
use crate::error::Error;
use crate::net::Ipv4Addr;
use vstd::prelude::*;
use vstd::string::*;

verus! {

/// The power state of an instance.
#[derive(Debug, Copy, Clone, PartialEq, Eq, Structural)]
pub enum InstanceStateCode {
    Pending,
    Running,
    /// On its way to `Terminated`.
    Terminating,
    Terminated,
    Stopping,
    Stopped,
    /// A code of the provider that has no meaning here.
    Unknown(u8),
}

impl InstanceStateCode {
    /// Whether an instance in this state can be brought to run and to a stop: it is not
    /// going or gone, and its state has a meaning.
    pub open spec fn is_lasting(self) -> bool {
        ||| self is Pending
        ||| self is Running
        ||| self is Stopping
        ||| self is Stopped
    }

    /// The power state that the provider's numeric code stands for.
    pub open spec fn of_code(code: u8) -> InstanceStateCode {
        if code == 0 {
            InstanceStateCode::Pending
        } else if code == 16 {
            InstanceStateCode::Running
        } else if code == 32 {
            InstanceStateCode::Terminating
        } else if code == 48 {
            InstanceStateCode::Terminated
        } else if code == 64 {
            InstanceStateCode::Stopping
        } else if code == 80 {
            InstanceStateCode::Stopped
        } else {
            InstanceStateCode::Unknown(code)
        }
    }
}

impl From<u8> for InstanceStateCode {
    fn from(code: u8) -> (r: InstanceStateCode) {
        match code {
            0 => InstanceStateCode::Pending,
            16 => InstanceStateCode::Running,
            32 => InstanceStateCode::Terminating,
            48 => InstanceStateCode::Terminated,
            64 => InstanceStateCode::Stopping,
            80 => InstanceStateCode::Stopped,
            x => InstanceStateCode::Unknown(x),
        }
    }
}

impl vstd::std_specs::convert::FromSpecImpl<u8> for InstanceStateCode {
    open spec fn obeys_from_spec() -> bool {
        true
    }

    open spec fn from_spec(code: u8) -> InstanceStateCode {
        InstanceStateCode::of_code(code)
    }
}

/// What the provider reports of an instance.
#[derive(Debug, Clone, PartialEq, Eq)]
pub struct InstanceState {
    pub instance_state_code: InstanceStateCode,
    pub instance_type: InstanceType,
    pub ebs_optimized: bool,
    pub public_ipv4_addr: Option<Ipv4Addr>,
    pub public_dns_name: Option<String>,
}

/// What to do about the type of an instance.
#[derive(Debug, Copy, Clone, PartialEq, Eq, Structural)]
pub enum TypeStep {
    /// The instance has the wanted type.
    Keep,
    /// Ask the provider to change the type.
    Change,
}

/// What to do next to bring an instance to run.
#[derive(Debug, Clone, PartialEq, Eq)]
pub enum RunningStep {
    /// The instance is between states: look again after a pause.
    Wait,
    /// The instance is stopped: ask the provider to start it, and look again after a pause.
    Start,
    /// The instance runs.
    Done(InstanceRunningState),
}

/// What to do next to bring an instance to a stop.
#[derive(Debug, Copy, Clone, PartialEq, Eq, Structural)]
pub enum StoppedStep {
    /// The instance is between states: look again after a pause.
    Wait,
    /// The instance runs: ask the provider to stop it, and look again after a pause.
    Stop,
    /// The instance is stopped.
    Done,
}

/// The address that an instance in `state` shows: its public name where it has one, else
/// its public IPv4 address.
pub open spec fn address_of(state: InstanceState) -> Option<DnsTargetView> {
    match (state.public_dns_name, state.public_ipv4_addr) {
        (Some(name), _) => Some(DnsTargetView::Cname(name@)),
        (None, Some(addr)) => Some(DnsTargetView::A(addr)),
        (None, None) => None,
    }
}

/// The error that ends the wait for a state, for the states that no wait will leave.
pub open spec fn is_final_state_error(code: InstanceStateCode, e: Error) -> bool {
    match code {
        InstanceStateCode::Terminating => e == Error::InstanceTerminating,
        InstanceStateCode::Terminated => e == Error::InstanceTerminated,
        InstanceStateCode::Unknown(x) => e == (Error::InstanceUnknownState { code: x }),
        _ => false,
    }
}

/// Decides whether the type of an instance has to change to be `desired`, and whether it may.
pub fn type_step(state: &InstanceState, desired: &InstanceType) -> (r: Result<TypeStep, Error>)
    ensures
        state.instance_type@ == desired@ ==> r == Ok::<TypeStep, Error>(TypeStep::Keep),
        state.instance_type@ != desired@ && state.instance_state_code
            == InstanceStateCode::Stopped ==> r == Ok::<TypeStep, Error>(TypeStep::Change),
        state.instance_type@ != desired@ && state.instance_state_code
            != InstanceStateCode::Stopped ==> r == Err::<TypeStep, Error>(
            Error::InstanceMustBeStopped,
        ),
{
    if state.instance_type == *desired {
        Ok(TypeStep::Keep)
    } else if state.instance_state_code == InstanceStateCode::Stopped {
        Ok(TypeStep::Change)
    } else {
        Err(Error::InstanceMustBeStopped)
    }
}

/// Decides the next step towards a running instance from what the provider reports.
pub fn running_step(state: InstanceState) -> (r: Result<RunningStep, Error>)
    ensures
        match state.instance_state_code {
            InstanceStateCode::Pending | InstanceStateCode::Stopping => r == Ok::<
                RunningStep,
                Error,
            >(RunningStep::Wait),
            InstanceStateCode::Stopped => r == Ok::<RunningStep, Error>(RunningStep::Start),
            InstanceStateCode::Running => match address_of(state) {
                Some(addr) => r matches Ok(RunningStep::Done(running)) && running.addr@ == addr
                    && running.instance_type@ == state.instance_type@,
                None => r == Err::<RunningStep, Error>(Error::MissingAddress),
            },
            code => r matches Err(e) && is_final_state_error(code, e),
        },
{
    match state.instance_state_code {
        InstanceStateCode::Pending | InstanceStateCode::Stopping => Ok(RunningStep::Wait),
        InstanceStateCode::Running => {
            let addr = if let Some(public_dns_name) = state.public_dns_name {
                DnsTarget::Cname(public_dns_name)
            } else if let Some(public_ipv4_addr) = state.public_ipv4_addr {
                DnsTarget::A(public_ipv4_addr)
            } else {
                return Err(Error::MissingAddress);
            };
            Ok(RunningStep::Done(InstanceRunningState { instance_type: state.instance_type, addr }))
        },
        InstanceStateCode::Stopped => Ok(RunningStep::Start),
        InstanceStateCode::Terminating => Err(Error::InstanceTerminating),
        InstanceStateCode::Terminated => Err(Error::InstanceTerminated),
        InstanceStateCode::Unknown(x) => Err(Error::InstanceUnknownState { code: x }),
    }
}

/// Decides the next step towards a stopped instance from the power state.
pub fn stopped_step(code: InstanceStateCode) -> (r: Result<StoppedStep, Error>)
    ensures
        match code {
            InstanceStateCode::Pending | InstanceStateCode::Stopping => r == Ok::<
                StoppedStep,
                Error,
            >(StoppedStep::Wait),
            InstanceStateCode::Running => r == Ok::<StoppedStep, Error>(StoppedStep::Stop),
            InstanceStateCode::Stopped => r == Ok::<StoppedStep, Error>(StoppedStep::Done),
            code => r matches Err(e) && is_final_state_error(code, e),
        },
{
    match code {
        InstanceStateCode::Pending | InstanceStateCode::Stopping => Ok(StoppedStep::Wait),
        InstanceStateCode::Running => Ok(StoppedStep::Stop),
        InstanceStateCode::Stopped => Ok(StoppedStep::Done),
        InstanceStateCode::Terminating => Err(Error::InstanceTerminating),
        InstanceStateCode::Terminated => Err(Error::InstanceTerminated),
        InstanceStateCode::Unknown(x) => Err(Error::InstanceUnknownState { code: x }),
    }
}

} // verus!
