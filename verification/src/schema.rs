//! Plain record types shared across the estate: authored robot identity,
//! the electrical-source reference, power chains, PWM channels, wheel sides,
//! bench identities and the braking kernels a bench can exercise.

use vstd::prelude::*;

verus! {

/// Who a robot is, as authored.
#[derive(Clone, Debug, PartialEq, Eq)]
pub struct Identity {
    pub name: String,
    pub revision: String,
    pub notes: String,
}

/// The robot's electrical source: a netlist reference and its hash
/// ("PENDING" until the netlist exists).
#[derive(Clone, Debug, PartialEq, Eq)]
pub struct ElecSource {
    pub reference: String,
    pub hash: Option<String>,
}

/// A source -> ESC -> motor chain. `source` is empty if no battery's
/// reachability includes the ESC's own supply net.
#[derive(Clone, Debug)]
pub struct PowerChain {
    pub source: String,
    pub esc: String,
    pub motor: String,
}

/// An MCU pin actually wired to drive something, with the motor instance it
/// resolves to when determinable.
#[derive(Clone, Debug, PartialEq, Eq)]
pub struct PwmChannel {
    pub pin: String,
    pub drives: Option<String>,
}

/// Which side of the chassis a driven wheel sits on.
#[derive(Clone, Copy, Debug, PartialEq, Eq, Structural)]
pub enum WheelSide {
    Left,
    Right,
}

/// The robot a bench report is about.
#[derive(Clone, Debug)]
pub struct RobotIdentity {
    pub name: String,
    pub robot_hash: String,
    pub body_hash: String,
    pub kernel_ref: String,
}

/// The braking kernels the envelope bench can hold to their promises.
#[derive(Clone, Copy, Debug, PartialEq, Eq, Structural)]
pub enum BrakeKernel {
    /// Coast (throttle 0): back-EMF braking that fades with speed, certified
    /// by the constant-deceleration formula.
    NaiveCoast,
    /// Aligned active braking with friction-band and sag worst-case
    /// certification.
    ActiveAligned,
}

/// Kernel selector of the plain numeric interface: 0 is the coasting
/// kernel, anything else the aligned active one.
pub fn kernel_of(k: u32) -> (r: BrakeKernel)
    ensures
        r == (if k == 0 {
            BrakeKernel::NaiveCoast
        } else {
            BrakeKernel::ActiveAligned
        }),
{
    if k == 0 {
        BrakeKernel::NaiveCoast
    } else {
        BrakeKernel::ActiveAligned
    }
}

} // verus!
