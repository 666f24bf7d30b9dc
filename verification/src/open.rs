//! Opening the device: which interfaces a handle claims, and what is done to it before use.

use vstd::prelude::*;

use crate::error::{Error, UsbError};
use crate::{EP_HID_IN, EP_HID_OUT, HID_REPORT_LEN, IF_CAPTURE, IF_HID, IF_PLAYBACK};

verus! {

/// The configuration that the device runs in.
pub const CONFIGURATION: u8 = 1;

/// How long to wait for a stale reply, in milliseconds.
pub const DRAIN_TIMEOUT_MS: u64 = 50;

/// What a handle is for.
#[derive(Debug, Clone, Copy, PartialEq, Eq, Structural)]
pub struct Role {
    pub playback: bool,
    pub capture: bool,
    pub control: bool,
}

/// One thing to do to a device that was opened.
#[derive(Debug, Clone, Copy, PartialEq, Eq, Structural)]
pub enum OpenAction {
    /// Select this configuration.
    SetConfiguration(u8),
    /// Let libusb detach a kernel driver.
    DetachKernelDriver,
    /// Claim this interface.
    Claim(u8),
    /// Recover this endpoint, should a crashed session have left it halted.
    ClearHalt(u8),
    /// Read a reply that nobody waits for any more.
    Drain { endpoint: u8, len: usize, timeout_ms: u64 },
}

/// The claims of a handle.
pub open spec fn claims(role: Role) -> Seq<OpenAction> {
    claim_if(role.playback, IF_PLAYBACK) + claim_if(role.capture, IF_CAPTURE) + claim_if(
        role.control,
        IF_HID,
    )
}

/// The claim of one interface, where it is wanted.
pub open spec fn claim_if(wanted: bool, iface: u8) -> Seq<OpenAction> {
    if wanted {
        seq![OpenAction::Claim(iface)]
    } else {
        Seq::empty()
    }
}

/// What is done to a device in configuration `active`, in order.
pub open spec fn open_actions(role: Role, active: u8) -> Seq<OpenAction> {
    let configure = if active != CONFIGURATION {
        seq![OpenAction::SetConfiguration(CONFIGURATION)]
    } else {
        Seq::empty()
    };
    let recover = if role.control {
        seq![
            OpenAction::ClearHalt(EP_HID_OUT),
            OpenAction::ClearHalt(EP_HID_IN),
            OpenAction::Drain {
                endpoint: EP_HID_IN,
                len: HID_REPORT_LEN,
                timeout_ms: DRAIN_TIMEOUT_MS,
            },
        ]
    } else {
        Seq::empty()
    };
    configure + seq![OpenAction::DetachKernelDriver] + claims(role) + recover
}

impl Role {
    /// Streaming and control.
    pub fn full() -> (r: Role)
        ensures
            r == (Role { playback: true, capture: true, control: true }),
    {
        Role { playback: true, capture: true, control: true }
    }

    /// Both streaming interfaces.
    pub fn audio() -> (r: Role)
        ensures
            r == (Role { playback: true, capture: true, control: false }),
    {
        Role { playback: true, capture: true, control: false }
    }

    /// The control interface only.
    pub fn control() -> (r: Role)
        ensures
            r == (Role { playback: false, capture: false, control: true }),
    {
        Role { playback: false, capture: false, control: true }
    }

    /// The capture interface only.
    pub fn capture() -> (r: Role)
        ensures
            r == (Role { playback: false, capture: true, control: false }),
    {
        Role { playback: false, capture: true, control: false }
    }

    /// The playback interface only.
    pub fn playback() -> (r: Role)
        ensures
            r == (Role { playback: true, capture: false, control: false }),
    {
        Role { playback: true, capture: false, control: false }
    }

    /// Whether the handle owns a streaming interface.
    pub fn has_audio(&self) -> (r: bool)
        ensures
            r == (self.playback || self.capture),
    {
        self.playback || self.capture
    }

    /// What to do to a device in configuration `active`, in order. The configuration is
    /// selected only where it is not active, so that another owner is not disturbed.
    pub fn open_plan(&self, active: u8) -> (plan: Vec<OpenAction>)
        ensures
            plan@ == open_actions(*self, active),
    {
        let mut plan: Vec<OpenAction> = Vec::new();
        if active != CONFIGURATION {
            plan.push(OpenAction::SetConfiguration(CONFIGURATION));
        }
        plan.push(OpenAction::DetachKernelDriver);
        if self.playback {
            plan.push(OpenAction::Claim(IF_PLAYBACK));
        }
        if self.capture {
            plan.push(OpenAction::Claim(IF_CAPTURE));
        }
        if self.control {
            plan.push(OpenAction::Claim(IF_HID));
            plan.push(OpenAction::ClearHalt(EP_HID_OUT));
            plan.push(OpenAction::ClearHalt(EP_HID_IN));
            plan.push(
                OpenAction::Drain {
                    endpoint: EP_HID_IN,
                    len: HID_REPORT_LEN,
                    timeout_ms: DRAIN_TIMEOUT_MS,
                },
            );
        }
        assert(plan@ =~= open_actions(*self, active));
        plan
    }
}

/// The error with which opening ends when an action fails: only a claim has to succeed.
pub fn open_failure(action: OpenAction, e: UsbError) -> (r: Option<Error>)
    ensures
        r == if action is Claim {
            Some(Error::Access(e))
        } else {
            None::<Error>
        },
{
    match action {
        OpenAction::Claim(_) => Some(Error::Access(e)),
        _ => None,
    }
}

// ----------------------------------- laws -----------------------------------

/// Owners with disjoint roles, such as the audio daemon and a control client, claim
/// different interfaces, so both can be open at once.
pub proof fn law_disjoint_roles(a: Role, b: Role, i: int, j: int)
    requires
        !(a.playback && b.playback),
        !(a.capture && b.capture),
        !(a.control && b.control),
        0 <= i < claims(a).len(),
        0 <= j < claims(b).len(),
    ensures
        claims(a)[i] != claims(b)[j],
{
}

/// A second owner does not select the configuration again.
pub proof fn law_second_owner_keeps_configuration(role: Role, i: int)
    requires
        0 <= i < open_actions(role, CONFIGURATION).len(),
    ensures
        open_actions(role, CONFIGURATION)[i] !is SetConfiguration,
{
}

/// What opening a device does, in its order: where another configuration than 1 is active, that
/// one is selected; the kernel driver is detached; interfaces 1, 2 and 3 are claimed for
/// playback, capture and control, where the role has them; and for control both endpoints are
/// recovered and one stale reply is read. There is nothing else in the plan.
pub proof fn law_open_plan(role: Role, active: u8, plan: Vec<OpenAction>)
    requires
        call_ensures(Role::open_plan, (&role, active), plan),
    ensures
        ({
            let a: int = if active != 1 {
                1
            } else {
                0
            };
            let p: int = if role.playback {
                1
            } else {
                0
            };
            let c: int = if role.capture {
                1
            } else {
                0
            };
            let k: int = if role.control {
                4
            } else {
                0
            };
            &&& plan@.len() == a + 1 + p + c + k
            &&& active != 1 ==> plan@[0] == OpenAction::SetConfiguration(1)
            &&& plan@[a] == OpenAction::DetachKernelDriver
            &&& role.playback ==> plan@[a + 1] == OpenAction::Claim(1)
            &&& role.capture ==> plan@[a + 1 + p] == OpenAction::Claim(2)
            &&& role.control ==> {
                let at = a + 1 + p + c;
                &&& plan@[at] == OpenAction::Claim(3)
                &&& plan@[at + 1] == OpenAction::ClearHalt(0x01)
                &&& plan@[at + 2] == OpenAction::ClearHalt(0x81)
                &&& plan@[at + 3] == (OpenAction::Drain {
                    endpoint: 0x81,
                    len: 64,
                    timeout_ms: 50,
                })
            }
        }),
{
}

/// What the roles own.
pub proof fn law_roles(
    full: Role,
    audio: Role,
    control: Role,
    capture: Role,
    playback: Role,
    role: Role,
    streams: bool,
)
    requires
        call_ensures(Role::full, (), full),
        call_ensures(Role::audio, (), audio),
        call_ensures(Role::control, (), control),
        call_ensures(Role::capture, (), capture),
        call_ensures(Role::playback, (), playback),
        call_ensures(Role::has_audio, (&role,), streams),
    ensures
        full.playback && full.capture && full.control,
        audio.playback && audio.capture && !audio.control,
        !control.playback && !control.capture && control.control,
        !capture.playback && capture.capture && !capture.control,
        playback.playback && !playback.capture && !playback.control,
        streams <==> role.playback || role.capture,
{
}

/// Opening fails with the error of a claim that fails, and with no other.
pub proof fn law_claims_must_succeed(action: OpenAction, e: UsbError, r: Option<Error>)
    requires
        call_ensures(open_failure, (action, e), r),
    ensures
        r is Some <==> action is Claim,
        r is Some ==> r->0 is Access && r->0->Access_0 == e,
{
}

/// A role claims exactly the interfaces of what it is for.
pub proof fn law_claims_by_role(role: Role, iface: u8)
    ensures
        claims(role).contains(OpenAction::Claim(iface)) <==> {
            ||| role.playback && iface == 1
            ||| role.capture && iface == 2
            ||| role.control && iface == 3
        },
{
    let all = claims(role);
    let p: int = if role.playback {
        1
    } else {
        0
    };
    let c: int = if role.capture {
        1
    } else {
        0
    };
    if role.playback {
        assert(all[0] == OpenAction::Claim(1));
    }
    if role.capture {
        assert(all[p] == OpenAction::Claim(2));
    }
    if role.control {
        assert(all[p + c] == OpenAction::Claim(3));
    }
}

} // verus!
