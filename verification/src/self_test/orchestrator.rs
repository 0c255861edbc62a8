//! The decisions of the self-test orchestrator: which device to test and
//! whether a child's handshake is accepted.

use vstd::prelude::*;

use crate::self_test::hex::{format_uuid_hex, hex_text};
use crate::text::text_equals;

verus! {

/// The type of a Vulkan physical device.
#[derive(Debug, Clone, Copy, PartialEq, Eq, Structural)]
pub enum DeviceKind {
    Other,
    IntegratedGpu,
    DiscreteGpu,
    VirtualGpu,
    Cpu,
    /// A type number the Vulkan specification does not define.
    Unrecognized(i32),
}

/// What the orchestrator knows of a Vulkan device.
#[derive(Debug, Clone)]
pub struct DeviceMeta {
    pub name: String,
    pub uuid: [u8; 16],
    pub kind: DeviceKind,
}

/// The preference rank of a device type, lower first: discrete, integrated,
/// virtual, CPU, other; 5 for types outside that list.
pub open spec fn kind_rank(k: DeviceKind) -> int {
    match k {
        DeviceKind::DiscreteGpu => 0,
        DeviceKind::IntegratedGpu => 1,
        DeviceKind::VirtualGpu => 2,
        DeviceKind::Cpu => 3,
        DeviceKind::Other => 4,
        DeviceKind::Unrecognized(_) => 5,
    }
}

/// The device type of preference rank `r`.
pub open spec fn kind_of_rank(r: int) -> DeviceKind {
    if r == 0 {
        DeviceKind::DiscreteGpu
    } else if r == 1 {
        DeviceKind::IntegratedGpu
    } else if r == 2 {
        DeviceKind::VirtualGpu
    } else if r == 3 {
        DeviceKind::Cpu
    } else {
        DeviceKind::Other
    }
}

/// The first device of the most preferred type present; device 0 when no
/// device has a preferred type.
pub fn pick_default(devs: &[DeviceMeta]) -> (r: usize)
    ensures
        (forall|j: int| 0 <= j < devs@.len() ==> kind_rank(#[trigger] devs@[j].kind) == 5) ==> r == 0,
        (exists|j: int| 0 <= j < devs@.len() && kind_rank(#[trigger] devs@[j].kind) < 5) ==> {
            &&& r < devs@.len()
            &&& kind_rank(devs@[r as int].kind) < 5
            &&& forall|j: int|
                0 <= j < devs@.len() ==> kind_rank(devs@[r as int].kind) < kind_rank(#[trigger] devs@[j].kind)
                    || (kind_rank(devs@[r as int].kind) == kind_rank(devs@[j].kind) && r <= j)
        },
{
    let order = [
        DeviceKind::DiscreteGpu,
        DeviceKind::IntegratedGpu,
        DeviceKind::VirtualGpu,
        DeviceKind::Cpu,
        DeviceKind::Other,
    ];
    let mut o: usize = 0;
    while o < 5
        invariant
            o <= 5,
            order@ == seq![
                DeviceKind::DiscreteGpu,
                DeviceKind::IntegratedGpu,
                DeviceKind::VirtualGpu,
                DeviceKind::Cpu,
                DeviceKind::Other,
            ],
            forall|j: int| 0 <= j < devs@.len() ==> kind_rank(#[trigger] devs@[j].kind) >= o,
        decreases 5 - o,
    {
        let kind = order[o];
        assert(kind == kind_of_rank(o as int));
        let mut i: usize = 0;
        while i < devs.len()
            invariant
                i <= devs@.len(),
                kind == kind_of_rank(o as int),
                o < 5,
                forall|j: int| 0 <= j < devs@.len() ==> kind_rank(#[trigger] devs@[j].kind) >= o,
                forall|j: int| 0 <= j < i ==> kind_rank(#[trigger] devs@[j].kind) > o,
            decreases devs@.len() - i,
        {
            if devs[i].kind == kind {
                return i;
            }
            i = i + 1;
        }
        o = o + 1;
    }
    0
}

/// Why no device could be chosen.
#[derive(Debug, Clone, Copy, PartialEq, Eq, Structural)]
pub enum DeviceChoiceError {
    /// No Vulkan-capable device was found.
    NoDevices,
    /// The device asked for (or picked) is not below the device count.
    OutOfRange { index: usize, available: usize },
}

/// The device the orchestrator tests: the one `--device` asked for, or the
/// default pick; refused when there is no device or the index is out of
/// range.
pub fn choose_device(requested: Option<usize>, devices: &[DeviceMeta]) -> (r: Result<usize, DeviceChoiceError>)
    ensures
        devices@.len() == 0 ==> r == Err::<usize, DeviceChoiceError>(DeviceChoiceError::NoDevices),
        devices@.len() > 0 ==> match requested {
            Some(i) => if i < devices@.len() {
                r == Ok::<usize, DeviceChoiceError>(i)
            } else {
                r == Err::<usize, DeviceChoiceError>(DeviceChoiceError::OutOfRange { index: i, available: devices@.len() as usize })
            },
            None => r is Ok && r->Ok_0 < devices@.len(),
        },
        requested is None ==> match r {
            Ok(i) => (exists|j: int| 0 <= j < devices@.len() && kind_rank(#[trigger] devices@[j].kind) < 5) ==> {
                &&& kind_rank(devices@[i as int].kind) < 5
                &&& forall|j: int|
                    0 <= j < devices@.len() ==> kind_rank(devices@[i as int].kind) < kind_rank(#[trigger] devices@[j].kind)
                        || (kind_rank(devices@[i as int].kind) == kind_rank(devices@[j].kind) && i <= j)
            },
            Err(_) => true,
        },
        requested is None ==> (forall|j: int| 0 <= j < devices@.len() ==> kind_rank(#[trigger] devices@[j].kind) == 5)
            ==> r == Ok::<usize, DeviceChoiceError>(0) || devices@.len() == 0,
{
    if devices.len() == 0 {
        return Err(DeviceChoiceError::NoDevices);
    }
    let idx = match requested {
        Some(i) => i,
        None => pick_default(devices),
    };
    if idx >= devices.len() {
        return Err(DeviceChoiceError::OutOfRange { index: idx, available: devices.len() });
    }
    Ok(idx)
}

/// The orchestrator's answer to a child's hello.
#[derive(Debug, Clone, Copy, PartialEq, Eq, Structural)]
pub enum HandshakeVerdict {
    /// Welcome the child.
    Accept,
    /// The child speaks another protocol version.
    VersionMismatch,
    /// The child picked a different Vulkan device.
    UuidMismatch,
}

/// Judges a child's hello: the protocol versions must agree, then the
/// child's device UUID text must be exactly the orchestrator's device UUID
/// in lower-case hexadecimal.
pub fn handshake_verdict(
    version: u32,
    protocol_version: u32,
    child_uuid_hex: &str,
    device_uuid: &[u8; 16],
) -> (r: HandshakeVerdict)
    ensures
        version != protocol_version ==> r == HandshakeVerdict::VersionMismatch,
        version == protocol_version && child_uuid_hex@ != hex_text(device_uuid@) ==> r
            == HandshakeVerdict::UuidMismatch,
        version == protocol_version && child_uuid_hex@ == hex_text(device_uuid@) ==> r
            == HandshakeVerdict::Accept,
{
    if version != protocol_version {
        return HandshakeVerdict::VersionMismatch;
    }
    let want = format_uuid_hex(device_uuid);
    if !text_equals(child_uuid_hex, want.as_str()) {
        return HandshakeVerdict::UuidMismatch;
    }
    HandshakeVerdict::Accept
}

/// What one non-blocking attempt to accept the child's connection gave.
#[derive(Debug, Clone, Copy, PartialEq, Eq, Structural)]
pub enum AcceptAttempt {
    /// A connection was accepted.
    Accepted,
    /// No connection is waiting yet.
    WouldBlock,
    /// Accepting failed with another error.
    Failed,
}

/// What to do after an accept attempt.
#[derive(Debug, Clone, Copy, PartialEq, Eq, Structural)]
pub enum AcceptStep {
    /// Use the accepted connection.
    Connected,
    /// Give up: the timeout has run out.
    TimedOut,
    /// Sleep a little and try again.
    Retry,
    /// Report the accept error.
    Fail,
}

/// The decision of the accept loop, `elapsed_ns` after waiting began with
/// a timeout of `timeout_ns`: a connection is used, another error is
/// reported, and with nothing waiting the loop gives up once the elapsed
/// time has reached the timeout and tries again otherwise.
pub fn accept_step(attempt: AcceptAttempt, elapsed_ns: u128, timeout_ns: u128) -> (r: AcceptStep)
    ensures
        attempt == AcceptAttempt::Accepted ==> r == AcceptStep::Connected,
        attempt == AcceptAttempt::Failed ==> r == AcceptStep::Fail,
        attempt == AcceptAttempt::WouldBlock ==> r == (if elapsed_ns >= timeout_ns {
            AcceptStep::TimedOut
        } else {
            AcceptStep::Retry
        }),
{
    match attempt {
        AcceptAttempt::Accepted => AcceptStep::Connected,
        AcceptAttempt::Failed => AcceptStep::Fail,
        AcceptAttempt::WouldBlock => if elapsed_ns >= timeout_ns {
            AcceptStep::TimedOut
        } else {
            AcceptStep::Retry
        },
    }
}

/// The device types in the order the default pick prefers them: a discrete
/// GPU, then an integrated GPU, a virtual GPU, a CPU, any other type, and
/// last a type the Vulkan specification does not define.
pub proof fn lemma_device_preference(x: i32)
    ensures
        kind_rank(DeviceKind::DiscreteGpu) < kind_rank(DeviceKind::IntegratedGpu),
        kind_rank(DeviceKind::IntegratedGpu) < kind_rank(DeviceKind::VirtualGpu),
        kind_rank(DeviceKind::VirtualGpu) < kind_rank(DeviceKind::Cpu),
        kind_rank(DeviceKind::Cpu) < kind_rank(DeviceKind::Other),
        kind_rank(DeviceKind::Other) < kind_rank(DeviceKind::Unrecognized(x)),
        kind_rank(DeviceKind::Unrecognized(x)) == 5,
{
}

} // verus!
