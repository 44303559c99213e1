//! Supervisor Binary Interface calls: which call numbers and arguments each service uses, and
//! how the firmware's reply is read back.
use vstd::prelude::*;

verus! {

/// Extension id of the legacy console-putchar call.
pub const EID_LEGACY_CONSOLE_PUTCHAR: usize = 0x01;
/// Extension id of the System Reset extension.
pub const EID_SRST: usize = 0x5352_5354;
/// Function id of `system_reset` in the System Reset extension.
pub const FID_SYSTEM_RESET: usize = 0;
/// Reset type: shut the machine down.
pub const RESET_TYPE_SHUTDOWN: usize = 0x0000_0000;
/// Reset reason: none given.
pub const RESET_REASON_NO_REASON: usize = 0x0000_0000;

/// The firmware's reply: an error code and a value.
#[derive(Copy, Clone, Debug, PartialEq, Eq, Structural)]
pub struct SbiRet {
    pub error: isize,
    pub value: isize,
}

impl SbiRet {
    /// Reads the reply from the `a0` and `a1` registers as signed values.
    pub fn from_regs(a0: usize, a1: usize) -> (r: SbiRet)
        ensures
            r.error == a0 as isize,
            r.value == a1 as isize,
    {
        SbiRet { error: a0 as isize, value: a1 as isize }
    }
}

/// An SBI call to make: extension id, function id and the six argument registers.
#[derive(Copy, Clone, Debug, PartialEq, Eq, Structural)]
pub struct SbiCall {
    pub eid: usize,
    pub fid: usize,
    pub arg0: usize,
    pub arg1: usize,
    pub arg2: usize,
    pub arg3: usize,
    pub arg4: usize,
    pub arg5: usize,
}

/// The call that writes byte `ch` to the console.
pub fn putchar_call(ch: u8) -> (r: SbiCall)
    ensures
        r == (SbiCall {
            eid: EID_LEGACY_CONSOLE_PUTCHAR,
            fid: 0,
            arg0: ch as usize,
            arg1: 0,
            arg2: 0,
            arg3: 0,
            arg4: 0,
            arg5: 0,
        }),
{
    SbiCall { eid: EID_LEGACY_CONSOLE_PUTCHAR, fid: 0, arg0: ch as usize, arg1: 0, arg2: 0, arg3: 0, arg4: 0, arg5: 0 }
}

/// The call that shuts the machine down.
pub fn shutdown_call() -> (r: SbiCall)
    ensures
        r == (SbiCall {
            eid: EID_SRST,
            fid: FID_SYSTEM_RESET,
            arg0: RESET_TYPE_SHUTDOWN,
            arg1: RESET_REASON_NO_REASON,
            arg2: 0,
            arg3: 0,
            arg4: 0,
            arg5: 0,
        }),
{
    SbiCall {
        eid: EID_SRST,
        fid: FID_SYSTEM_RESET,
        arg0: RESET_TYPE_SHUTDOWN,
        arg1: RESET_REASON_NO_REASON,
        arg2: 0,
        arg3: 0,
        arg4: 0,
        arg5: 0,
    }
}

} // verus!
