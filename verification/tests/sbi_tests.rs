use lib::sbi::{putchar_call, shutdown_call, SbiCall, SbiRet, EID_LEGACY_CONSOLE_PUTCHAR, EID_SRST};

#[test]
fn putchar_call_arguments() {
    let c = putchar_call(b'A');
    assert_eq!(c, SbiCall { eid: EID_LEGACY_CONSOLE_PUTCHAR, fid: 0, arg0: 65, arg1: 0, arg2: 0, arg3: 0, arg4: 0, arg5: 0 });
}

#[test]
fn shutdown_call_arguments() {
    let c = shutdown_call();
    assert_eq!(c.eid, 0x5352_5354);
    assert_eq!(c.eid, EID_SRST);
    assert_eq!((c.fid, c.arg0, c.arg1), (0, 0, 0));
}

#[test]
fn sbi_ret_reads_signed_registers() {
    assert_eq!(SbiRet::from_regs(usize::MAX, 5), SbiRet { error: -1, value: 5 });
    assert_eq!(SbiRet::from_regs(0, usize::MAX - 1), SbiRet { error: 0, value: -2 });
}
