//! Shell-style exit codes out of raw `waitpid` statuses.
use vstd::prelude::*;

verus! {

/// `libc::WIFEXITED` on Linux: a process exited on its own exactly when the
/// low seven bits of its wait status are zero.
pub assume_specification[ libc::WIFEXITED ](status: libc::c_int) -> (exited: bool)
    ensures
        exited == (status & 0x7f == 0),
;

/// `libc::WEXITSTATUS` on Linux: the exit code sits in the second lowest byte
/// of the wait status.
pub assume_specification[ libc::WEXITSTATUS ](status: libc::c_int) -> (code: libc::c_int)
    ensures
        code == (status >> 8) & 0xff,
;

/// `libc::WIFSIGNALED` on Linux: a process was killed by a signal exactly when
/// the low seven bits of its wait status are neither all zero nor all one (the
/// latter marks a stopped or continued process).
pub assume_specification[ libc::WIFSIGNALED ](status: libc::c_int) -> (killed: bool)
    ensures
        killed == (status & 0x7f != 0 && status & 0x7f != 0x7f),
;

/// `libc::WTERMSIG` on Linux: the signal is the low seven bits of the wait
/// status.
pub assume_specification[ libc::WTERMSIG ](status: libc::c_int) -> (signal: libc::c_int)
    ensures
        signal == status & 0x7f,
;

/// The exit code that a raw wait status stands for: the code itself for a
/// normal exit, `128 + signal` for a killed process, `1` for anything else.
pub open spec fn shell_code(status: i32) -> int {
    let signal = status & 0x7f;
    if signal == 0 {
        ((status >> 8) & 0xff) as int
    } else if signal != 0x7f {
        128 + signal
    } else {
        1
    }
}

/// The wait status of a process that exited on its own with `code`.
pub open spec fn exited_status(code: u8) -> i32 {
    ((code as int) * 256) as i32
}

/// Map a raw `waitpid` status to a shell-style exit code:
/// the code itself for a normal exit, `128 + signal` for a killed process.
pub fn exit_code(status: i32) -> (code: i32)
    ensures
        code == shell_code(status),
        0 <= code <= 255,
{
    proof {
        assert(0 <= (status & 0x7f) <= 0x7f) by (bit_vector);
        assert(0 <= ((status >> 8) & 0xff) <= 0xff) by (bit_vector);
    }
    if libc::WIFEXITED(status) {
        libc::WEXITSTATUS(status)
    } else if libc::WIFSIGNALED(status) {
        128 + libc::WTERMSIG(status)
    } else {
        1
    }
}

/// What a `waitpid` that does not block has found out about a child.
#[derive(Debug, Clone, Copy, PartialEq, Eq, Structural)]
pub enum WaitOutcome {
    /// The call failed.
    Failed,
    /// The child has changed state.
    Changed,
    /// The child is still running.
    Running,
}

/// Read the return value of a `waitpid` call with `WNOHANG`.
pub fn try_wait_for(ret: i32) -> (outcome: WaitOutcome)
    ensures
        outcome is Failed <==> ret < 0,
        outcome is Changed <==> ret > 0,
        outcome is Running <==> ret == 0,
{
    if ret < 0 {
        WaitOutcome::Failed
    } else if ret > 0 {
        WaitOutcome::Changed
    } else {
        WaitOutcome::Running
    }
}

/// Turn a child's exit status into an exit code of our own: a missing code (the
/// child was killed by a signal) counts as failure, a code that does not fit
/// in a byte becomes the largest one that does.
pub open spec fn own_code(code: Option<i32>) -> u8 {
    match code {
        Some(code) => if 0 <= code <= 255 {
            code as u8
        } else {
            255
        },
        None => 1,
    }
}

/// Turn a child's exit status (its code, absent when a signal killed it) into
/// our own exit code.
pub fn propagate_status(code: Option<i32>) -> (own: u8)
    ensures
        own == own_code(code),
{
    match code {
        Some(code) => if 0 <= code && code <= 255 {
            code as u8
        } else {
            u8::MAX
        },
        None => 1,
    }
}

/// A process that exits on its own with `code` is reported under that very
/// code.
pub proof fn law_normal_exit_keeps_its_code(code: u8)
    ensures
        shell_code(exited_status(code)) == code,
{
    let wide = code as i32;
    let status = exited_status(code);
    assert(status & 0x7f == 0 && (status >> 8) & 0xff == wide) by (bit_vector)
        requires
            0 <= wide <= 255,
            status == wide * 256,
    ;
}

/// A process killed by `signal`, with or without a core dump, is reported
/// under `128 + signal`.
pub proof fn law_killed_process_reports_its_signal(signal: i32, core_dumped: bool)
    requires
        1 <= signal <= 126,
    ensures
        shell_code(
            (if core_dumped {
                signal + 128
            } else {
                signal as int
            }) as i32,
        ) == 128 + signal,
{
    let dumped = (signal + 128) as i32;
    assert(signal & 0x7f == signal) by (bit_vector)
        requires
            1 <= signal <= 126,
    ;
    assert(dumped & 0x7f == signal) by (bit_vector)
        requires
            1 <= signal <= 126,
            dumped == signal + 128,
    ;
}

/// The code of a reaped child survives the way into a process exit code: both
/// ends agree on the same byte.
pub proof fn law_shell_code_fits_a_byte(status: i32)
    ensures
        own_code(Some(shell_code(status) as i32)) == shell_code(status),
{
    assert(0 <= (status & 0x7f) <= 0x7f) by (bit_vector);
    assert(0 <= ((status >> 8) & 0xff) <= 0xff) by (bit_vector);
}

/// How a wait status as the system reports it reads, in plain arithmetic: with
/// nothing in the low seven bits the second byte is the code, otherwise those bits
/// are the signal; all of them set is neither, and counts as failure.
pub proof fn law_wait_status_reads(status: i32)
    requires
        0 <= status <= 0xffff,
    ensures
        status % 128 == 0 ==> shell_code(status) == status / 256,
        1 <= status % 128 <= 126 ==> shell_code(status) == 128 + status % 128,
        status % 128 == 127 ==> shell_code(status) == 1,
{
    let bits = status as u32;
    let low = bits & 0x7f;
    let code = (bits >> 8) & 0xff;
    assert(low == bits % 128) by (bit_vector)
        requires
            low == bits & 0x7f,
    ;
    assert(code == bits / 256) by (bit_vector)
        requires
            bits <= 0xffff,
            code == (bits >> 8) & 0xff,
    ;
    assert(status & 0x7f == low as i32 && (status >> 8) & 0xff == code as i32) by (bit_vector)
        requires
            bits == status as u32,
            bits <= 0xffff,
            low == bits & 0x7f,
            code == (bits >> 8) & 0xff,
    ;
}

/// Only the low two bytes of a wait status count.
pub proof fn law_high_bytes_do_not_count(status: i32, other: i32)
    requires
        status & 0xffff == other & 0xffff,
    ensures
        shell_code(status) == shell_code(other),
{
    assert(status & 0x7f == other & 0x7f && (status >> 8) & 0xff == (other >> 8) & 0xff)
        by (bit_vector)
        requires
            status & 0xffff == other & 0xffff,
    ;
}

/// A code that fits in a byte is kept, any other becomes the largest that does;
/// a process without a code counts as failed.
pub proof fn law_codes_that_fit_are_kept(code: i32)
    ensures
        0 <= code <= 255 ==> own_code(Some(code)) == code,
        code < 0 || code > 255 ==> own_code(Some(code)) == 255,
        own_code(None) == 1,
        own_code(Some(code)) == 0 <==> code == 0,
{
}

} // verus!
