use vstd::prelude::*;

verus! {

/// The two programmable stages that a program is linked from. The stage is
/// always named by the caller, never inferred.
#[derive(Clone, Copy, Debug, PartialEq, Eq, Structural)]
pub enum ShaderStage {
    Vertex,
    Fragment,
}

/// Status value that reports a compile or link as successful.
pub const STATUS_OK: i32 = 1;

/// Size of the buffer that a diagnostic log is read into; one byte of it is
/// kept for the terminating NUL.
pub const LOG_CAPACITY: usize = 512;

/// The log bytes worth reporting: those the driver says it wrote, at most
/// `LOG_CAPACITY - 1` of them, and none past the buffer's end.
pub open spec fn log_len(buf_len: int, written: int) -> int {
    let w = if written < 0 {
        0
    } else {
        written
    };
    let cap = if buf_len < LOG_CAPACITY - 1 {
        buf_len
    } else {
        LOG_CAPACITY - 1
    };
    if w < cap {
        w
    } else {
        cap
    }
}

/// What to report after a compile or link: nothing where `status` says it
/// succeeded, else the first `log_len` bytes of the driver's log. A failure
/// is reported, never fatal.
pub fn diagnostic(status: i32, log: &Vec<u8>, written: i32) -> (r: Option<Vec<u8>>)
    ensures
        r is None <==> status == STATUS_OK,
        r matches Some(text) ==> text@ == log@.take(log_len(log@.len() as int, written as int)),
{
    if status == STATUS_OK {
        return None;
    }
    let n: usize = if written < 0 {
        0
    } else {
        written as usize
    };
    let cap: usize = if log.len() < LOG_CAPACITY - 1 {
        log.len()
    } else {
        LOG_CAPACITY - 1
    };
    let end: usize = if n < cap {
        n
    } else {
        cap
    };
    let mut text: Vec<u8> = Vec::new();
    let mut i: usize = 0;
    while i < end
        invariant
            0 <= i <= end,
            end <= log@.len(),
            end == log_len(log@.len() as int, written as int),
            text@ == log@.take(i as int),
        decreases end - i,
    {
        text.push(log[i]);
        i = i + 1;
        assert(text@ =~= log@.take(i as int));
    }
    Some(text)
}

} // verus!
