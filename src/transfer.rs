//! Decisions of one resumable transfer.
//!
//! The caller reads the size of the partial file on disk, sends the request
//! that `plan_start` asks for, opens the file as `plan_response` says,
//! streams the body into it and finally checks the size on disk with
//! `check_complete`.

use vstd::prelude::*;
use crate::progress::{advanced, cap_of};

verus! {

/// `a - b`, or 0 when `b` is larger.
pub open spec fn sat_sub(a: u64, b: u64) -> u64 {
    if a >= b { (a - b) as u64 } else { 0 }
}

/// The first step of a transfer.
#[derive(Debug, PartialEq, Eq, Structural)]
pub enum StartPlan {
    /// The file on disk already holds the expected size: no request is sent.
    /// The task's position becomes `task_position`, and the overall counter
    /// grows by `overall_increment`.
    AlreadyComplete { task_position: u64, overall_increment: u64 },
    /// Send one GET request; `range_from` is the first byte asked for when
    /// resuming.
    Fetch { range_from: Option<u64> },
}

/// `local_size` is the size of the file on disk (0 when absent), `expected`
/// the size the server reported (0 when unknown).
pub open spec fn start_plan(local_size: u64, expected: u64) -> StartPlan {
    if expected > 0 && local_size >= expected {
        StartPlan::AlreadyComplete {
            task_position: expected,
            overall_increment: sat_sub(expected, local_size),
        }
    } else if local_size > 0 {
        StartPlan::Fetch { range_from: Some(local_size) }
    } else {
        StartPlan::Fetch { range_from: None }
    }
}

/// Chooses the first step of a transfer.
pub fn plan_start(local_size: u64, expected: u64) -> (r: StartPlan)
    ensures
        r == start_plan(local_size, expected),
{
    if expected > 0 && local_size >= expected {
        StartPlan::AlreadyComplete {
            task_position: expected,
            overall_increment: expected.saturating_sub(local_size),
        }
    } else if local_size > 0 {
        StartPlan::Fetch { range_from: Some(local_size) }
    } else {
        StartPlan::Fetch { range_from: None }
    }
}

/// How to write the body of a response.
#[derive(Debug, PartialEq, Eq, Structural)]
pub struct ResponsePlan {
    /// Append to the file on disk; otherwise create or truncate it.
    pub append: bool,
    /// The server ignored the range request: warn that the transfer restarts.
    pub restart_warning: bool,
    /// Bytes already on disk that the overall counter now counts.
    pub overall_increment: u64,
    /// The task's position before the body is streamed.
    pub task_position: u64,
}

pub open spec fn response_plan(local_size: u64, partial_content: bool) -> ResponsePlan {
    if partial_content {
        ResponsePlan {
            append: true,
            restart_warning: false,
            overall_increment: local_size,
            task_position: local_size,
        }
    } else {
        ResponsePlan {
            append: false,
            restart_warning: local_size > 0,
            overall_increment: 0,
            task_position: 0,
        }
    }
}

/// Decides how to write a response, given whether its status was
/// 206 Partial Content.
pub fn plan_response(local_size: u64, partial_content: bool) -> (r: ResponsePlan)
    ensures
        r == response_plan(local_size, partial_content),
{
    if partial_content {
        ResponsePlan {
            append: true,
            restart_warning: false,
            overall_increment: local_size,
            task_position: local_size,
        }
    } else {
        ResponsePlan {
            append: false,
            restart_warning: local_size > 0,
            overall_increment: 0,
            task_position: 0,
        }
    }
}

/// Why a transfer failed after its body was streamed.
#[derive(Debug, PartialEq, Eq, Structural)]
pub enum TransferError {
    /// The file on disk is smaller than the size the server reported.
    Incomplete { expected: u64, actual: u64 },
    /// The file on disk is larger than the size the server reported.
    Oversized { expected: u64, actual: u64 },
}

/// Checks the size on disk once the body has been streamed: it must be the
/// size the server reported. An unknown expected size (0) disables the
/// check.
pub fn check_complete(expected: u64, final_size: u64) -> (r: Result<(), TransferError>)
    ensures
        r is Ok <==> completion_ok(expected, final_size),
        expected > 0 && final_size < expected ==> r == Err::<(), TransferError>(
            TransferError::Incomplete { expected, actual: final_size },
        ),
        expected > 0 && final_size > expected ==> r == Err::<(), TransferError>(
            TransferError::Oversized { expected, actual: final_size },
        ),
{
    if expected > 0 && final_size < expected {
        Err(TransferError::Incomplete { expected, actual: final_size })
    } else if expected > 0 && final_size > expected {
        Err(TransferError::Oversized { expected, actual: final_size })
    } else {
        Ok(())
    }
}

/// The final check passes: the expected size is unknown, or the file on
/// disk holds exactly that many bytes.
pub open spec fn completion_ok(expected: u64, final_size: u64) -> bool {
    expected == 0 || final_size == expected
}

/// What the file holds after a response body was written as `plan` says.
pub open spec fn file_after(plan: ResponsePlan, on_disk: Seq<u8>, body: Seq<u8>) -> Seq<u8> {
    if plan.append { on_disk + body } else { body }
}

/// A server that honors ranges answers a range request from offset `p` with
/// 206 Partial Content and the bytes from `p` on; a request without a range,
/// or to a server that ignores ranges, gets the whole content.
pub open spec fn served(content: Seq<u8>, range_from: Option<u64>, honors_ranges: bool) -> (
    bool,
    Seq<u8>,
) {
    match range_from {
        Some(p) => if honors_ranges { (true, content.skip(p as int)) } else { (false, content) },
        None => (false, content),
    }
}

/// A file on disk at least as large as a known expected size is complete:
/// no request is sent and the task shows the full size.
pub proof fn lemma_complete_file_sends_nothing(local_size: u64, expected: u64)
    requires
        expected > 0,
        local_size >= expected,
    ensures
        start_plan(local_size, expected) matches StartPlan::AlreadyComplete {
            task_position,
            ..
        } && task_position == expected,
{
}

/// A streamed transfer that succeeds with a known size ends with exactly
/// that size on disk; a smaller or a larger file fails.
pub proof fn lemma_success_means_full_size(expected: u64, final_size: u64)
    requires
        expected > 0,
    ensures
        completion_ok(expected, final_size) <==> final_size == expected,
{
}

/// Resuming: a partial file that is a prefix of the content, of size `p`
/// below the content's size, leads to exactly one request, ranged from `p`
/// when `p > 0`; with a server that honors ranges the file ends equal to the
/// content, and passes the final check.
pub proof fn lemma_resume_rebuilds_content(content: Seq<u8>, p: u64)
    requires
        p < content.len(),
        content.len() <= u64::MAX,
    ensures
        ({
            let expected = content.len() as u64;
            let on_disk = content.subrange(0, p as int);
            match start_plan(p, expected) {
                StartPlan::Fetch { range_from } => {
                    &&& range_from == (if p > 0 { Some(p) } else { None::<u64> })
                    &&& {
                        let (partial, body) = served(content, range_from, true);
                        let plan = response_plan(p, partial);
                        &&& file_after(plan, on_disk, body) == content
                        &&& plan.task_position + body.len() == expected
                        &&& completion_ok(expected, file_after(plan, on_disk, body).len() as u64)
                    }
                },
                StartPlan::AlreadyComplete { .. } => false,
            }
        }),
{
    assert(content.subrange(0, p as int) + content.skip(p as int) =~= content);
}

/// A server that ignores the range request makes the transfer start over:
/// the stale partial file is replaced and ends equal to the content, never
/// a concatenation of old and new bytes.
pub proof fn lemma_ignored_range_restarts(content: Seq<u8>, on_disk: Seq<u8>, p: u64)
    requires
        p > 0,
        p < content.len(),
        content.len() <= u64::MAX,
    ensures
        ({
            let expected = content.len() as u64;
            match start_plan(p, expected) {
                StartPlan::Fetch { range_from } => {
                    let (partial, body) = served(content, range_from, false);
                    let plan = response_plan(p, partial);
                    &&& !plan.append
                    &&& plan.restart_warning
                    &&& plan.task_position == 0
                    &&& plan.overall_increment == 0
                    &&& file_after(plan, on_disk, body) == content
                    &&& completion_ok(expected, file_after(plan, on_disk, body).len() as u64)
                },
                StartPlan::AlreadyComplete { .. } => false,
            }
        }),
{
}

/// Restarting keeps the accounting right: the task's position starts again
/// at 0 and ends at the length of the new body, and the overall counter
/// grows by that length alone, the stale bytes on disk never counted. The
/// body fits in the task's known size and in the overall counter.
pub proof fn lemma_restart_accounting(
    local_size: u64,
    expected: u64,
    body_len: u64,
    overall_pos: u64,
    overall_len: u64,
)
    requires
        local_size > 0,
        body_len <= cap_of(expected),
        overall_pos + body_len <= cap_of(overall_len),
    ensures
        ({
            let plan = response_plan(local_size, false);
            &&& plan.task_position == 0
            &&& advanced(plan.task_position, body_len, cap_of(expected)) == body_len
            &&& advanced(
                advanced(overall_pos, plan.overall_increment, cap_of(overall_len)),
                body_len,
                cap_of(overall_len),
            ) == overall_pos + body_len
        }),
{
}

} // verus!
