//! The checks the tool layer makes on a request before it reaches the
//! process registry.
use vstd::prelude::*;
use crate::process::{process_not_found_text, zero_wait_message};
use crate::text::signed_decimal_text;

verus! {

broadcast use vstd::string::group_string_axioms;

/// Checks the parameters of a poll request as the tool receives them: a
/// wait of zero or less is refused; then an identifier that no spawn can
/// have handed out (negative, or beyond 32 bits) is answered as a process
/// that is not found; otherwise the identifier and the wait are passed on.
pub fn check_poll_request(process_id: i64, wait: i64) -> (r: Result<(u32, u64), String>)
    ensures
        wait <= 0 ==> (r matches Err(e) && e@ == zero_wait_message()),
        wait > 0 && (process_id < 0 || process_id > u32::MAX) ==> (r matches Err(e) && e@ == process_not_found_text(process_id as int)),
        wait > 0 && 0 <= process_id <= u32::MAX ==> r == Ok::<(u32, u64), String>((process_id as u32, wait as u64)),
{
    if wait <= 0 {
        return Err("Wait time must be greater than 0 milliseconds".to_string());
    }
    if process_id < 0 || process_id > u32::MAX as i64 {
        let mut msg = "Process ".to_string();
        let digits = signed_decimal_text(process_id);
        msg.append(digits.as_str());
        msg.append(" not found");
        return Err(msg);
    }
    Ok((process_id as u32, wait as u64))
}

} // verus!
