//! Measuring a connection with a test transfer.
use crate::text;
use vstd::prelude::*;

verus! {

/// How many bytes a test transfer sends.
pub const PAYLOAD_SIZE: usize = 0x10_0000;

/// How many bytes of an answer are read at most.
pub const MAX_RESPONSE: usize = 1024;

/// The bytes that a test transfer sends.
pub fn payload() -> (r: Vec<u8>)
    ensures
        r@ == Seq::new(PAYLOAD_SIZE as nat, |i: int| 7u8),
{
    let r: Vec<u8> = vec![7u8; PAYLOAD_SIZE];
    assert(r@ =~= Seq::new(PAYLOAD_SIZE as nat, |i: int| 7u8));
    r
}

/// What is said of a test transfer that was answered with this text, given its duration in
/// seconds and its speed in megabytes per second.
pub fn report(response: &str, seconds: &str, speed: &str) -> (r: String)
    ensures
        r@ == "Response: "@ + response@ + "\nTransferred: 1.0 MB\nDuration: "@ + seconds@
            + "s\nSpeed: "@ + speed@ + " MB/s"@,
{
    let mut r = text::concat3("Response: ", response, "\nTransferred: 1.0 MB\nDuration: ");
    r.append(seconds);
    r.append("s\nSpeed: ");
    r.append(speed);
    r.append(" MB/s");
    r
}

/// The text of an answer.
pub fn response_text(response: &[u8]) -> (r: String)
    ensures
        r@ == text::utf8_lossy(response@),
        vstd::utf8::valid_utf8(response@) ==> r@ == vstd::utf8::decode_utf8(response@),
{
    text::from_utf8_lossy(response)
}

/// What is told of a test transfer: its report, or why there is none.
pub fn outcome(result: Result<String, String>) -> (r: String)
    ensures
        r@ == match result {
            Ok(report) => report@,
            Err(reason) => "Execution Failed: "@ + reason@,
        },
{
    match result {
        Ok(report) => report,
        Err(reason) => text::concat("Execution Failed: ", reason.as_str()),
    }
}

/// A test transfer sends one mebibyte of sevens, and reads 1024 bytes of an answer at most.
pub proof fn law_payload(r: Vec<u8>, i: int)
    requires
        call_ensures(payload, (), r),
    ensures
        r@.len() == 1024 * 1024,
        0 <= i < r@.len() ==> r@[i] == 7,
        MAX_RESPONSE == 1024,
{
}

/// What is told of a test transfer holds the whole answer, the duration and the speed, in this
/// order; what is told of a failed one ends in the whole reason.
pub proof fn law_outcome_tells_everything(
    response: &str,
    seconds: &str,
    speed: &str,
    report_made: String,
    told: String,
    reason: String,
    failure: String,
)
    requires
        call_ensures(report, (response, seconds, speed), report_made),
        call_ensures(outcome, (Ok::<String, String>(report_made),), told),
        call_ensures(outcome, (Err::<String, String>(reason),), failure),
    ensures
        told@ == "Response: "@ + response@ + "\nTransferred: 1.0 MB\nDuration: "@ + seconds@
            + "s\nSpeed: "@ + speed@ + " MB/s"@,
        failure@ == "Execution Failed: "@ + reason@,
{
}

/// An answer that is text is told as it is.
pub proof fn law_answer_is_told(response: &[u8], r: String)
    requires
        call_ensures(response_text, (response,), r),
        vstd::utf8::valid_utf8(response@),
    ensures
        vstd::utf8::encode_utf8(r@) == response@,
{
    vstd::utf8::decode_utf8_encode_utf8(response@);
}

} // verus!
