use vstd::prelude::*;

use crate::text::{trim, trim_chars};

verus! {

/// What `String::from_utf8_lossy` gives for `bytes`: their UTF-8 decoding,
/// with each ill-formed sequence replaced by U+FFFD.
pub uninterp spec fn lossy_utf8(bytes: Seq<u8>) -> Seq<char>;

/// Decodes `bytes` with `String::from_utf8_lossy`. Its result is named, and
/// stated only for valid UTF-8, which it decodes unchanged; how it replaces
/// ill-formed sequences is the standard library's.
#[verifier::external_body]
fn decode_lossy(bytes: &[u8]) -> (s: String)
    ensures
        s@ == lossy_utf8(bytes@),
        vstd::utf8::valid_utf8(bytes@) ==> s@ == vstd::utf8::decode_utf8(bytes@),
{
    String::from_utf8_lossy(bytes).into_owned()
}

/// The text that starts the report of a failure.
pub open spec fn error_prefix() -> Seq<char> {
    seq!['E', 'r', 'r', 'o', 'r', ':', ' ']
}

/// What the panel shows for a command that ran: its output without leading
/// and trailing white space when it succeeded, and otherwise `Error: ` and
/// its error output, trimmed the same way.
pub open spec fn report_text(success: bool, output: Seq<char>, errors: Seq<char>) -> Seq<char> {
    if success {
        trim_chars(output)
    } else {
        error_prefix() + trim_chars(errors)
    }
}

/// `Error: ` followed by `detail`: what the panel shows when a command could
/// not run.
pub fn error_report(detail: &str) -> (r: String)
    ensures
        r@ == error_prefix() + detail@,
{
    let mut r = String::new();
    r.append("Error: ");
    proof {
        reveal_strlit("Error: ");
    }
    r.append(detail);
    assert(r@ =~= error_prefix() + detail@);
    r
}

/// The report of a command that ran, from its decoded output and error
/// output.
pub fn report_from_text(success: bool, output: &str, errors: &str) -> (r: String)
    ensures
        r@ == report_text(success, output@, errors@),
{
    if success {
        trim(output).to_owned()
    } else {
        error_report(trim(errors))
    }
}

/// The report of a command that ran, from the bytes of its standard output
/// and standard error and whether it exited successfully.
pub fn command_report(success: bool, stdout: &[u8], stderr: &[u8]) -> (r: String)
    ensures
        r@ == report_text(success, lossy_utf8(stdout@), lossy_utf8(stderr@)),
{
    let output = decode_lossy(stdout);
    let errors = decode_lossy(stderr);
    report_from_text(success, output.as_str(), errors.as_str())
}

/// A command that succeeded shows its output without the white space around
/// it; one that failed shows `Error: ` and its error output without the
/// white space around it, whatever its output was.
pub proof fn lemma_report_text(output: Seq<char>, errors: Seq<char>)
    ensures
        report_text(true, output, errors) == trim_chars(output),
        report_text(false, output, errors) == seq!['E', 'r', 'r', 'o', 'r', ':', ' '] + trim_chars(
            errors,
        ),
        report_text(false, output, errors).len() == 7 + trim_chars(errors).len(),
{
}

} // verus!
