//! What to make of an external command once it has run.

use vstd::prelude::*;
use vstd::string::*;
use vstd::utf8::{decode_utf8, valid_utf8};
use crate::errors::{internal, internal_error, CargoError, CargoResult};

verus! {

/// How a command ended and what it wrote.
#[derive(Debug)]
pub struct ProcessOutput {
    /// Whether the command exited with status zero.
    pub success: bool,
    /// What it wrote to its standard output.
    pub output: Vec<u8>,
    /// What it wrote to its standard error.
    pub error: Vec<u8>,
}

/// The description of a command that failed.
pub open spec fn failure_description(command: Seq<char>) -> Seq<char> {
    "failed to run command `"@ + command + "`"@
}

/// The text that `String::from_utf8_lossy` makes of bytes: the text
/// that they encode where they are UTF-8, and otherwise that text with
/// the replacement character U+FFFD in place of what is none.
pub uninterp spec fn lossy_text(bytes: Seq<u8>) -> Seq<char>;

/// Reads bytes as text with `String::from_utf8_lossy`. Bytes that are
/// UTF-8 give exactly the characters that they encode.
#[verifier::external_body]
fn text_of(bytes: &[u8]) -> (text: String)
    ensures
        text@ == lossy_text(bytes@),
        valid_utf8(bytes@) ==> text@ == decode_utf8(bytes@),
{
    String::from_utf8_lossy(bytes).into_owned()
}

/// One section of the detail: nothing for an empty stream, else the
/// header and the text of the stream.
pub open spec fn section(header: Seq<char>, stream: Seq<u8>) -> Seq<char> {
    if stream.len() == 0 {
        Seq::empty()
    } else {
        header + lossy_text(stream)
    }
}

/// One section of the detail for a stream that is UTF-8: nothing for an
/// empty stream, else the header and the characters of the stream.
pub open spec fn utf8_section(header: Seq<char>, stream: Seq<u8>) -> Seq<char> {
    if stream.len() == 0 {
        Seq::empty()
    } else {
        header + decode_utf8(stream)
    }
}

/// The detail of a command that failed: the section of its standard
/// output, then the section of its standard error.
pub open spec fn failure_detail(output: Seq<u8>, error: Seq<u8>) -> Seq<char> {
    section("--- stdout\n"@, output) + section("--- stderr\n"@, error)
}

/// The detail of a command that failed and wrote UTF-8.
pub open spec fn utf8_failure_detail(output: Seq<u8>, error: Seq<u8>) -> Seq<char> {
    utf8_section("--- stdout\n"@, output) + utf8_section("--- stderr\n"@, error)
}

/// A command that wrote to its standard error alone has a detail of that
/// one section, and one that wrote to its standard output alone has a
/// detail of this one. One that wrote nothing has an empty detail.
pub proof fn lemma_empty_stream_has_no_section(output: Seq<u8>, error: Seq<u8>)
    ensures
        output.len() == 0 ==> failure_detail(output, error) == section("--- stderr\n"@, error),
        error.len() == 0 ==> failure_detail(output, error) == section("--- stdout\n"@, output),
        output.len() == 0 && error.len() == 0 ==> failure_detail(output, error)
            == Seq::<char>::empty(),
        output.len() == 0 ==> utf8_failure_detail(output, error) == utf8_section(
            "--- stderr\n"@,
            error,
        ),
        error.len() == 0 ==> utf8_failure_detail(output, error) == utf8_section(
            "--- stdout\n"@,
            output,
        ),
{
    assert(output.len() == 0 ==> failure_detail(output, error) =~= section(
        "--- stderr\n"@,
        error,
    ));
    assert(error.len() == 0 ==> failure_detail(output, error) =~= section(
        "--- stdout\n"@,
        output,
    ));
    assert(output.len() == 0 ==> utf8_failure_detail(output, error) =~= utf8_section(
        "--- stderr\n"@,
        error,
    ));
    assert(error.len() == 0 ==> utf8_failure_detail(output, error) =~= utf8_section(
        "--- stdout\n"@,
        output,
    ));
}

/// Appends the section of one stream to the detail.
fn push_section(detail: &mut String, header: &str, stream: &Vec<u8>)
    ensures
        final(detail)@ == old(detail)@ + section(header@, stream@),
        valid_utf8(stream@) ==> final(detail)@ == old(detail)@ + utf8_section(header@, stream@),
{
    if stream.len() != 0 {
        let text = text_of(stream.as_slice());
        detail.append(header);
        detail.append(text.as_str());
        assert(detail@ =~= old(detail)@ + section(header@, stream@));
    } else {
        assert(detail@ =~= old(detail)@ + section(header@, stream@));
    }
}

/// Turns the outcome of running `command` into a result. `ran` is what
/// the command left behind, or `None` where it could not be started.
///
/// A command that exited with status zero gives its output back. One
/// that could not be started gives an internal error without detail. One
/// that exited with another status gives an internal error whose detail
/// holds what it wrote, each stream under its header, and no header for
/// a stream that stayed empty. What the streams hold never decides
/// between success and failure; in a stream that is not UTF-8 the
/// replacement character stands for what is no text.
pub fn exec(command: &str, ran: Option<ProcessOutput>) -> (result: CargoResult<ProcessOutput>)
    ensures
        result is Err <==> (ran matches Some(out) ==> !out.success),
        match ran {
            Some(out) if out.success => result == Ok::<ProcessOutput, CargoError>(out),
            Some(out) => result matches Err(CargoError::Internal { description, detail: Some(detail) })
                && description@ == failure_description(command@) && detail@ == failure_detail(
                out.output@,
                out.error@,
            ) && (valid_utf8(out.output@) && valid_utf8(out.error@) ==> detail@
                == utf8_failure_detail(out.output@, out.error@)),
            None => result matches Err(CargoError::Internal { description, detail: None })
                && description@ == failure_description(command@),
        },
{
    let mut description = String::from_str("failed to run command `");
    description.append(command);
    description.append("`");
    match ran {
        None => Err(internal(description)),
        Some(out) => {
            if out.success {
                Ok(out)
            } else {
                let mut detail = String::new();
                push_section(&mut detail, "--- stdout\n", &out.output);
                push_section(&mut detail, "--- stderr\n", &out.error);
                assert(detail@ =~= failure_detail(out.output@, out.error@));
                assert(valid_utf8(out.output@) && valid_utf8(out.error@) ==> detail@
                    =~= utf8_failure_detail(out.output@, out.error@));
                Err(internal_error(description, detail))
            }
        },
    }
}

} // verus!
