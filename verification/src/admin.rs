//! What the administrative commands report.

use vstd::prelude::*;
use vstd::string::*;

verus! {

/// The report on an attempt to mark an email address as verified, which
/// updated `updated` rows.
pub open spec fn verification_report_text(email: Seq<char>, updated: nat) -> Seq<char> {
    if updated >= 1 {
        "Email "@ + email + " is now verified"@
    } else {
        "Email "@ + email + " was not found"@
    }
}

/// Says whether the email address was found and verified.
pub fn verification_report(email: &str, updated: usize) -> (report: String)
    ensures
        report@ == verification_report_text(email@, updated as nat),
{
    let mut report = String::from_str("Email ");
    report.append(email);
    if updated >= 1 {
        report.append(" is now verified");
    } else {
        report.append(" was not found");
    }
    report
}

} // verus!
