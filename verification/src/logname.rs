//! Naming the run's log file: the configured log directory, the program
//! name, a fixed marker, a timestamp taken at the moment of the call, and
//! the fixed extension.

use vstd::prelude::*;
use vstd::string::StringExecFns;

verus! {

/// Relies on chrono::Local::now formatted with `%Y%m%d-%H%M%S`: the stamp is
/// the local date and time of the call, rendered as at least four year
/// digits, month, day, a dash, and six time digits — never fewer than
/// fifteen characters.
#[verifier::external_body]
fn current_compact_stamp() -> (r: String)
    ensures
        r@.len() >= 15,
{
    chrono::Local::now().format("%Y%m%d-%H%M%S").to_string()
}

/// The log file name laid out from its parts: directory, program name, the
/// log marker, the stamp, and the extension.
pub open spec fn spec_log_file_name(
    dir: Seq<char>,
    prog: Seq<char>,
    stamp: Seq<char>,
) -> Seq<char> {
    dir + prog + "\\Log_"@ + stamp + ".txt"@
}

/// Assemble a log file name from the given parts.
pub fn build_log_file_name(lfp: &str, jpn: &str, stamp: &str) -> (r: String)
    ensures
        r@ == spec_log_file_name(lfp@, jpn@, stamp@),
{
    let mut r = String::from_str(lfp);
    r.append(jpn);
    r.append("\\Log_");
    r.append(stamp);
    r.append(".txt");
    r
}

/// Append the run's log file name — log directory, program name, the log
/// marker, a timestamp of at least fifteen characters taken now, and the
/// extension — to `lfn`.
pub fn construct_lf_name(lfn: &mut String, lfp: &str, jpn: &str)
    ensures
        exists|stamp: Seq<char>|
            stamp.len() >= 15 && final(lfn)@ == old(lfn)@ + spec_log_file_name(lfp@, jpn@, stamp),
{
    let stamp = current_compact_stamp();
    let tail = build_log_file_name(lfp, jpn, stamp.as_str());
    lfn.append(tail.as_str());
    proof {
        assert(stamp@.len() >= 15 && final(lfn)@ == old(lfn)@ + spec_log_file_name(
            lfp@,
            jpn@,
            stamp@,
        ));
    }
}

} // verus!
