//! Deciding the outcome of a request to terminate a process from what the
//! system's tools printed. Running the tools, and waiting, is the caller's
//! part.
use vstd::prelude::*;
use vstd::utf8::{valid_utf8, decode_utf8};
use crate::types::KillResult;
use crate::text::{
    contains_seq, lowercase, trimmed, decimal, signed_decimal, str_trim, str_contains,
    str_to_lowercase, decimal_chars, signed_decimal_chars, string_of,
};

verus! {

/// The text that encoding_rs's `EUC_KR.decode` makes of bytes (with its BOM
/// sniffing and replacement of malformed sequences).
pub uninterp spec fn euc_kr_text(bytes: Seq<u8>) -> Seq<char>;

/// The text that `String::from_utf8_lossy` makes of bytes.
pub uninterp spec fn lossy_text(bytes: Seq<u8>) -> Seq<char>;

/// Calls `std::str::from_utf8`. As its documentation says, it accepts
/// exactly the valid UTF-8 byte sequences, and then gives their characters.
#[verifier::external_body]
fn utf8_text(bytes: &[u8]) -> (r: Option<String>)
    ensures
        r is Some <==> valid_utf8(bytes@),
        r matches Some(s) ==> s@ == decode_utf8(bytes@),
{
    std::str::from_utf8(bytes).ok().map(|s| s.to_string())
}

/// Calls encoding_rs's `EUC_KR.decode` and keeps the text. Named by
/// `euc_kr_text`; nothing more is claimed of the decoding.
#[verifier::external_body]
fn euc_kr_decode(bytes: &[u8]) -> (r: String)
    ensures
        r@ == euc_kr_text(bytes@),
{
    let (cow, _encoding, _had_errors) = encoding_rs::EUC_KR.decode(bytes);
    cow.into_owned()
}

/// Calls `String::from_utf8_lossy`. Named by `lossy_text`.
#[verifier::external_body]
fn utf8_lossy(bytes: &[u8]) -> (r: String)
    ensures
        r@ == lossy_text(bytes@),
{
    String::from_utf8_lossy(bytes).into_owned()
}

/// What console output reads as: UTF-8 when valid, else EUC-KR (the Korean
/// Windows code page), else lossy UTF-8; trimmed.
pub open spec fn console_text(b: Seq<u8>) -> Seq<char> {
    if b.len() == 0 {
        Seq::empty()
    } else if valid_utf8(b) {
        trimmed(decode_utf8(b))
    } else if euc_kr_text(b).len() > 0 {
        trimmed(euc_kr_text(b))
    } else {
        trimmed(lossy_text(b))
    }
}

fn trimmed_string(s: &String) -> (r: String)
    ensures
        r@ == trimmed(s@),
{
    String::from_str(str_trim(s.as_str()))
}

/// Decodes console output (see `console_text`).
pub fn decode_windows_output(bytes: &[u8]) -> (r: String)
    ensures
        r@ == console_text(bytes@),
{
    if bytes.len() == 0 {
        return String::new();
    }
    if let Some(s) = utf8_text(bytes) {
        return trimmed_string(&s);
    }
    let decoded = euc_kr_decode(bytes);
    if !decoded.as_str().is_empty() {
        return trimmed_string(&decoded);
    }
    trimmed_string(&utf8_lossy(bytes))
}

/// The message for a process that had already ended.
pub open spec fn already_exited_text() -> Seq<char> {
    "\u{d504}\u{b85c}\u{c138}\u{c2a4}\u{ac00} \u{c774}\u{bbf8} \u{c885}\u{b8cc}\u{b418}\u{c5b4} \u{c788}\u{c2b5}\u{b2c8}\u{b2e4}."@
}

/// The answer for a process that is not running: success, already ended.
pub fn already_exited(pid: u32) -> (r: KillResult)
    ensures
        r.pid == pid,
        r.success,
        r.message@ == already_exited_text(),
{
    KillResult {
        pid,
        success: true,
        message: String::from_str("\u{d504}\u{b85c}\u{c138}\u{c2a4}\u{ac00} \u{c774}\u{bbf8} \u{c885}\u{b8cc}\u{b418}\u{c5b4} \u{c788}\u{c2b5}\u{b2c8}\u{b2e4}."),
    }
}

/// Whether the task list output mentions the process id.
pub fn tasklist_lists_pid(out: &str, pid: u32) -> (r: bool)
    ensures
        r == contains_seq(out@, decimal(pid as nat)),
{
    let digits = decimal_chars(pid as u64);
    let text = string_of(digits.as_slice());
    str_contains(out, text.as_str())
}

/// The kill command's output reports success.
pub open spec fn reports_success(out: Seq<char>) -> bool {
    contains_seq(out, "\u{c131}\u{acf5}"@) || contains_seq(lowercase(out), "success"@)
        || contains_seq(lowercase(out), "terminated"@)
}

/// The kill command's error output reports an error.
pub open spec fn reports_error(err: Seq<char>) -> bool {
    contains_seq(err, "\u{c624}\u{b958}"@) || contains_seq(lowercase(err), "error"@)
        || contains_seq(err, "\u{cc3e}\u{c744} \u{c218} \u{c5c6}"@)
        || contains_seq(err, "\u{c561}\u{c138}\u{c2a4} \u{ac70}\u{bd80}"@)
        || contains_seq(err, "access is denied"@)
}

/// The kill command counts as successful: it exited with success or
/// reported success, and reported no error.
pub open spec fn kill_command_succeeded(out: Seq<char>, err: Seq<char>, status_ok: bool) -> bool {
    (status_ok && !reports_error(err)) || (reports_success(out) && !reports_error(err))
}

fn has_success(out: &str) -> (r: bool)
    ensures
        r == reports_success(out@),
{
    let lower = str_to_lowercase(out);
    str_contains(out, "\u{c131}\u{acf5}") || str_contains(lower.as_str(), "success")
        || str_contains(lower.as_str(), "terminated")
}

fn has_error(err: &str) -> (r: bool)
    ensures
        r == reports_error(err@),
{
    let lower = str_to_lowercase(err);
    str_contains(err, "\u{c624}\u{b958}") || str_contains(lower.as_str(), "error")
        || str_contains(err, "\u{cc3e}\u{c744} \u{c218} \u{c5c6}")
        || str_contains(err, "\u{c561}\u{c138}\u{c2a4} \u{ac70}\u{bd80}")
        || str_contains(err, "access is denied")
}

/// Whether the Windows kill command (taskkill) counts as successful.
pub fn windows_kill_succeeded(stdout: &str, stderr: &str, status_ok: bool) -> (r: bool)
    ensures
        r == kill_command_succeeded(stdout@, stderr@, status_ok),
{
    let err = has_error(stderr);
    let ok = has_success(stdout);
    (status_ok && !err) || (ok && !err)
}

/// The message for a process that ended.
pub open spec fn terminated_text() -> Seq<char> {
    "\u{d504}\u{b85c}\u{c138}\u{c2a4}\u{ac00} \u{c885}\u{b8cc}\u{b418}\u{c5c8}\u{c2b5}\u{b2c8}\u{b2e4}."@
}

/// "...(PID: " before the pid in the still-running message.
pub open spec fn still_running_prefix() -> Seq<char> {
    "\u{c885}\u{b8cc} \u{ba85}\u{b839}\u{c740} \u{c2e4}\u{d589}\u{b418}\u{c5c8}\u{c73c}\u{b098} \u{d504}\u{b85c}\u{c138}\u{c2a4}(PID: "@
}

/// The end of the Windows still-running message.
pub open spec fn windows_still_running_suffix() -> Seq<char> {
    ")\u{ac00} \u{c5ec}\u{c804}\u{d788} \u{c2e4}\u{d589} \u{c911}\u{c785}\u{b2c8}\u{b2e4}. \u{ad00}\u{b9ac}\u{c790} \u{ad8c}\u{d55c}\u{c774} \u{d544}\u{c694}\u{d558}\u{ac70}\u{b098} \u{c2dc}\u{c2a4}\u{d15c} \u{d504}\u{b85c}\u{c138}\u{c2a4}\u{c77c} \u{c218} \u{c788}\u{c2b5}\u{b2c8}\u{b2e4}."@
}

/// The end of the Unix still-running message.
pub open spec fn unix_still_running_suffix() -> Seq<char> {
    ")\u{ac00} \u{c5ec}\u{c804}\u{d788} \u{c2e4}\u{d589} \u{c911}\u{c785}\u{b2c8}\u{b2e4}."@
}

fn with_pid(prefix: &str, pid: u32, suffix: &str) -> (r: String)
    ensures
        r@ == prefix@ + decimal(pid as nat) + suffix@,
{
    let digits = decimal_chars(pid as u64);
    let mut s = String::from_str(prefix);
    let d = string_of(digits.as_slice());
    s.append(d.as_str());
    s.append(suffix);
    s
}

/// The answer after a successful Windows kill command, once waiting has shown
/// whether the process ended.
pub fn windows_kill_outcome(pid: u32, stdout: &str, exited: bool) -> (r: Result<KillResult, String>)
    ensures
        exited ==> (r matches Ok(k) && k.pid == pid && k.success && k.message@ == (if stdout@.len() == 0 {
            terminated_text()
        } else {
            "\u{d504}\u{b85c}\u{c138}\u{c2a4}\u{ac00} \u{c885}\u{b8cc}\u{b418}\u{c5c8}\u{c2b5}\u{b2c8}\u{b2e4}. ("@ + stdout@ + ")"@
        })),
        !exited ==> (r matches Err(e) && e@ == still_running_prefix() + decimal(pid as nat) + windows_still_running_suffix()),
{
    if exited {
        let message = if stdout.is_empty() {
            String::from_str("\u{d504}\u{b85c}\u{c138}\u{c2a4}\u{ac00} \u{c885}\u{b8cc}\u{b418}\u{c5c8}\u{c2b5}\u{b2c8}\u{b2e4}.")
        } else {
            let mut m = String::from_str("\u{d504}\u{b85c}\u{c138}\u{c2a4}\u{ac00} \u{c885}\u{b8cc}\u{b418}\u{c5c8}\u{c2b5}\u{b2c8}\u{b2e4}. (");
            m.append(stdout);
            m.append(")");
            m
        };
        Ok(KillResult { pid, success: true, message })
    } else {
        Err(with_pid(
            "\u{c885}\u{b8cc} \u{ba85}\u{b839}\u{c740} \u{c2e4}\u{d589}\u{b418}\u{c5c8}\u{c73c}\u{b098} \u{d504}\u{b85c}\u{c138}\u{c2a4}(PID: ",
            pid,
            ")\u{ac00} \u{c5ec}\u{c804}\u{d788} \u{c2e4}\u{d589} \u{c911}\u{c785}\u{b2c8}\u{b2e4}. \u{ad00}\u{b9ac}\u{c790} \u{ad8c}\u{d55c}\u{c774} \u{d544}\u{c694}\u{d558}\u{ac70}\u{b098} \u{c2dc}\u{c2a4}\u{d15c} \u{d504}\u{b85c}\u{c138}\u{c2a4}\u{c77c} \u{c218} \u{c788}\u{c2b5}\u{b2c8}\u{b2e4}.",
        ))
    }
}

/// The answer after a successful Unix kill command, once waiting has shown
/// whether the process ended.
pub fn unix_kill_outcome(pid: u32, exited: bool) -> (r: Result<KillResult, String>)
    ensures
        exited ==> (r matches Ok(k) && k.pid == pid && k.success && k.message@ == terminated_text()),
        !exited ==> (r matches Err(e) && e@ == still_running_prefix() + decimal(pid as nat) + unix_still_running_suffix()),
{
    if exited {
        Ok(KillResult {
            pid,
            success: true,
            message: String::from_str("\u{d504}\u{b85c}\u{c138}\u{c2a4}\u{ac00} \u{c885}\u{b8cc}\u{b418}\u{c5c8}\u{c2b5}\u{b2c8}\u{b2e4}."),
        })
    } else {
        Err(with_pid(
            "\u{c885}\u{b8cc} \u{ba85}\u{b839}\u{c740} \u{c2e4}\u{d589}\u{b418}\u{c5c8}\u{c73c}\u{b098} \u{d504}\u{b85c}\u{c138}\u{c2a4}(PID: ",
            pid,
            ")\u{ac00} \u{c5ec}\u{c804}\u{d788} \u{c2e4}\u{d589} \u{c911}\u{c785}\u{b2c8}\u{b2e4}.",
        ))
    }
}

/// The `{:?}` rendering of an optional exit code.
pub open spec fn debug_code(code: Option<i32>) -> Seq<char> {
    match code {
        Some(c) => "Some("@ + signed_decimal(c as int) + ")"@,
        None => "None"@,
    }
}

/// The error of a failed Unix kill command, from its error output.
pub open spec fn unix_failure_text(stderr: Seq<u8>, code: Option<i32>) -> Seq<char> {
    unix_failure_from(trimmed(lossy_text(stderr)), code)
}

/// The error of a failed Unix kill command, from its trimmed error text.
pub open spec fn unix_failure_from(msg: Seq<char>, code: Option<i32>) -> Seq<char> {
    if msg.len() == 0 {
        "kill \u{ba85}\u{b839}\u{c774} \u{be44}\u{c815}\u{c0c1} \u{c885}\u{b8cc}\u{b418}\u{c5c8}\u{c2b5}\u{b2c8}\u{b2e4} (\u{cf54}\u{b4dc}: "@ + debug_code(code) + ")"@
    } else {
        "\u{d504}\u{b85c}\u{c138}\u{c2a4} \u{c885}\u{b8cc} \u{c2e4}\u{d328}: "@ + msg
    }
}

/// The error of a failed Unix kill command (see `unix_failure_text`).
pub fn unix_kill_failure(stderr: &[u8], code: Option<i32>) -> (r: String)
    ensures
        r@ == unix_failure_text(stderr@, code),
{
    let lossy = utf8_lossy(stderr);
    unix_failure_message(str_trim(lossy.as_str()), code)
}

/// The error of a failed Unix kill command from its trimmed error text (see
/// `unix_failure_from`).
pub fn unix_failure_message(msg: &str, code: Option<i32>) -> (r: String)
    ensures
        r@ == unix_failure_from(msg@, code),
{
    if msg.is_empty() {
        let mut s = String::from_str("kill \u{ba85}\u{b839}\u{c774} \u{be44}\u{c815}\u{c0c1} \u{c885}\u{b8cc}\u{b418}\u{c5c8}\u{c2b5}\u{b2c8}\u{b2e4} (\u{cf54}\u{b4dc}: ");
        match code {
            Some(c) => {
                s.append("Some(");
                let digits = signed_decimal_chars(c as i64);
                let d = string_of(digits.as_slice());
                s.append(d.as_str());
                s.append(")");
            },
            None => {
                s.append("None");
            },
        }
        s.append(")");
        s
    } else {
        let mut s = String::from_str("\u{d504}\u{b85c}\u{c138}\u{c2a4} \u{c885}\u{b8cc} \u{c2e4}\u{d328}: ");
        s.append(msg);
        s
    }
}

/// The reasons listed when a Windows kill command failed: what its error
/// output says (a missing process, a denied access, or the message itself),
/// its output, and a non-zero exit code.
pub open spec fn failure_reasons(out: Seq<char>, err: Seq<char>, code: Option<i32>) -> Seq<Seq<char>> {
    let r1 = if reports_error(err) {
        if contains_seq(err, "\u{cc3e}\u{c744} \u{c218} \u{c5c6}"@) || contains_seq(lowercase(err), "cannot find"@) {
            seq!["\u{c9c0}\u{c815}\u{b41c} PID\u{c758} \u{d504}\u{b85c}\u{c138}\u{c2a4}\u{b97c} \u{cc3e}\u{c744} \u{c218} \u{c5c6}\u{c2b5}\u{b2c8}\u{b2e4}."@]
        } else if contains_seq(err, "\u{c561}\u{c138}\u{c2a4} \u{ac70}\u{bd80}"@) || contains_seq(lowercase(err), "access is denied"@) {
            seq!["\u{c811}\u{adfc}\u{c774} \u{ac70}\u{bd80}\u{b418}\u{c5c8}\u{c2b5}\u{b2c8}\u{b2e4}. \u{ad00}\u{b9ac}\u{c790} \u{ad8c}\u{d55c}\u{c73c}\u{b85c} \u{c2e4}\u{d589}\u{d574} \u{bcf4}\u{c138}\u{c694}."@]
        } else {
            seq!["\u{c2dc}\u{c2a4}\u{d15c} \u{ba54}\u{c2dc}\u{c9c0}: "@ + err]
        }
    } else if err.len() > 0 {
        seq!["\u{c2dc}\u{c2a4}\u{d15c} \u{ba54}\u{c2dc}\u{c9c0}: "@ + err]
    } else {
        Seq::empty()
    };
    let r2 = if out.len() > 0 {
        r1.push("\u{cd9c}\u{b825}: "@ + out)
    } else {
        r1
    };
    match code {
        Some(c) => if c != 0 {
            r2.push("\u{c885}\u{b8cc} \u{cf54}\u{b4dc}: "@ + signed_decimal(c as int))
        } else {
            r2
        },
        None => r2,
    }
}

/// Lines joined with line breaks.
pub open spec fn join_lines(lines: Seq<Seq<char>>) -> Seq<char>
    decreases lines.len(),
{
    if lines.len() == 0 {
        Seq::empty()
    } else if lines.len() == 1 {
        lines[0]
    } else {
        join_lines(lines.drop_last()) + "\n"@ + lines.last()
    }
}

/// The error of a failed Windows kill command.
pub open spec fn windows_failure_text(pid: u32, out: Seq<char>, err: Seq<char>, code: Option<i32>) -> Seq<char> {
    let base = "\u{d504}\u{b85c}\u{c138}\u{c2a4}(PID: "@ + decimal(pid as nat) + ") \u{c885}\u{b8cc}\u{c5d0} \u{c2e4}\u{d328}\u{d588}\u{c2b5}\u{b2c8}\u{b2e4}."@;
    let lines = failure_reasons(out, err, code);
    if lines.len() == 0 {
        base
    } else {
        base + "\n"@ + join_lines(lines)
    }
}

fn prefixed(prefix: &str, s: &str) -> (r: String)
    ensures
        r@ == prefix@ + s@,
{
    let mut t = String::from_str(prefix);
    t.append(s);
    t
}

/// The error of a failed Windows kill command (see `windows_failure_text`).
pub fn windows_kill_failure(pid: u32, stdout: &str, stderr: &str, code: Option<i32>) -> (r: String)
    ensures
        r@ == windows_failure_text(pid, stdout@, stderr@, code),
{
    let mut reasons: Vec<String> = Vec::new();
    let lower_err = str_to_lowercase(stderr);
    if has_error(stderr) {
        if str_contains(stderr, "\u{cc3e}\u{c744} \u{c218} \u{c5c6}") || str_contains(lower_err.as_str(), "cannot find") {
            reasons.push(String::from_str("\u{c9c0}\u{c815}\u{b41c} PID\u{c758} \u{d504}\u{b85c}\u{c138}\u{c2a4}\u{b97c} \u{cc3e}\u{c744} \u{c218} \u{c5c6}\u{c2b5}\u{b2c8}\u{b2e4}."));
        } else if str_contains(stderr, "\u{c561}\u{c138}\u{c2a4} \u{ac70}\u{bd80}") || str_contains(lower_err.as_str(), "access is denied") {
            reasons.push(String::from_str("\u{c811}\u{adfc}\u{c774} \u{ac70}\u{bd80}\u{b418}\u{c5c8}\u{c2b5}\u{b2c8}\u{b2e4}. \u{ad00}\u{b9ac}\u{c790} \u{ad8c}\u{d55c}\u{c73c}\u{b85c} \u{c2e4}\u{d589}\u{d574} \u{bcf4}\u{c138}\u{c694}."));
        } else {
            reasons.push(prefixed("\u{c2dc}\u{c2a4}\u{d15c} \u{ba54}\u{c2dc}\u{c9c0}: ", stderr));
        }
    } else if !stderr.is_empty() {
        reasons.push(prefixed("\u{c2dc}\u{c2a4}\u{d15c} \u{ba54}\u{c2dc}\u{c9c0}: ", stderr));
    }
    if !stdout.is_empty() {
        reasons.push(prefixed("\u{cd9c}\u{b825}: ", stdout));
    }
    if let Some(c) = code {
        if c != 0 {
            let digits = signed_decimal_chars(c as i64);
            let d = string_of(digits.as_slice());
            reasons.push(prefixed("\u{c885}\u{b8cc} \u{cf54}\u{b4dc}: ", d.as_str()));
        }
    }
    let ghost lines = reasons@.map_values(|x: String| x@);
    assert(lines =~= failure_reasons(stdout@, stderr@, code));
    let mut out = with_pid("\u{d504}\u{b85c}\u{c138}\u{c2a4}(PID: ", pid, ") \u{c885}\u{b8cc}\u{c5d0} \u{c2e4}\u{d328}\u{d588}\u{c2b5}\u{b2c8}\u{b2e4}.");
    if reasons.len() > 0 {
        out.append("\n");
        let mut i: usize = 0;
        while i < reasons.len()
            invariant
                lines == reasons@.map_values(|x: String| x@),
                lines.len() > 0,
                i <= lines.len(),
                out@ == "\u{d504}\u{b85c}\u{c138}\u{c2a4}(PID: "@ + decimal(pid as nat) + ") \u{c885}\u{b8cc}\u{c5d0} \u{c2e4}\u{d328}\u{d588}\u{c2b5}\u{b2c8}\u{b2e4}."@ + "\n"@ + join_lines(lines.take(i as int)),
            decreases lines.len() - i,
        {
            proof {
                assert(lines.take(i + 1).drop_last() =~= lines.take(i as int));
                assert(lines.take(i + 1).last() == lines[i as int]);
            }
            if i > 0 {
                out.append("\n");
            }
            out.append(reasons[i].as_str());
            proof {
                if i == 0 {
                    assert(lines.take(1) =~= seq![lines[0]]);
                    assert(join_lines(lines.take(0)) =~= Seq::<char>::empty());
                }
            }
            i = i + 1;
        }
        assert(lines.take(lines.len() as int) =~= lines);
    }
    out
}

} // verus!
