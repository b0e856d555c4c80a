//! Administrator rights: whether the app runs elevated, and the command that restarts it
//! elevated (one UAC prompt instead of one per package).

use vstd::prelude::*;
use crate::decode::{from_utf8_lossy, utf8_lossy};
use crate::remote::{double_quotes, quote_doubled};
use crate::text::{chars_of, push_arg, strings_view, to_string_of, trim, trim_str};

verus! {

/// The code of `c` with ASCII capitals lowered.
pub open spec fn ascii_lower(c: char) -> u32 {
    if 'A' <= c && c <= 'Z' {
        (c as u32 + 32) as u32
    } else {
        c as u32
    }
}

/// `str::eq_ignore_ascii_case`: the same length and the same characters once ASCII
/// capitals are lowered.
pub open spec fn eq_ignore_ascii_case(a: Seq<char>, b: Seq<char>) -> bool {
    a.len() == b.len() && forall|i: int| 0 <= i < a.len() ==> #[trigger] ascii_lower(a[i])
        == ascii_lower(b[i])
}

/// The code of `c` with ASCII capitals lowered (exec).
fn lower(c: char) -> (r: u32)
    ensures
        r == ascii_lower(c),
{
    if 'A' <= c && c <= 'Z' {
        c as u32 + 32
    } else {
        c as u32
    }
}

/// Whether two texts are equal ignoring ASCII case.
pub fn same_ignoring_ascii_case(a: &str, b: &str) -> (r: bool)
    ensures
        r == eq_ignore_ascii_case(a@, b@),
{
    let x = chars_of(a);
    let y = chars_of(b);
    if x.len() != y.len() {
        return false;
    }
    let mut i: usize = 0;
    while i < x.len()
        invariant
            i <= x.len() == y.len(),
            x@ == a@,
            y@ == b@,
            forall|j: int| 0 <= j < i ==> #[trigger] ascii_lower(x@[j]) == ascii_lower(y@[j]),
        decreases x.len() - i,
    {
        if lower(x[i]) != lower(y[i]) {
            return false;
        }
        i = i + 1;
    }
    true
}

/// The arguments of `powershell` that ask whether the current user is an administrator.
pub open spec fn is_elevated_argv() -> Seq<Seq<char>> {
    seq![
        "-NoProfile"@,
        "-Command"@,
        "([Security.Principal.WindowsPrincipal][Security.Principal.WindowsIdentity]::GetCurrent()).IsInRole([Security.Principal.WindowsBuiltInRole]::Administrator)"@,
    ]
}

/// The arguments of `powershell` that ask whether the app runs as administrator.
pub fn is_elevated_args() -> (r: Vec<String>)
    ensures
        strings_view(r@) == is_elevated_argv(),
{
    let mut args: Vec<String> = Vec::new();
    push_arg(&mut args, "-NoProfile");
    push_arg(&mut args, "-Command");
    push_arg(
        &mut args,
        "([Security.Principal.WindowsPrincipal][Security.Principal.WindowsIdentity]::GetCurrent()).IsInRole([Security.Principal.WindowsBuiltInRole]::Administrator)",
    );
    assert(strings_view(args@) =~= is_elevated_argv());
    args
}

/// Whether PowerShell answered that the user is an administrator: its output, trimmed, is
/// "true" in any ASCII case.
pub fn elevated_from_output(stdout: &[u8]) -> (r: bool)
    ensures
        r == eq_ignore_ascii_case(trim(utf8_lossy(stdout@)), "true"@),
{
    let text = from_utf8_lossy(stdout);
    let t = trim_str(text.as_str());
    same_ignoring_ascii_case(t.as_str(), "true")
}

/// The arguments of `powershell` that start the executable at `exe_path` elevated (the path
/// is put in a single-quoted literal, its quotes doubled).
pub open spec fn relaunch_argv(exe_path: Seq<char>) -> Seq<Seq<char>> {
    seq![
        "-NoProfile"@,
        "-WindowStyle"@,
        "Hidden"@,
        "-Command"@,
        "Start-Process -FilePath '"@ + quote_doubled(exe_path) + "' -Verb RunAs"@,
    ]
}

/// The arguments of `powershell` that restart the app elevated.
pub fn relaunch_args(exe_path: &str) -> (r: Vec<String>)
    ensures
        strings_view(r@) == relaunch_argv(exe_path@),
{
    let mut command = to_string_of("Start-Process -FilePath '");
    let quoted = double_quotes(exe_path);
    command.append(quoted.as_str());
    command.append("' -Verb RunAs");
    let mut args: Vec<String> = Vec::new();
    push_arg(&mut args, "-NoProfile");
    push_arg(&mut args, "-WindowStyle");
    push_arg(&mut args, "Hidden");
    push_arg(&mut args, "-Command");
    push_arg(&mut args, command.as_str());
    assert(strings_view(args@) =~= relaunch_argv(exe_path@));
    args
}

} // verus!
