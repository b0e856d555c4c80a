//! Remote deployment: running winget on other machines of the network through PowerShell
//! remoting (`Invoke-Command -ComputerName <host> -ScriptBlock { winget ... }`). The
//! arguments are checked against a whitelist before they are put in the script block.

use vstd::prelude::*;
use crate::decode::{from_utf8_lossy, utf8_lossy};
use crate::text::{chars_of, push_char, to_string_of};

verus! {

/// A machine to run winget on.
#[derive(Clone, Debug)]
pub struct RemoteHost {
    pub host: String,
    /// Optional "DOMAIN\\user"; credentials are handled outside (Kerberos/CredSSP).
    pub user: Option<String>,
}

/// What winget did on one machine.
#[derive(Clone, Debug)]
pub struct RemoteResult {
    pub host: String,
    pub code: i32,
    pub stdout: String,
    pub stderr: String,
}

/// The content of a `RemoteResult`.
pub struct RemoteResultView {
    pub host: Seq<char>,
    pub code: i32,
    pub stdout: Seq<char>,
    pub stderr: Seq<char>,
}

impl View for RemoteResult {
    type V = RemoteResultView;

    open spec fn view(&self) -> RemoteResultView {
        RemoteResultView {
            host: self.host@,
            code: self.code,
            stdout: self.stdout@,
            stderr: self.stderr@,
        }
    }
}

/// Runs one winget operation against a machine. The app implements it with PowerShell
/// remoting; an SSH implementation would fit the same contract.
pub trait RemoteExecutor {
    /// Runs winget with `winget_args` on `host`.
    fn run(&self, host: &RemoteHost, winget_args: &[&str]) -> Result<RemoteResult, String>;

    /// Runs winget on every host in turn; a failure to run on a host becomes a result with
    /// code -1 and the error as its error output, and does not stop the other hosts. Each
    /// result is what running on that host, with the same arguments, gave: there are
    /// outcomes of `run`, one per host, of which the results are made.
    fn run_many(&self, hosts: &[RemoteHost], winget_args: &[&str]) -> (r: Vec<RemoteResult>)
        ensures
            r@.len() == hosts@.len(),
            exists|runs: Seq<Result<RemoteResult, String>>|
                #![trigger runs.len()]
                runs.len() == hosts@.len() && forall|i: int|
                    0 <= i < hosts@.len() ==> call_ensures(
                        Self::run,
                        (self, &hosts@[i], winget_args),
                        #[trigger] runs[i],
                    ) && r@[i]@ == spec_result_or_failure(hosts@[i].host@, result_view(runs[i])),
    {
        let mut out: Vec<RemoteResult> = Vec::new();
        let ghost mut runs: Seq<Result<RemoteResult, String>> = seq![];
        let mut i: usize = 0;
        while i < hosts.len()
            invariant
                i <= hosts@.len(),
                out@.len() == i,
                runs.len() == i,
                forall|k: int|
                    0 <= k < i ==> call_ensures(
                        Self::run,
                        (self, &hosts@[k], winget_args),
                        #[trigger] runs[k],
                    ) && out@[k]@ == spec_result_or_failure(hosts@[k].host@, result_view(runs[k])),
            decreases hosts@.len() - i,
        {
            let run = Self::run;
            let res = run(self, &hosts[i], winget_args);
            let ghost before_runs = runs;
            proof {
                runs = runs.push(res);
            }
            let x = result_or_failure(&hosts[i], res);
            let ghost before = out@;
            out.push(x);
            assert forall|k: int| 0 <= k < i + 1 implies call_ensures(
                Self::run,
                (self, &hosts@[k], winget_args),
                #[trigger] runs[k],
            ) && out@[k]@ == spec_result_or_failure(hosts@[k].host@, result_view(runs[k])) by {
                if k < i {
                    assert(out@[k] == before[k]);
                    assert(runs[k] == before_runs[k]);
                }
            }
            i = i + 1;
        }
        assert(runs.len() == hosts@.len());
        out
    }
}

/// The content of a result of a remote run, or of its error.
pub open spec fn result_view(res: Result<RemoteResult, String>) -> Result<RemoteResultView, Seq<char>> {
    match res {
        Ok(x) => Ok(x@),
        Err(e) => Err(e@),
    }
}

/// What stands for a host in the results: what winget did there, or, when it could not be
/// run, a result with code -1, no output and the error as error output.
pub open spec fn spec_result_or_failure(host: Seq<char>, res: Result<RemoteResultView, Seq<char>>)
    -> RemoteResultView {
    match res {
        Ok(r) => r,
        Err(e) => RemoteResultView { host, code: -1i32, stdout: seq![], stderr: e },
    }
}

/// What stands for a host in the results of `run_many`.
pub fn result_or_failure(host: &RemoteHost, res: Result<RemoteResult, String>) -> (r: RemoteResult)
    ensures
        r@ == spec_result_or_failure(host.host@, result_view(res)),
{
    match res {
        Ok(x) => x,
        Err(e) => RemoteResult {
            host: to_string_of(host.host.as_str()),
            code: -1,
            stdout: String::new(),
            stderr: e,
        },
    }
}

/// The implementation through PowerShell remoting (WinRM).
#[derive(Debug)]
pub struct PsRemotingExecutor;

/// An ASCII letter or digit.
pub open spec fn is_ascii_alnum(c: char) -> bool {
    ('a' <= c && c <= 'z') || ('A' <= c && c <= 'Z') || ('0' <= c && c <= '9')
}

/// `char::is_ascii_alphanumeric`.
pub fn ascii_alnum(c: char) -> (r: bool)
    ensures
        r == is_ascii_alnum(c),
{
    ('a' <= c && c <= 'z') || ('A' <= c && c <= 'Z') || ('0' <= c && c <= '9')
}

/// A character allowed in a winget argument: an ASCII letter or digit, or one of
/// `. _ : - = + / \`. A whitelist: the arguments go inside a `-ScriptBlock { ... }`.
pub open spec fn arg_char_ok(c: char) -> bool {
    is_ascii_alnum(c) || c == '.' || c == '_' || c == ':' || c == '-' || c == '=' || c == '+'
        || c == '/' || c == '\\'
}

/// Whether `c` may stand in a winget argument.
pub fn arg_char_allowed(c: char) -> (r: bool)
    ensures
        r == arg_char_ok(c),
{
    ascii_alnum(c) || c == '.' || c == '_' || c == ':' || c == '-' || c == '=' || c == '+' || c
        == '/' || c == '\\'
}

/// A character allowed in a host name (DNS/NetBIOS name or IP address).
pub open spec fn host_char_ok(c: char) -> bool {
    is_ascii_alnum(c) || c == '.' || c == '-'
}

/// A character allowed in a user name (`DOMAIN\user` or `user@domain`).
pub open spec fn user_char_ok(c: char) -> bool {
    is_ascii_alnum(c) || c == '.' || c == '_' || c == '@' || c == '\\' || c == '-'
}

/// Whether every character of `s` satisfies `ok`.
pub open spec fn all_chars(s: Seq<char>, ok: spec_fn(char) -> bool) -> bool {
    forall|i: int| 0 <= i < s.len() ==> ok(#[trigger] s[i])
}

/// A valid host name: non-empty, at most 253 characters (ASCII, so as many bytes), letters,
/// digits, dots and dashes only.
pub open spec fn host_ok(host: Seq<char>) -> bool {
    host.len() > 0 && host.len() <= 253 && all_chars(host, |c: char| host_char_ok(c))
}

/// A valid user name: non-empty, at most 256 characters (ASCII, so as many bytes), made of
/// letters, digits and `._@\-`.
pub open spec fn user_ok(user: Seq<char>) -> bool {
    user.len() > 0 && user.len() <= 256 && all_chars(user, |c: char| user_char_ok(c))
}

/// Whether `host` is a valid host name.
pub fn host_allowed(host: &str) -> (r: bool)
    ensures
        r == host_ok(host@),
{
    let cs = chars_of(host);
    if cs.len() == 0 {
        return false;
    }
    let mut i: usize = 0;
    while i < cs.len()
        invariant
            i <= cs.len(),
            cs@ == host@,
            forall|j: int| 0 <= j < i ==> host_char_ok(#[trigger] cs@[j]),
        decreases cs.len() - i,
    {
        if !(ascii_alnum(cs[i]) || cs[i] == '.' || cs[i] == '-') {
            return false;
        }
        i = i + 1;
    }
    cs.len() <= 253
}

/// Whether `user` is a valid user name.
pub fn user_allowed(user: &str) -> (r: bool)
    ensures
        r == user_ok(user@),
{
    let cs = chars_of(user);
    if cs.len() == 0 {
        return false;
    }
    let mut i: usize = 0;
    while i < cs.len()
        invariant
            i <= cs.len(),
            cs@ == user@,
            forall|j: int| 0 <= j < i ==> user_char_ok(#[trigger] cs@[j]),
        decreases cs.len() - i,
    {
        let c = cs[i];
        if !(ascii_alnum(c) || c == '.' || c == '_' || c == '@' || c == '\\' || c == '-') {
            return false;
        }
        i = i + 1;
    }
    cs.len() <= 256
}

/// What `format!("{:?}", c)` writes for a character (quoted, escaped).
pub uninterp spec fn char_debug(c: char) -> Seq<char>;

/// What `format!("{:?}", s)` writes for a string (quoted, escaped).
pub uninterp spec fn str_debug(s: Seq<char>) -> Seq<char>;

/// `<char as Debug>::fmt`, through `format!`: the character quoted and escaped. Trusted to be
/// a function of the character alone.
#[verifier::external_body]
fn debug_char(c: char) -> (r: String)
    ensures
        r@ == char_debug(c),
{
    format!("{c:?}")
}

/// `<str as Debug>::fmt`, through `format!`: the string quoted and escaped. Trusted to be a
/// function of the string alone.
#[verifier::external_body]
fn debug_str(s: &str) -> (r: String)
    ensures
        r@ == str_debug(s@),
{
    format!("{s:?}")
}

/// The first character of `a` that is not allowed in an argument.
pub open spec fn first_bad_char(a: Seq<char>) -> Option<char>
    decreases a.len(),
{
    if a.len() == 0 {
        None
    } else if !arg_char_ok(a[0]) {
        Some(a[0])
    } else {
        first_bad_char(a.drop_first())
    }
}

/// What is said of one argument: nothing when it is fine, else why it is refused.
pub open spec fn arg_problem(a: Seq<char>) -> Option<Seq<char>> {
    if a.len() == 0 {
        Some("Argumento de winget vacío."@)
    } else {
        match first_bad_char(a) {
            Some(bad) => Some(
                "Argumento de winget no permitido: el carácter "@ + char_debug(bad)
                    + " podría romper el script remoto."@,
            ),
            None => None,
        }
    }
}

/// The check of a list of arguments: refused at the first one that is empty or holds a
/// character outside the whitelist.
pub open spec fn spec_validate_args(args: Seq<Seq<char>>) -> Result<(), Seq<char>>
    decreases args.len(),
{
    if args.len() == 0 {
        Ok(())
    } else {
        match arg_problem(args[0]) {
            Some(e) => Err(e),
            None => spec_validate_args(args.drop_first()),
        }
    }
}

/// The texts of a list of string slices.
pub open spec fn strs_view(v: Seq<&str>) -> Seq<Seq<char>> {
    v.map_values(|s: &str| s@)
}

/// What is said of one argument (exec).
fn check_arg(a: &str) -> (r: Option<String>)
    ensures
        match arg_problem(a@) {
            Some(e) => r matches Some(s) && s@ == e,
            None => r is None,
        },
{
    if a.is_empty() {
        return Some(to_string_of("Argumento de winget vacío."));
    }
    let cs = chars_of(a);
    assert(cs@.skip(0) =~= cs@);
    let mut i: usize = 0;
    while i < cs.len()
        invariant
            i <= cs.len(),
            cs@ == a@,
            cs@.len() > 0,
            first_bad_char(cs@) == first_bad_char(cs@.skip(i as int)),
        decreases cs.len() - i,
    {
        assert(cs@.skip(i as int).drop_first() =~= cs@.skip(i + 1));
        if !arg_char_allowed(cs[i]) {
            let mut msg = to_string_of("Argumento de winget no permitido: el carácter ");
            let d = debug_char(cs[i]);
            msg.append(d.as_str());
            msg.append(" podría romper el script remoto.");
            return Some(msg);
        }
        i = i + 1;
    }
    assert(cs@.skip(cs.len() as int) =~= seq![]);
    None
}

/// Checks winget arguments before they are put in a remote script block: each must be
/// non-empty and made only of ASCII letters, digits and `. _ : - = + / \`. The error names
/// the first argument refused.
pub fn validate_args(winget_args: &[&str]) -> (r: Result<(), String>)
    ensures
        match spec_validate_args(strs_view(winget_args@)) {
            Ok(()) => r is Ok,
            Err(e) => r matches Err(s) && s@ == e,
        },
{
    let ghost all = strs_view(winget_args@);
    assert(all.skip(0) =~= all);
    let mut i: usize = 0;
    while i < winget_args.len()
        invariant
            i <= winget_args@.len(),
            all == strs_view(winget_args@),
            spec_validate_args(all) == spec_validate_args(all.skip(i as int)),
        decreases winget_args@.len() - i,
    {
        assert(all.skip(i as int).drop_first() =~= all.skip(i + 1));
        assert(all.skip(i as int)[0] == winget_args@[i as int]@);
        match check_arg(winget_args[i]) {
            Some(e) => {
                return Err(e);
            },
            None => {},
        }
        i = i + 1;
    }
    assert(all.skip(winget_args@.len() as int) =~= seq![]);
    Ok(())
}

/// Arguments that pass the check hold no character that could end the script block or
/// start another statement: no brace, parenthesis, quote, semicolon, dollar, backtick,
/// pipe, space or line break.
pub proof fn lemma_accepted_args_stay_in_block(args: Seq<Seq<char>>)
    requires
        spec_validate_args(args) is Ok,
    ensures
        forall|i: int, k: int|
            0 <= i < args.len() && 0 <= k < args[i].len() ==> {
                let c = #[trigger] args[i][k];
                c != '{' && c != '}' && c != '(' && c != ')' && c != '\'' && c != '"' && c != ';'
                    && c != '$' && c != '`' && c != '|' && c != ' ' && c != '\n' && c != '\r'
            },
    decreases args.len(),
{
    if args.len() > 0 {
        lemma_accepted_args_stay_in_block(args.drop_first());
        lemma_no_bad_char(args[0]);
        assert forall|i: int, k: int| 0 <= i < args.len() && 0 <= k < args[i].len() implies {
            let c = #[trigger] args[i][k];
            c != '{' && c != '}' && c != '(' && c != ')' && c != '\'' && c != '"' && c != ';'
                && c != '$' && c != '`' && c != '|' && c != ' ' && c != '\n' && c != '\r'
        } by {
            if i > 0 {
                assert(args[i] == args.drop_first()[i - 1]);
            }
        }
    }
}

/// An argument without a refused character holds only whitelisted characters.
proof fn lemma_no_bad_char(a: Seq<char>)
    requires
        first_bad_char(a) is None,
    ensures
        forall|k: int| 0 <= k < a.len() ==> arg_char_ok(#[trigger] a[k]),
    decreases a.len(),
{
    if a.len() > 0 {
        lemma_no_bad_char(a.drop_first());
        assert forall|k: int| 0 <= k < a.len() implies arg_char_ok(#[trigger] a[k]) by {
            if k > 0 {
                assert(a[k] == a.drop_first()[k - 1]);
            }
        }
    }
}

/// `s` with each single quote doubled, as a PowerShell single-quoted literal needs.
pub open spec fn quote_doubled(s: Seq<char>) -> Seq<char>
    decreases s.len(),
{
    if s.len() == 0 {
        seq![]
    } else {
        quote_doubled(s.drop_last()) + if s.last() == '\'' {
            seq!['\'', '\'']
        } else {
            seq![s.last()]
        }
    }
}

/// Doubles every single quote of `s`.
pub fn double_quotes(s: &str) -> (r: String)
    ensures
        r@ == quote_doubled(s@),
{
    let cs = chars_of(s);
    let mut out = String::new();
    let mut i: usize = 0;
    while i < cs.len()
        invariant
            i <= cs.len(),
            cs@ == s@,
            out@ == quote_doubled(cs@.take(i as int)),
        decreases cs.len() - i,
    {
        assert(cs@.take(i + 1).drop_last() =~= cs@.take(i as int));
        let ghost before = out@;
        if cs[i] == '\'' {
            push_char(&mut out, '\'');
            push_char(&mut out, '\'');
        } else {
            push_char(&mut out, cs[i]);
        }
        assert(out@ =~= quote_doubled(cs@.take(i + 1)));
        i = i + 1;
    }
    assert(cs@.take(cs.len() as int) =~= cs@);
    out
}

/// The arguments joined by single spaces.
pub open spec fn joined(args: Seq<Seq<char>>) -> Seq<char>
    decreases args.len(),
{
    if args.len() == 0 {
        seq![]
    } else if args.len() == 1 {
        args[0]
    } else {
        joined(args.drop_last()) + " "@ + args.last()
    }
}

/// The PowerShell command that runs winget with `args` on `host` as `user`.
pub open spec fn remote_command(host: Seq<char>, user: Option<Seq<char>>, args: Seq<Seq<char>>)
    -> Seq<char> {
    let script = "Invoke-Command -ComputerName '"@ + quote_doubled(host) + "' -ScriptBlock { "@
        + "winget "@ + joined(args) + " }"@;
    match user {
        Some(u) => "$c = Get-Credential -UserName '"@ + quote_doubled(u)
            + "' -Message 'PrettyGet remote'; "@ + script + " -Credential $c"@,
        None => script,
    }
}

/// What remote execution on `host` with `args` comes to before anything is run: refused
/// for bad arguments, then for a bad host name, then for a bad user name; otherwise the
/// PowerShell command to run.
pub open spec fn spec_remote_script(host: Seq<char>, user: Option<Seq<char>>, args: Seq<Seq<char>>) -> Result<
    Seq<char>,
    Seq<char>,
> {
    match spec_validate_args(args) {
        Err(e) => Err(e),
        Ok(()) => if !host_ok(host) {
            Err("Nombre de host no válido: "@ + str_debug(host))
        } else {
            match user {
                Some(u) => if !user_ok(u) {
                    Err("Nombre de usuario no válido: "@ + str_debug(u))
                } else {
                    Ok(remote_command(host, Some(u), args))
                },
                None => Ok(remote_command(host, None, args)),
            }
        },
    }
}

impl PsRemotingExecutor {
    /// The PowerShell command that runs winget with `winget_args` on `host`, or why it is
    /// refused.
    pub fn script_for(&self, host: &RemoteHost, winget_args: &[&str]) -> (r: Result<String, String>)
        ensures
            match spec_remote_script(
                host.host@,
                match host.user {
                    Some(u) => Some(u@),
                    None => None,
                },
                strs_view(winget_args@),
            ) {
                Ok(s) => r matches Ok(x) && x@ == s,
                Err(e) => r matches Err(x) && x@ == e,
            },
    {
        match validate_args(winget_args) {
            Err(e) => {
                return Err(e);
            },
            Ok(()) => {},
        }
        if !host_allowed(host.host.as_str()) {
            let mut msg = to_string_of("Nombre de host no válido: ");
            let d = debug_str(host.host.as_str());
            msg.append(d.as_str());
            return Err(msg);
        }
        let args = join_args(winget_args);
        let mut script = to_string_of("Invoke-Command -ComputerName '");
        let h = double_quotes(host.host.as_str());
        script.append(h.as_str());
        script.append("' -ScriptBlock { ");
        script.append("winget ");
        script.append(args.as_str());
        script.append(" }");
        match &host.user {
            Some(user) => {
                if !user_allowed(user.as_str()) {
                    let mut msg = to_string_of("Nombre de usuario no válido: ");
                    let d = debug_str(user.as_str());
                    msg.append(d.as_str());
                    return Err(msg);
                }
                let mut full = to_string_of("$c = Get-Credential -UserName '");
                let u = double_quotes(user.as_str());
                full.append(u.as_str());
                full.append("' -Message 'PrettyGet remote'; ");
                full.append(script.as_str());
                full.append(" -Credential $c");
                Ok(full)
            },
            None => Ok(script),
        }
    }

    /// The result of a finished remote run: the exit code (-1 when there is none) and the
    /// output read as UTF-8.
    pub fn result_of(&self, host: &RemoteHost, code: Option<i32>, stdout: &[u8], stderr: &[u8]) -> (r:
        RemoteResult)
        ensures
            r@ == (RemoteResultView {
                host: host.host@,
                code: match code {
                    Some(c) => c,
                    None => -1i32,
                },
                stdout: utf8_lossy(stdout@),
                stderr: utf8_lossy(stderr@),
            }),
    {
        RemoteResult {
            host: to_string_of(host.host.as_str()),
            code: match code {
                Some(c) => c,
                None => -1,
            },
            stdout: from_utf8_lossy(stdout),
            stderr: from_utf8_lossy(stderr),
        }
    }
}

/// The arguments joined by single spaces (exec).
fn join_args(args: &[&str]) -> (r: String)
    ensures
        r@ == joined(strs_view(args@)),
{
    let ghost all = strs_view(args@);
    let mut out = String::new();
    let mut i: usize = 0;
    while i < args.len()
        invariant
            i <= args@.len(),
            all == strs_view(args@),
            out@ == joined(all.take(i as int)),
        decreases args@.len() - i,
    {
        assert(all.take(i + 1).drop_last() =~= all.take(i as int));
        assert(all.take(i + 1).last() == args@[i as int]@);
        let ghost before = out@;
        if i > 0 {
            out.append(" ");
        }
        out.append(args[i]);
        assert(out@ =~= joined(all.take(i + 1)));
        i = i + 1;
    }
    assert(all.take(args@.len() as int) =~= all);
    out
}

/// A character that the whitelist lets through, written out: an ASCII letter or digit, or
/// one of `. _ : - = + / \`.
pub open spec fn listed_char(c: char) -> bool {
    ||| 'a' <= c <= 'z'
    ||| 'A' <= c <= 'Z'
    ||| '0' <= c <= '9'
    ||| c == '.' || c == '_' || c == ':' || c == '-'
    ||| c == '=' || c == '+' || c == '/' || c == '\\'
}

/// A text made only of listed characters has no refused character.
proof fn lemma_listed_chars_pass(a: Seq<char>)
    requires
        forall|k: int| 0 <= k < a.len() ==> listed_char(#[trigger] a[k]),
    ensures
        first_bad_char(a) is None,
    decreases a.len(),
{
    if a.len() > 0 {
        assert(listed_char(a[0]));
        assert forall|k: int| 0 <= k < a.drop_first().len() implies listed_char(
            #[trigger] a.drop_first()[k],
        ) by {
            assert(a.drop_first()[k] == a[k + 1]);
        }
        lemma_listed_chars_pass(a.drop_first());
    }
}

/// The whitelist is exactly the listed characters: arguments are accepted if and only if
/// each is non-empty and made only of ASCII letters, digits and `. _ : - = + / \` (so
/// `Notepad++.Notepad++` passes, `a b` does not).
pub proof fn lemma_validate_args_exact(args: Seq<Seq<char>>)
    ensures
        spec_validate_args(args) is Ok <==> (forall|i: int|
            0 <= i < args.len() ==> #[trigger] args[i].len() > 0 && forall|k: int|
                0 <= k < args[i].len() ==> listed_char(#[trigger] args[i][k])),
    decreases args.len(),
{
    if args.len() > 0 {
        let a = args[0];
        let rest = args.drop_first();
        lemma_validate_args_exact(rest);
        let all_ok = forall|i: int|
            0 <= i < args.len() ==> #[trigger] args[i].len() > 0 && forall|k: int|
                0 <= k < args[i].len() ==> listed_char(#[trigger] args[i][k]);
        let rest_ok = forall|i: int|
            0 <= i < rest.len() ==> #[trigger] rest[i].len() > 0 && forall|k: int|
                0 <= k < rest[i].len() ==> listed_char(#[trigger] rest[i][k]);
        if all_ok {
            assert(a.len() > 0);
            assert(forall|k: int| 0 <= k < a.len() ==> listed_char(#[trigger] a[k]));
            lemma_listed_chars_pass(a);
            assert forall|i: int| 0 <= i < rest.len() implies #[trigger] rest[i].len() > 0
                && forall|k: int| 0 <= k < rest[i].len() ==> listed_char(#[trigger] rest[i][k]) by {
                assert(rest[i] == args[i + 1]);
            }
            assert(rest_ok);
        }
        if spec_validate_args(args) is Ok {
            assert(arg_problem(a) is None);
            assert(a.len() > 0);
            lemma_no_bad_char(a);
            assert(spec_validate_args(rest) is Ok);
            assert forall|i: int| 0 <= i < args.len() implies #[trigger] args[i].len() > 0
                && forall|k: int| 0 <= k < args[i].len() ==> listed_char(#[trigger] args[i][k]) by {
                if i == 0 {
                    assert forall|k: int| 0 <= k < args[i].len() implies listed_char(
                        #[trigger] args[i][k],
                    ) by {
                        assert(arg_char_ok(a[k]));
                    }
                } else {
                    assert(args[i] == rest[i - 1]);
                }
            }
        }
    }
}

/// Host names are exactly the non-empty names of at most 253 characters made of ASCII
/// letters, digits, dots and dashes (a DNS/NetBIOS name or an IP address; no space, quote
/// or other metacharacter).
pub proof fn lemma_host_names_exact(host: Seq<char>)
    ensures
        host_ok(host) <==> (0 < host.len() <= 253 && forall|k: int|
            0 <= k < host.len() ==> {
                let c = #[trigger] host[k];
                ||| 'a' <= c <= 'z'
                ||| 'A' <= c <= 'Z'
                ||| '0' <= c <= '9'
                ||| c == '.' || c == '-'
            }),
{
}

/// User names are exactly the non-empty names of at most 256 characters made of ASCII
/// letters, digits and `. _ @ \ -` (`DOMAIN\user` or `user@domain`; no quote or space).
pub proof fn lemma_user_names_exact(user: Seq<char>)
    ensures
        user_ok(user) <==> (0 < user.len() <= 256 && forall|k: int|
            0 <= k < user.len() ==> {
                let c = #[trigger] user[k];
                ||| 'a' <= c <= 'z'
                ||| 'A' <= c <= 'Z'
                ||| '0' <= c <= '9'
                ||| c == '.' || c == '_' || c == '@' || c == '\\' || c == '-'
            }),
{
}

} // verus!
