//! Infrastructure as code: turns a selection made in the app into a reproducible script,
//! a PowerShell script or an Ansible playbook.

use vstd::prelude::*;
use crate::text::{
    chars_of, contains_seq, lemma_contains_in_flatten, lemma_occurs_middle, occurs_at, push_char,
    strings_view, to_string_of,
};

verus! {

/// What to do with the selected packages.
#[derive(Clone, Copy, Debug, PartialEq, Eq, Structural)]
pub enum Action {
    Install,
    Upgrade,
    Uninstall,
}

/// The winget verb of an action.
pub open spec fn verb_of(a: Action) -> Seq<char> {
    match a {
        Action::Install => "install"@,
        Action::Upgrade => "upgrade"@,
        Action::Uninstall => "uninstall"@,
    }
}

impl Action {
    /// The winget verb of the action.
    pub fn winget_verb(&self) -> (r: &'static str)
        ensures
            r@ == verb_of(*self),
    {
        match self {
            Action::Install => "install",
            Action::Upgrade => "upgrade",
            Action::Uninstall => "uninstall",
        }
    }
}

/// The packages selected in the app and what to do with them.
#[derive(Clone, Debug)]
pub struct Selection {
    pub action: Action,
    /// winget Ids, e.g. "Google.Chrome".
    pub packages: Vec<String>,
    /// Whether to install silently.
    pub silent: bool,
}

/// The content of a `Selection`.
pub struct SelectionView {
    pub action: Action,
    pub packages: Seq<Seq<char>>,
    pub silent: bool,
}

impl View for Selection {
    type V = SelectionView;

    open spec fn view(&self) -> SelectionView {
        SelectionView {
            action: self.action,
            packages: strings_view(self.packages@),
            silent: self.silent,
        }
    }
}

/// Turns a selection into scripts.
pub trait IacGenerator {
    /// A PowerShell script that runs winget for each selected package.
    fn powershell(&self, sel: &Selection) -> String;

    /// An Ansible playbook that runs winget for each selected package.
    fn ansible(&self, sel: &Selection) -> String;
}

/// The generator of the app.
#[derive(Debug)]
pub struct DefaultIac;

/// A character that may stand in a winget Id in a generated script: an ASCII letter or
/// digit, `.`, `-`, `_` or `+`.
pub open spec fn id_char(c: char) -> bool {
    ('a' <= c && c <= 'z') || ('A' <= c && c <= 'Z') || ('0' <= c && c <= '9') || c == '.' || c
        == '-' || c == '_' || c == '+'
}

/// An Id with every character that may not stand in a script removed.
pub open spec fn spec_sanitize_id(id: Seq<char>) -> Seq<char> {
    id.filter(|c: char| id_char(c))
}

/// Removes from a winget Id every character but ASCII letters and digits, `.`, `-`, `_` and
/// `+`.
pub fn sanitize_id(id: &str) -> (r: String)
    ensures
        r@ == spec_sanitize_id(id@),
{
    let cs = chars_of(id);
    let mut out = String::new();
    let mut i: usize = 0;
    while i < cs.len()
        invariant
            i <= cs.len(),
            cs@ == id@,
            out@ == spec_sanitize_id(cs@.take(i as int)),
        decreases cs.len() - i,
    {
        let c = cs[i];
        assert(cs@.take(i + 1) =~= cs@.take(i as int).push(c));
        proof {
            cs@.take(i as int).lemma_filter_push(c, |c: char| id_char(c));
        }
        if ('a' <= c && c <= 'z') || ('A' <= c && c <= 'Z') || ('0' <= c && c <= '9') || c == '.'
            || c == '-' || c == '_' || c == '+' {
            push_char(&mut out, c);
        }
        i = i + 1;
    }
    assert(cs@.take(cs.len() as int) =~= cs@);
    out
}

/// Flags of the PowerShell commands.
pub open spec fn ps_flags(silent: bool) -> Seq<char> {
    if silent {
        " --silent --accept-package-agreements --accept-source-agreements"@
    } else {
        " --accept-source-agreements"@
    }
}

/// The opening lines of the PowerShell script.
pub open spec fn ps_header() -> Seq<char> {
    "# Generado por PrettyGet Pro — IaC\n"@ + "#Requires -RunAsAdministrator\n"@
        + "$ErrorActionPreference = 'Continue'\n\n"@
}

/// The PowerShell lines for one package (its Id already sanitized).
pub open spec fn ps_block(verb: Seq<char>, id: Seq<char>, flags: Seq<char>) -> Seq<char> {
    "Write-Host 'PrettyGet: "@ + verb + " "@ + id + "'\nwinget "@ + verb + " --id "@ + id
        + " --exact"@ + flags + "\n\n"@
}

/// The PowerShell script for a selection: the opening lines, then for each package, in
/// order, a `Write-Host` line and a `winget <verb> --id <id> --exact <flags>` line.
pub open spec fn spec_powershell(sel: SelectionView) -> Seq<char> {
    ps_header() + sel.packages.map_values(
        |id: Seq<char>| ps_block(verb_of(sel.action), spec_sanitize_id(id), ps_flags(sel.silent)),
    ).flatten()
}

/// Flags of the Ansible commands.
pub open spec fn ansible_flags(silent: bool) -> Seq<char> {
    if silent {
        "--silent --accept-package-agreements --accept-source-agreements"@
    } else {
        "--accept-source-agreements"@
    }
}

/// The opening lines of the Ansible playbook.
pub open spec fn ansible_header() -> Seq<char> {
    "# Generado por PrettyGet Pro — IaC\n"@ + "- name: PrettyGet winget deployment\n"@
        + "  hosts: windows\n"@ + "  gather_facts: false\n"@ + "  tasks:\n"@
}

/// The Ansible task for one package (its Id already sanitized).
pub open spec fn ansible_task(verb: Seq<char>, id: Seq<char>, flags: Seq<char>) -> Seq<char> {
    "    - name: winget "@ + verb + " "@ + id + "\n"@ + "      ansible.windows.win_command: >\n"@
        + "        winget "@ + verb + " --id "@ + id + " --exact "@ + flags + "\n"@
        + "      register: pg_result\n"@
        + "      changed_when: \"'No applicable upgrade' not in pg_result.stdout\"\n"@
        + "      failed_when: false\n"@
}

/// The Ansible playbook for a selection: the opening lines, then one task per package, in
/// order, each running `winget <verb> --id <id> --exact <flags>`.
pub open spec fn spec_ansible(sel: SelectionView) -> Seq<char> {
    ansible_header() + sel.packages.map_values(
        |id: Seq<char>|
            ansible_task(verb_of(sel.action), spec_sanitize_id(id), ansible_flags(sel.silent)),
    ).flatten()
}

/// The PowerShell lines for one package.
fn ps_block_string(verb: &str, id: &str, flags: &str) -> (r: String)
    ensures
        r@ == ps_block(verb@, id@, flags@),
{
    let mut out = to_string_of("Write-Host 'PrettyGet: ");
    out.append(verb);
    out.append(" ");
    out.append(id);
    out.append("'\nwinget ");
    out.append(verb);
    out.append(" --id ");
    out.append(id);
    out.append(" --exact");
    out.append(flags);
    out.append("\n\n");
    out
}

/// The Ansible task for one package.
fn ansible_task_string(verb: &str, id: &str, flags: &str) -> (r: String)
    ensures
        r@ == ansible_task(verb@, id@, flags@),
{
    let mut out = to_string_of("    - name: winget ");
    out.append(verb);
    out.append(" ");
    out.append(id);
    out.append("\n");
    out.append("      ansible.windows.win_command: >\n");
    out.append("        winget ");
    out.append(verb);
    out.append(" --id ");
    out.append(id);
    out.append(" --exact ");
    out.append(flags);
    out.append("\n");
    out.append("      register: pg_result\n");
    out.append("      changed_when: \"'No applicable upgrade' not in pg_result.stdout\"\n");
    out.append("      failed_when: false\n");
    out
}

impl IacGenerator for DefaultIac {
    fn powershell(&self, sel: &Selection) -> (r: String)
        ensures
            r@ == spec_powershell(sel@),
    {
        let verb = sel.action.winget_verb();
        let flags = if sel.silent {
            " --silent --accept-package-agreements --accept-source-agreements"
        } else {
            " --accept-source-agreements"
        };
        let ghost f = |id: Seq<char>|
            ps_block(verb_of(sel.action), spec_sanitize_id(id), ps_flags(sel.silent));
        let ghost ids = sel@.packages;
        let mut out = to_string_of("# Generado por PrettyGet Pro — IaC\n");
        out.append("#Requires -RunAsAdministrator\n");
        out.append("$ErrorActionPreference = 'Continue'\n\n");
        assert(ps_header() + ids.take(0).map_values(f).flatten() =~= ps_header());
        let mut i: usize = 0;
        while i < sel.packages.len()
            invariant
                i <= sel.packages.len(),
                ids == strings_view(sel.packages@),
                verb@ == verb_of(sel.action),
                flags@ == ps_flags(sel.silent),
                f == (|id: Seq<char>|
                    ps_block(verb_of(sel.action), spec_sanitize_id(id), ps_flags(sel.silent))),
                out@ == ps_header() + ids.take(i as int).map_values(f).flatten(),
            decreases sel.packages.len() - i,
        {
            let id = sanitize_id(sel.packages[i].as_str());
            let block = ps_block_string(verb, id.as_str(), flags);
            let ghost before = out@;
            out.append(block.as_str());
            assert(ids.take(i + 1).map_values(f) =~= ids.take(i as int).map_values(f).push(
                f(ids[i as int]),
            ));
            proof {
                ids.take(i as int).map_values(f).lemma_flatten_push(f(ids[i as int]));
            }
            assert(out@ =~= before + f(ids[i as int]));
            i = i + 1;
        }
        assert(ids.take(sel.packages.len() as int) =~= ids);
        out
    }

    fn ansible(&self, sel: &Selection) -> (r: String)
        ensures
            r@ == spec_ansible(sel@),
    {
        let verb = sel.action.winget_verb();
        let flags = if sel.silent {
            "--silent --accept-package-agreements --accept-source-agreements"
        } else {
            "--accept-source-agreements"
        };
        let ghost f = |id: Seq<char>|
            ansible_task(verb_of(sel.action), spec_sanitize_id(id), ansible_flags(sel.silent));
        let ghost ids = sel@.packages;
        let mut out = to_string_of("# Generado por PrettyGet Pro — IaC\n");
        out.append("- name: PrettyGet winget deployment\n");
        out.append("  hosts: windows\n");
        out.append("  gather_facts: false\n");
        out.append("  tasks:\n");
        assert(ansible_header() + ids.take(0).map_values(f).flatten() =~= ansible_header());
        let mut i: usize = 0;
        while i < sel.packages.len()
            invariant
                i <= sel.packages.len(),
                ids == strings_view(sel.packages@),
                verb@ == verb_of(sel.action),
                flags@ == ansible_flags(sel.silent),
                f == (|id: Seq<char>|
                    ansible_task(verb_of(sel.action), spec_sanitize_id(id), ansible_flags(sel.silent))),
                out@ == ansible_header() + ids.take(i as int).map_values(f).flatten(),
            decreases sel.packages.len() - i,
        {
            let id = sanitize_id(sel.packages[i].as_str());
            let block = ansible_task_string(verb, id.as_str(), flags);
            let ghost before = out@;
            out.append(block.as_str());
            assert(ids.take(i + 1).map_values(f) =~= ids.take(i as int).map_values(f).push(
                f(ids[i as int]),
            ));
            proof {
                ids.take(i as int).map_values(f).lemma_flatten_push(f(ids[i as int]));
            }
            assert(out@ =~= before + f(ids[i as int]));
            i = i + 1;
        }
        assert(ids.take(sel.packages.len() as int) =~= ids);
        out
    }
}

/// Ids reach the generated scripts only as ASCII letters, digits, `.`, `-`, `_` and `+`: no
/// quote, space, brace or line break of a selection can end up in a script command.
pub proof fn lemma_sanitized_id_chars(id: Seq<char>)
    ensures
        forall|k: int|
            0 <= k < spec_sanitize_id(id).len() ==> id_char(#[trigger] spec_sanitize_id(id)[k]),
{
    assert forall|k: int| 0 <= k < spec_sanitize_id(id).len() implies id_char(
        #[trigger] spec_sanitize_id(id)[k],
    ) by {
        id.lemma_filter_pred(|c: char| id_char(c), k);
    }
}

/// Sanitizing keeps a valid Id as it is.
pub proof fn lemma_sanitize_keeps_clean_id(id: Seq<char>)
    requires
        forall|k: int| 0 <= k < id.len() ==> id_char(#[trigger] id[k]),
    ensures
        spec_sanitize_id(id) == id,
    decreases id.len(),
{
    reveal(Seq::filter);
    if id.len() > 0 {
        lemma_sanitize_keeps_clean_id(id.drop_last());
        assert(id.drop_last().push(id.last()) =~= id);
    } else {
        assert(id =~= Seq::<char>::empty());
    }
}

/// The winget verb of an action, written out.
pub open spec fn action_word(a: Action) -> Seq<char> {
    match a {
        Action::Install => "install"@,
        Action::Upgrade => "upgrade"@,
        Action::Uninstall => "uninstall"@,
    }
}

/// The command line of the Ansible task for the package `id` of `sel`: winget runs the
/// action on the sanitized Id, exactly, silently (accepting the package agreements too)
/// when the selection is silent, and otherwise accepting only the source agreements.
pub open spec fn ansible_command(sel: SelectionView, id: Seq<char>) -> Seq<char> {
    "        winget "@ + action_word(sel.action) + " --id "@ + spec_sanitize_id(id) + " --exact "@
        + (if sel.silent {
        "--silent --accept-package-agreements --accept-source-agreements"@
    } else {
        "--accept-source-agreements"@
    }) + "\n"@
}

/// The command line of the PowerShell script for the package `id` of `sel`, with the same
/// flags as the playbook's.
pub open spec fn powershell_command(sel: SelectionView, id: Seq<char>) -> Seq<char> {
    "winget "@ + action_word(sel.action) + " --id "@ + spec_sanitize_id(id) + " --exact"@ + (
    if sel.silent {
        " --silent --accept-package-agreements --accept-source-agreements"@
    } else {
        " --accept-source-agreements"@
    }) + "\n\n"@
}

/// The Ansible task for a package holds its command line.
proof fn lemma_task_holds_command(verb: Seq<char>, id: Seq<char>, flags: Seq<char>)
    ensures
        contains_seq(
            ansible_task(verb, id, flags),
            "        winget "@ + verb + " --id "@ + id + " --exact "@ + flags + "\n"@,
        ),
{
    let cmd = "        winget "@ + verb + " --id "@ + id + " --exact "@ + flags + "\n"@;
    let a = "    - name: winget "@ + verb + " "@ + id + "\n"@ + "      ansible.windows.win_command: >\n"@;
    let b = "      register: pg_result\n"@
        + "      changed_when: \"'No applicable upgrade' not in pg_result.stdout\"\n"@
        + "      failed_when: false\n"@;
    assert(ansible_task(verb, id, flags) =~= a + cmd + b);
    lemma_occurs_middle(a, cmd, b);
}

/// The PowerShell lines for a package hold its winget command line.
proof fn lemma_block_holds_command(verb: Seq<char>, id: Seq<char>, flags: Seq<char>)
    ensures
        contains_seq(ps_block(verb, id, flags), "winget "@ + verb + " --id "@ + id + " --exact"@ + flags + "\n\n"@),
{
    let cmd = "winget "@ + verb + " --id "@ + id + " --exact"@ + flags + "\n\n"@;
    let a = "Write-Host 'PrettyGet: "@ + verb + " "@ + id + "'\n"@;
    reveal_strlit("'\nwinget ");
    reveal_strlit("'\n");
    reveal_strlit("winget ");
    assert("'\nwinget "@ =~= "'\n"@ + "winget "@);
    assert(ps_block(verb, id, flags) =~= a + cmd + Seq::<char>::empty());
    lemma_occurs_middle(a, cmd, Seq::<char>::empty());
}

/// The playbook holds, for every selected package, a task running winget on it with the
/// action of the selection and `--silent` exactly when the selection is silent.
pub proof fn lemma_ansible_commands(sel: SelectionView)
    ensures
        forall|k: int|
            0 <= k < sel.packages.len() ==> contains_seq(
                spec_ansible(sel),
                #[trigger] ansible_command(sel, sel.packages[k]),
            ),
{
    let f = |id: Seq<char>|
        ansible_task(verb_of(sel.action), spec_sanitize_id(id), ansible_flags(sel.silent));
    let tasks = sel.packages.map_values(f);
    assert forall|k: int| 0 <= k < sel.packages.len() implies contains_seq(
        spec_ansible(sel),
        #[trigger] ansible_command(sel, sel.packages[k]),
    ) by {
        let id = sel.packages[k];
        assert(verb_of(sel.action) == action_word(sel.action));
        lemma_task_holds_command(verb_of(sel.action), spec_sanitize_id(id), ansible_flags(sel.silent));
        assert(tasks[k] == f(id));
        lemma_contains_in_flatten(ansible_header(), tasks, k, ansible_command(sel, id));
    }
}

/// The script holds, for every selected package, a line running winget on it with the
/// action of the selection and `--silent` exactly when the selection is silent.
pub proof fn lemma_powershell_commands(sel: SelectionView)
    ensures
        forall|k: int|
            0 <= k < sel.packages.len() ==> contains_seq(
                spec_powershell(sel),
                #[trigger] powershell_command(sel, sel.packages[k]),
            ),
{
    let f = |id: Seq<char>| ps_block(verb_of(sel.action), spec_sanitize_id(id), ps_flags(sel.silent));
    let blocks = sel.packages.map_values(f);
    assert forall|k: int| 0 <= k < sel.packages.len() implies contains_seq(
        spec_powershell(sel),
        #[trigger] powershell_command(sel, sel.packages[k]),
    ) by {
        let id = sel.packages[k];
        assert(verb_of(sel.action) == action_word(sel.action));
        lemma_block_holds_command(verb_of(sel.action), spec_sanitize_id(id), ps_flags(sel.silent));
        assert(blocks[k] == f(id));
        lemma_contains_in_flatten(ps_header(), blocks, k, powershell_command(sel, id));
    }
}

/// Only the silent flags hold `--silent`: the flags of a command that is not silent have
/// no `--silent` and no `--accept-package-agreements` in them.
pub proof fn lemma_quiet_flags_are_not_silent()
    ensures
        forall|i: int| !occurs_at("--accept-source-agreements"@, "--silent"@, i),
        forall|i: int| !occurs_at(" --accept-source-agreements"@, "--silent"@, i),
        occurs_at("--silent --accept-package-agreements --accept-source-agreements"@, "--silent"@, 0),
        occurs_at(" --silent --accept-package-agreements --accept-source-agreements"@, "--silent"@, 1),
{
    let q = "--accept-source-agreements"@;
    let q2 = " --accept-source-agreements"@;
    let p = "--silent"@;
    reveal_strlit("--accept-source-agreements");
    reveal_strlit(" --accept-source-agreements");
    reveal_strlit("--silent");
    reveal_strlit("--silent --accept-package-agreements --accept-source-agreements");
    reveal_strlit(" --silent --accept-package-agreements --accept-source-agreements");
    assert forall|i: int| !occurs_at(q, p, i) by {
        if occurs_at(q, p, i) {
            assert(q.subrange(i, i + 8)[2] == p[2]);
            assert(q[i + 2] == 's');
            assert(q.subrange(i, i + 8)[0] == p[0]);
            assert(q.subrange(i, i + 8)[1] == p[1]);
            assert(q[i] == '-' && q[i + 1] == '-');
        }
    }
    assert forall|i: int| !occurs_at(q2, p, i) by {
        if occurs_at(q2, p, i) {
            assert(q2.subrange(i, i + 8)[2] == p[2]);
            assert(q2.subrange(i, i + 8)[0] == p[0]);
            assert(q2.subrange(i, i + 8)[1] == p[1]);
            assert(q2[i] == '-' && q2[i + 1] == '-' && q2[i + 2] == 's');
        }
    }
    assert("--silent --accept-package-agreements --accept-source-agreements"@.subrange(0, 8) =~= p);
    assert(" --silent --accept-package-agreements --accept-source-agreements"@.subrange(1, 9) =~= p);
}

/// Sanitizing keeps exactly the ASCII letters and digits and `. - _ +` of an Id, in order:
/// every character of the result is one of them, and an Id made only of them is kept whole
/// (so `Notepad++.Notepad++` and `7zip.7zip` stay as they are).
pub proof fn lemma_sanitize_exact(id: Seq<char>)
    ensures
        forall|k: int|
            0 <= k < spec_sanitize_id(id).len() ==> {
                let c = #[trigger] spec_sanitize_id(id)[k];
                ||| 'a' <= c <= 'z'
                ||| 'A' <= c <= 'Z'
                ||| '0' <= c <= '9'
                ||| c == '.' || c == '-' || c == '_' || c == '+'
            },
        (forall|k: int|
            0 <= k < id.len() ==> {
                let c = #[trigger] id[k];
                ||| 'a' <= c <= 'z'
                ||| 'A' <= c <= 'Z'
                ||| '0' <= c <= '9'
                ||| c == '.' || c == '-' || c == '_' || c == '+'
            }) ==> spec_sanitize_id(id) == id,
{
    lemma_sanitized_id_chars(id);
    if forall|k: int|
        0 <= k < id.len() ==> {
            let c = #[trigger] id[k];
            ||| 'a' <= c <= 'z'
            ||| 'A' <= c <= 'Z'
            ||| '0' <= c <= '9'
            ||| c == '.' || c == '-' || c == '_' || c == '+'
        } {
        assert forall|k: int| 0 <= k < id.len() implies id_char(#[trigger] id[k]) by {
            let c = id[k];
        }
        lemma_sanitize_keeps_clean_id(id);
    }
}

} // verus!
