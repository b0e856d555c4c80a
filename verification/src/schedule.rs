//! Scheduled updates through the Windows Task Scheduler (`schtasks`). Every task runs
//! `winget upgrade --all` silently; its name carries the prefix `PrettyGet_` so that the
//! app lists and deletes only its own tasks.

use vstd::prelude::*;
use crate::decode::{from_utf8_lossy, utf8_lossy};
use crate::text::{
    chars_of, lines, lines_of, push_arg, push_char, seqs_view, string_of, strings_view, trim,
    trimmed_range, to_string_of,
};

verus! {

/// The prefix of the names of the tasks that the app creates.
pub open spec fn task_prefix() -> Seq<char> {
    "PrettyGet_"@
}

/// The command that a scheduled task runs.
pub open spec fn task_command() -> Seq<char> {
    "winget upgrade --all --silent --accept-source-agreements --accept-package-agreements --include-unknown --disable-interactivity"@
}

/// A scheduled task of the app, as `schtasks /Query` reports it.
#[derive(Clone, Debug)]
pub struct ScheduledTask {
    pub name: String,
    pub frequency: String,
    pub time: String,
    pub next_run: String,
    pub status: String,
}

/// The content of a `ScheduledTask`.
pub struct ScheduledTaskView {
    pub name: Seq<char>,
    pub frequency: Seq<char>,
    pub time: Seq<char>,
    pub next_run: Seq<char>,
    pub status: Seq<char>,
}

impl View for ScheduledTask {
    type V = ScheduledTaskView;

    open spec fn view(&self) -> ScheduledTaskView {
        ScheduledTaskView {
            name: self.name@,
            frequency: self.frequency@,
            time: self.time@,
            next_run: self.next_run@,
            status: self.status@,
        }
    }
}

/// Whether `char::is_alphanumeric` holds of a character (Unicode Alphabetic or Numeric).
pub uninterp spec fn alphanumeric(c: char) -> bool;

/// `char::is_alphanumeric`. Trusted to be a function of the character alone.
#[verifier::external_body]
fn is_alphanumeric(c: char) -> (r: bool)
    ensures
        r == alphanumeric(c),
{
    c.is_alphanumeric()
}

/// A character kept in a task name: alphanumeric, `-` or `_`.
pub open spec fn name_char(c: char) -> bool {
    alphanumeric(c) || c == '-' || c == '_'
}

/// A task name with every character but alphanumerics, `-` and `_` removed.
pub open spec fn spec_clean_name(name: Seq<char>) -> Seq<char> {
    name.filter(|c: char| name_char(c))
}

/// Removes from a task name every character but alphanumerics, `-` and `_`.
pub fn clean_name(name: &str) -> (r: String)
    ensures
        r@ == spec_clean_name(name@),
{
    let cs = chars_of(name);
    let mut out = String::new();
    let mut i: usize = 0;
    while i < cs.len()
        invariant
            i <= cs.len(),
            cs@ == name@,
            out@ == spec_clean_name(cs@.take(i as int)),
        decreases cs.len() - i,
    {
        let c = cs[i];
        assert(cs@.take(i + 1) =~= cs@.take(i as int).push(c));
        proof {
            cs@.take(i as int).lemma_filter_push(c, |c: char| name_char(c));
        }
        if is_alphanumeric(c) || c == '-' || c == '_' {
            push_char(&mut out, c);
        }
        i = i + 1;
    }
    assert(cs@.take(cs.len() as int) =~= cs@);
    out
}

/// The `/SC` value of a frequency, if it is one of "daily", "weekly", "monthly".
pub open spec fn schedule_code(frequency: Seq<char>) -> Option<Seq<char>> {
    if frequency == "daily"@ {
        Some("DAILY"@)
    } else if frequency == "weekly"@ {
        Some("WEEKLY"@)
    } else if frequency == "monthly"@ {
        Some("MONTHLY"@)
    } else {
        None
    }
}

/// A call of `schtasks`: its arguments, and what to answer when it succeeds.
#[derive(Debug)]
pub struct SchtasksCall {
    pub args: Vec<String>,
    pub success_message: String,
}

/// The content of a `SchtasksCall`.
pub struct SchtasksCallView {
    pub args: Seq<Seq<char>>,
    pub success_message: Seq<char>,
}

impl View for SchtasksCall {
    type V = SchtasksCallView;

    open spec fn view(&self) -> SchtasksCallView {
        SchtasksCallView { args: strings_view(self.args@), success_message: self.success_message@ }
    }
}

/// What creating a task comes to: refused when nothing is left of the name once cleaned,
/// or when the frequency is not known; otherwise the `schtasks /Create` call that creates
/// (or replaces) the task `PrettyGet_<clean name>`.
pub open spec fn spec_create_schedule(name: Seq<char>, frequency: Seq<char>, time: Seq<char>)
    -> Result<SchtasksCallView, Seq<char>> {
    let clean = spec_clean_name(name);
    if clean.len() == 0 {
        Err("El nombre no puede estar vacío."@)
    } else {
        match schedule_code(frequency) {
            None => Err("Frecuencia no válida: "@ + frequency),
            Some(sc) => Ok(
                SchtasksCallView {
                    args: seq![
                        "/Create"@,
                        "/TN"@,
                        task_prefix() + clean,
                        "/TR"@,
                        task_command(),
                        "/SC"@,
                        sc,
                        "/ST"@,
                        time,
                        "/F"@,
                    ],
                    success_message: "Tarea «"@ + clean + "» programada ("@ + frequency
                        + " a las "@ + time + ")."@,
                },
            ),
        }
    }
}

/// The `schtasks` call that creates the scheduled update `name` (frequency "daily",
/// "weekly" or "monthly", time "HH:MM"), or why it is refused.
pub fn create_schedule(name: &str, frequency: &str, time: &str) -> (r: Result<SchtasksCall, String>)
    ensures
        match spec_create_schedule(name@, frequency@, time@) {
            Ok(c) => r matches Ok(x) && x@ == c,
            Err(e) => r matches Err(x) && x@ == e,
        },
{
    let clean = clean_name(name);
    if clean.as_str().is_empty() {
        return Err(to_string_of("El nombre no puede estar vacío."));
    }
    let sc = if crate::text::same_text(frequency, "daily") {
        "DAILY"
    } else if crate::text::same_text(frequency, "weekly") {
        "WEEKLY"
    } else if crate::text::same_text(frequency, "monthly") {
        "MONTHLY"
    } else {
        let mut msg = to_string_of("Frecuencia no válida: ");
        msg.append(frequency);
        return Err(msg);
    };
    let mut task_name = to_string_of("PrettyGet_");
    task_name.append(clean.as_str());
    let mut args: Vec<String> = Vec::new();
    push_arg(&mut args, "/Create");
    push_arg(&mut args, "/TN");
    push_arg(&mut args, task_name.as_str());
    push_arg(&mut args, "/TR");
    push_arg(
        &mut args,
        "winget upgrade --all --silent --accept-source-agreements --accept-package-agreements --include-unknown --disable-interactivity",
    );
    push_arg(&mut args, "/SC");
    push_arg(&mut args, sc);
    push_arg(&mut args, "/ST");
    push_arg(&mut args, time);
    push_arg(&mut args, "/F");
    let mut msg = to_string_of("Tarea «");
    msg.append(clean.as_str());
    msg.append("» programada (");
    msg.append(frequency);
    msg.append(" a las ");
    msg.append(time);
    msg.append(").");
    let call = SchtasksCall { args, success_message: msg };
    assert(call@.args =~= spec_create_schedule(name@, frequency@, time@)->Ok_0.args);
    Ok(call)
}

/// The `schtasks /Delete` call for the task shown as `name`.
pub open spec fn spec_delete_schedule(name: Seq<char>) -> SchtasksCallView {
    SchtasksCallView {
        args: seq!["/Delete"@, "/TN"@, task_prefix() + name, "/F"@],
        success_message: "Tarea «"@ + name + "» eliminada."@,
    }
}

/// The `schtasks` call that deletes the task shown as `name`.
pub fn delete_schedule(name: &str) -> (r: SchtasksCall)
    ensures
        r@ == spec_delete_schedule(name@),
{
    let mut task_name = to_string_of("PrettyGet_");
    task_name.append(name);
    let mut args: Vec<String> = Vec::new();
    push_arg(&mut args, "/Delete");
    push_arg(&mut args, "/TN");
    push_arg(&mut args, task_name.as_str());
    push_arg(&mut args, "/F");
    let mut msg = to_string_of("Tarea «");
    msg.append(name);
    msg.append("» eliminada.");
    let call = SchtasksCall { args, success_message: msg };
    assert(call@.args =~= spec_delete_schedule(name@).args);
    call
}

/// The `schtasks /Run` call for the task shown as `name`.
pub open spec fn spec_run_schedule_now(name: Seq<char>) -> SchtasksCallView {
    SchtasksCallView {
        args: seq!["/Run"@, "/TN"@, task_prefix() + name],
        success_message: "Ejecutando «"@ + name + "» ahora."@,
    }
}

/// The `schtasks` call that runs the task shown as `name` at once (to try it).
pub fn run_schedule_now(name: &str) -> (r: SchtasksCall)
    ensures
        r@ == spec_run_schedule_now(name@),
{
    let mut task_name = to_string_of("PrettyGet_");
    task_name.append(name);
    let mut args: Vec<String> = Vec::new();
    push_arg(&mut args, "/Run");
    push_arg(&mut args, "/TN");
    push_arg(&mut args, task_name.as_str());
    let mut msg = to_string_of("Ejecutando «");
    msg.append(name);
    msg.append("» ahora.");
    let call = SchtasksCall { args, success_message: msg };
    assert(call@.args =~= spec_run_schedule_now(name@).args);
    call
}

/// The error message of a failed command: its error output read as UTF-8, trimmed.
pub open spec fn spec_failure_message(stderr: Seq<u8>) -> Seq<char> {
    trim(utf8_lossy(stderr))
}

/// The error message of a failed command (`schtasks`, `sc.exe`, ...).
pub fn failure_message(stderr: &[u8]) -> (r: String)
    ensures
        r@ == spec_failure_message(stderr@),
{
    let s = from_utf8_lossy(stderr);
    crate::text::trim_str(s.as_str())
}

/// What a finished `schtasks` call answers: its success message, or its error output.
pub fn schtasks_outcome(call: &SchtasksCall, success: bool, stderr: &[u8]) -> (r: Result<String, String>)
    ensures
        success ==> (r matches Ok(m) && m@ == call@.success_message),
        !success ==> (r matches Err(e) && e@ == spec_failure_message(stderr@)),
{
    if success {
        Ok(to_string_of(call.success_message.as_str()))
    } else {
        Err(failure_message(stderr))
    }
}

/// The fields of a CSV line, scanning from `i` with the current field `cur` and whether the
/// scan is inside quotes: a comma outside quotes ends a field, a quote opens or closes
/// quotes, a doubled quote inside quotes stands for one quote; every field is trimmed.
pub open spec fn csv_from(s: Seq<char>, i: int, cur: Seq<char>, in_quotes: bool) -> Seq<Seq<char>>
    decreases s.len() - i,
{
    if i < 0 || i >= s.len() {
        seq![trim(cur)]
    } else if s[i] == '"' {
        if in_quotes && i + 1 < s.len() && s[i + 1] == '"' {
            csv_from(s, i + 2, cur.push('"'), in_quotes)
        } else {
            csv_from(s, i + 1, cur, !in_quotes)
        }
    } else if s[i] == ',' && !in_quotes {
        seq![trim(cur)] + csv_from(s, i + 1, seq![], in_quotes)
    } else {
        csv_from(s, i + 1, cur.push(s[i]), in_quotes)
    }
}

/// The fields of a CSV line with quoted fields.
pub open spec fn spec_parse_csv_line(line: Seq<char>) -> Seq<Seq<char>> {
    csv_from(line, 0, seq![], false)
}

/// Splits a CSV line with quoted fields into its trimmed fields.
pub fn parse_csv_line(line: &str) -> (r: Vec<String>)
    ensures
        strings_view(r@) == spec_parse_csv_line(line@),
{
    let cs = chars_of(line);
    let fields = csv_fields(&cs);
    let mut out: Vec<String> = Vec::new();
    let mut i: usize = 0;
    while i < fields.len()
        invariant
            i <= fields.len(),
            strings_view(out@) == seqs_view(fields@).take(i as int),
        decreases fields.len() - i,
    {
        let f = string_of(&fields[i]);
        let ghost before = strings_view(out@);
        out.push(f);
        assert(strings_view(out@) =~= before.push(f@));
        assert(seqs_view(fields@).take(i + 1) =~= seqs_view(fields@).take(i as int).push(
            fields@[i as int]@,
        ));
        i = i + 1;
    }
    assert(seqs_view(fields@).take(fields.len() as int) =~= seqs_view(fields@));
    out
}

/// The trimmed fields of a CSV line given as characters.
fn csv_fields(line: &Vec<char>) -> (r: Vec<Vec<char>>)
    ensures
        seqs_view(r@) == spec_parse_csv_line(line@),
{
    let mut fields: Vec<Vec<char>> = Vec::new();
    let mut cur: Vec<char> = Vec::new();
    let mut in_quotes = false;
    let mut i: usize = 0;
    while i < line.len()
        invariant
            i <= line.len(),
            seqs_view(fields@) + csv_from(line@, i as int, cur@, in_quotes)
                == spec_parse_csv_line(line@),
        decreases line.len() - i,
    {
        let c = line[i];
        if c == '"' {
            if in_quotes && i + 1 < line.len() && line[i + 1] == '"' {
                cur.push('"');
                i = i + 2;
            } else {
                in_quotes = !in_quotes;
                i = i + 1;
            }
        } else if c == ',' && !in_quotes {
            let ghost old_cur = cur@;
            let f = trimmed_range(&cur, 0, cur.len());
            assert(cur@.subrange(0, cur@.len() as int) =~= cur@);
            let ghost before = seqs_view(fields@);
            fields.push(f);
            assert(seqs_view(fields@) =~= before + seq![f@]);
            assert(csv_from(line@, i as int, old_cur, in_quotes) == seq![trim(old_cur)] + csv_from(
                line@,
                i + 1,
                seq![],
                in_quotes,
            ));
            assert(seqs_view(fields@) + csv_from(line@, i + 1, seq![], in_quotes) =~= before + (
            seq![trim(old_cur)] + csv_from(line@, i + 1, seq![], in_quotes)));
            cur = Vec::new();
            assert(cur@ =~= Seq::<char>::empty());
            i = i + 1;
        } else {
            cur.push(c);
            i = i + 1;
        }
    }
    let f = trimmed_range(&cur, 0, cur.len());
    assert(cur@.subrange(0, cur@.len() as int) =~= cur@);
    let ghost before = seqs_view(fields@);
    fields.push(f);
    assert(seqs_view(fields@) =~= before + seq![f@]);
    fields
}

/// The arguments of `schtasks` that list every task, verbose, as CSV without a header.
pub open spec fn list_schedules_argv() -> Seq<Seq<char>> {
    seq!["/Query"@, "/FO"@, "CSV"@, "/V"@, "/NH"@]
}

/// The arguments of `schtasks` that list every task.
pub fn list_schedules_args() -> (r: Vec<String>)
    ensures
        strings_view(r@) == list_schedules_argv(),
{
    let mut args: Vec<String> = Vec::new();
    push_arg(&mut args, "/Query");
    push_arg(&mut args, "/FO");
    push_arg(&mut args, "CSV");
    push_arg(&mut args, "/V");
    push_arg(&mut args, "/NH");
    assert(strings_view(args@) =~= list_schedules_argv());
    args
}

/// Whether `s` begins with `p`.
pub open spec fn starts_with(s: Seq<char>, p: Seq<char>) -> bool {
    p.len() <= s.len() && s.take(p.len() as int) == p
}

/// `s` without its leading backslashes.
pub open spec fn strip_backslashes(s: Seq<char>) -> Seq<char>
    decreases s.len(),
{
    if s.len() > 0 && s[0] == '\\' {
        strip_backslashes(s.drop_first())
    } else {
        s
    }
}

/// `s` without the copies of `p` it begins with (`str::trim_start_matches`).
pub open spec fn strip_prefixes(s: Seq<char>, p: Seq<char>) -> Seq<char>
    decreases s.len(),
{
    if p.len() > 0 && starts_with(s, p) {
        strip_prefixes(s.skip(p.len() as int), p)
    } else {
        s
    }
}

/// Field `i` of a CSV row, or an empty text.
pub open spec fn csv_field(f: Seq<Seq<char>>, i: int) -> Seq<char> {
    if 0 <= i < f.len() {
        f[i]
    } else {
        seq![]
    }
}

/// A row of `schtasks /Query /FO CSV /V` as a task of the app, when its name (field 1,
/// `\PrettyGet_...`) carries the prefix: shown without the backslash and the prefix, with
/// its next run (field 2), status (3), schedule type (8) and start time (9).
pub open spec fn task_of_fields(f: Seq<Seq<char>>) -> Option<ScheduledTaskView> {
    let name = strip_backslashes(csv_field(f, 1));
    if f.len() == 0 || !starts_with(name, task_prefix()) {
        None
    } else {
        Some(
            ScheduledTaskView {
                name: strip_prefixes(name, task_prefix()),
                frequency: csv_field(f, 8),
                time: csv_field(f, 9),
                next_run: csv_field(f, 2),
                status: csv_field(f, 3),
            },
        )
    }
}

/// The app's tasks in the output of `schtasks /Query /FO CSV /V /NH`, in order.
pub open spec fn spec_parse_schedules(text: Seq<char>) -> Seq<ScheduledTaskView> {
    lines(text).map_values(|l: Seq<char>| spec_parse_csv_line(l)).filter_map(
        |f: Seq<Seq<char>>| task_of_fields(f),
    )
}

/// The views of a list of tasks.
pub open spec fn tasks_view(v: Seq<ScheduledTask>) -> Seq<ScheduledTaskView> {
    v.map_values(|t: ScheduledTask| t@)
}

/// Whether `s[from..]` begins with `p` (exec).
fn starts_with_at(s: &Vec<char>, from: usize, p: &Vec<char>) -> (r: bool)
    requires
        from <= s.len(),
    ensures
        r == starts_with(s@.skip(from as int), p@),
{
    if p.len() > s.len() - from {
        return false;
    }
    let mut k: usize = 0;
    while k < p.len()
        invariant
            from <= s.len(),
            p.len() <= s.len() - from,
            k <= p.len(),
            forall|j: int| 0 <= j < k ==> s@[from + j] == p@[j],
        decreases p.len() - k,
    {
        if s[from + k] != p[k] {
            assert(s@.skip(from as int).take(p.len() as int)[k as int] == s@[from + k]);
            return false;
        }
        k = k + 1;
    }
    assert(s@.skip(from as int).take(p.len() as int) =~= p@);
    true
}

/// The task shown for a CSV row, if it is one of the app's.
fn task_from_fields(f: &Vec<Vec<char>>) -> (r: Option<ScheduledTask>)
    ensures
        match task_of_fields(seqs_view(f@)) {
            Some(t) => r matches Some(x) && x@ == t,
            None => r is None,
        },
{
    let ghost fv = seqs_view(f@);
    if f.len() == 0 {
        return None;
    }
    let raw: Vec<char> = if f.len() > 1 {
        crate::text::copy_range(&f[1], 0, f[1].len())
    } else {
        Vec::new()
    };
    assert(raw@ =~= csv_field(fv, 1));
    let mut a: usize = 0;
    while a < raw.len() && raw[a] == '\\'
        invariant
            a <= raw.len(),
            strip_backslashes(raw@.skip(a as int)) == strip_backslashes(raw@),
        decreases raw.len() - a,
    {
        assert(raw@.skip(a as int).drop_first() =~= raw@.skip(a + 1));
        a = a + 1;
    }
    assert(raw@.skip(0) =~= raw@);
    assert(strip_backslashes(raw@.skip(a as int)) == raw@.skip(a as int));
    let prefix = chars_of("PrettyGet_");
    proof {
        reveal_strlit("PrettyGet_");
    }
    if !starts_with_at(&raw, a, &prefix) {
        return None;
    }
    let mut b: usize = a;
    while starts_with_at(&raw, b, &prefix)
        invariant
            a <= b <= raw.len(),
            prefix@ == task_prefix(),
            prefix@.len() > 0,
            strip_prefixes(raw@.skip(b as int), task_prefix()) == strip_prefixes(
                raw@.skip(a as int),
                task_prefix(),
            ),
        decreases raw.len() - b,
    {
        assert(raw@.skip(b as int).skip(prefix@.len() as int) =~= raw@.skip(b + prefix.len()));
        b = b + prefix.len();
    }
    let name = crate::text::string_of_range(&raw, b, raw.len());
    assert(raw@.subrange(b as int, raw@.len() as int) =~= raw@.skip(b as int));
    Some(
        ScheduledTask {
            name,
            frequency: field_text(f, 8),
            time: field_text(f, 9),
            next_run: field_text(f, 2),
            status: field_text(f, 3),
        },
    )
}

/// Field `i` of a CSV row as a string.
fn field_text(f: &Vec<Vec<char>>, i: usize) -> (r: String)
    ensures
        r@ == csv_field(seqs_view(f@), i as int),
{
    if i < f.len() {
        string_of(&f[i])
    } else {
        String::new()
    }
}

/// The app's tasks (those named `PrettyGet_...`) in what `schtasks /Query /FO CSV /V /NH`
/// printed.
pub fn parse_schedules(stdout: &[u8]) -> (r: Vec<ScheduledTask>)
    ensures
        tasks_view(r@) == spec_parse_schedules(utf8_lossy(stdout@)),
{
    let text = from_utf8_lossy(stdout);
    let cs = chars_of(text.as_str());
    let ls = lines_of(&cs);
    let ghost rows = seqs_view(ls@).map_values(|l: Seq<char>| spec_parse_csv_line(l));
    let ghost pick = |f: Seq<Seq<char>>| task_of_fields(f);
    let mut out: Vec<ScheduledTask> = Vec::new();
    let mut i: usize = 0;
    while i < ls.len()
        invariant
            i <= ls.len(),
            rows == seqs_view(ls@).map_values(|l: Seq<char>| spec_parse_csv_line(l)),
            pick == (|f: Seq<Seq<char>>| task_of_fields(f)),
            tasks_view(out@) == rows.take(i as int).filter_map(pick),
        decreases ls.len() - i,
    {
        let fields = csv_fields(&ls[i]);
        assert(rows[i as int] == seqs_view(fields@));
        proof {
            rows.lemma_filter_map_take_succ(pick, i as int);
        }
        match task_from_fields(&fields) {
            Some(t) => {
                let ghost before = tasks_view(out@);
                out.push(t);
                assert(tasks_view(out@) =~= before + seq![t@]);
            },
            None => {},
        }
        i = i + 1;
    }
    assert(rows.take(ls.len() as int) =~= rows);
    out
}

/// A task created by the app shows in the list under the name it was created with: when
/// the TaskName field of a row is `\` followed by the name that `create_schedule` gave the
/// task, the row is taken as the app's and shown under the cleaned name (unless that name
/// itself begins with the prefix, which is then stripped too).
pub proof fn lemma_created_task_is_listed(
    name: Seq<char>,
    frequency: Seq<char>,
    time: Seq<char>,
    fields: Seq<Seq<char>>,
)
    requires
        spec_create_schedule(name, frequency, time) is Ok,
        !starts_with(spec_clean_name(name), task_prefix()),
        fields.len() > 1,
        fields[1] == seq!['\\'] + spec_create_schedule(name, frequency, time)->Ok_0.args[2],
    ensures
        task_of_fields(fields) matches Some(t) && t.name == spec_clean_name(name),
{
    let clean = spec_clean_name(name);
    let task = task_prefix() + clean;
    reveal_strlit("PrettyGet_");
    assert((seq!['\\'] + task).drop_first() =~= task);
    assert((seq!['\\'] + task)[0] == '\\');
    assert(task[0] == 'P');
    assert(strip_backslashes(task) == task);
    assert(strip_backslashes(seq!['\\'] + task) == task);
    assert(task.take(task_prefix().len() as int) =~= task_prefix());
    assert(task.skip(task_prefix().len() as int) =~= clean);
    assert(spec_create_schedule(name, frequency, time)->Ok_0.args[2] == task);
    assert(csv_field(fields, 1) == seq!['\\'] + task);
    assert(starts_with(task, task_prefix()));
    assert(strip_prefixes(clean, task_prefix()) == clean);
    assert(strip_prefixes(task, task_prefix()) == clean);
}

/// Each CSV scan yields at least one field.
proof fn lemma_csv_from_nonempty(s: Seq<char>, i: int, cur: Seq<char>, in_quotes: bool)
    ensures
        csv_from(s, i, cur, in_quotes).len() >= 1,
    decreases s.len() - i,
{
    if 0 <= i < s.len() {
        if s[i] == '"' {
            if in_quotes && i + 1 < s.len() && s[i + 1] == '"' {
                lemma_csv_from_nonempty(s, i + 2, cur.push('"'), in_quotes);
            } else {
                lemma_csv_from_nonempty(s, i + 1, cur, !in_quotes);
            }
        } else if s[i] == ',' && !in_quotes {
            lemma_csv_from_nonempty(s, i + 1, seq![], in_quotes);
        } else {
            lemma_csv_from_nonempty(s, i + 1, cur.push(s[i]), in_quotes);
        }
    }
}

/// A CSV line always has at least one field (an empty line has one empty field).
pub proof fn lemma_csv_line_has_a_field(line: Seq<char>)
    ensures
        spec_parse_csv_line(line).len() >= 1,
{
    lemma_csv_from_nonempty(line, 0, seq![], false);
}

/// `f` with every double quote doubled, as inside a quoted CSV field.
pub open spec fn csv_escaped(f: Seq<char>) -> Seq<char>
    decreases f.len(),
{
    if f.len() == 0 {
        seq![]
    } else {
        (if f[0] == '"' {
            seq!['"', '"']
        } else {
            seq![f[0]]
        }) + csv_escaped(f.drop_first())
    }
}

/// `f` as a quoted CSV field.
pub open spec fn csv_quoted(f: Seq<char>) -> Seq<char> {
    seq!['"'] + csv_escaped(f) + seq!['"']
}

/// The fields `fs`, each quoted, joined by commas.
pub open spec fn csv_join(fs: Seq<Seq<char>>) -> Seq<char>
    decreases fs.len(),
{
    if fs.len() <= 1 {
        if fs.len() == 1 {
            csv_quoted(fs[0])
        } else {
            seq![]
        }
    } else {
        csv_quoted(fs[0]) + seq![','] + csv_join(fs.drop_first())
    }
}

/// Inside quotes, the escaped text of `g` followed by the closing quote (at the end of the
/// line, or before a comma) is read back as `g`.
proof fn lemma_csv_read_escaped(s: Seq<char>, i: int, g: Seq<char>, cur: Seq<char>)
    requires
        0 <= i,
        i + csv_escaped(g).len() < s.len(),
        s.subrange(i, i + csv_escaped(g).len()) == csv_escaped(g),
        s[i + csv_escaped(g).len()] == '"',
        i + csv_escaped(g).len() + 1 == s.len() || s[i + csv_escaped(g).len() + 1] == ',',
    ensures
        csv_from(s, i, cur, true) == csv_from(s, i + csv_escaped(g).len() + 1, cur + g, false),
    decreases g.len(),
{
    let e = csv_escaped(g);
    if g.len() == 0 {
        assert(e.len() == 0);
        assert(cur + g =~= cur);
    } else {
        let rest = g.drop_first();
        let er = csv_escaped(rest);
        let head: Seq<char> = if g[0] == '"' {
            seq!['"', '"']
        } else {
            seq![g[0]]
        };
        assert(e == head + er);
        let n = head.len() as int;
        assert(s[i] == e[0]);
        assert(s.subrange(i + n, i + n + er.len()) =~= er) by {
            assert forall|k: int| 0 <= k < er.len() implies s.subrange(i + n, i + n + er.len())[k]
                == er[k] by {
                assert(s[i + n + k] == s.subrange(i, i + e.len())[n + k]);
                assert(e[n + k] == er[k]);
            }
        }
        if g[0] == '"' {
            assert(s[i + 1] == e[1]);
            lemma_csv_read_escaped(s, i + 2, rest, cur.push('"'));
            assert(cur.push('"') + rest =~= cur + g);
        } else {
            lemma_csv_read_escaped(s, i + 1, rest, cur.push(g[0]));
            assert(cur.push(g[0]) + rest =~= cur + g);
        }
    }
}

/// Quoted fields joined by commas, read from position `i` of a line, give the fields back,
/// when no field has whitespace at its ends.
proof fn lemma_csv_read_join(s: Seq<char>, i: int, fs: Seq<Seq<char>>)
    requires
        0 <= i <= s.len(),
        fs.len() >= 1,
        forall|k: int| 0 <= k < fs.len() ==> trim(#[trigger] fs[k]) == fs[k],
        s.subrange(i, s.len() as int) == csv_join(fs),
    ensures
        csv_from(s, i, seq![], false) == fs,
    decreases fs.len(),
{
    let f = fs[0];
    let e = csv_escaped(f);
    let el = e.len() as int;
    let q = csv_quoted(f);
    let ql = q.len() as int;
    let t = s.subrange(i, s.len() as int);
    let j = i + e.len() + 2;
    if fs.len() == 1 {
        assert(t == q);
    } else {
        assert(t == q + seq![','] + csv_join(fs.drop_first()));
    }
    assert(t.subrange(0, q.len() as int) =~= q);
    assert(s[i] == t[0]);
    assert(s[i] == '"');
    assert(s.subrange(i + 1, i + 1 + e.len()) =~= e) by {
        assert forall|k: int| 0 <= k < e.len() implies s.subrange(i + 1, i + 1 + e.len())[k] == e[k] by {
            assert(s[i + 1 + k] == t[1 + k]);
            assert(t[1 + k] == q[1 + k]);
        }
    }
    assert(s[i + 1 + el] == t[1 + el]);
    assert(t[1 + el] == q[1 + el]);
    if fs.len() == 1 {
        assert(j == s.len());
    } else {
        assert(s[j] == t[el + 2]);
    }
    lemma_csv_read_escaped(s, i + 1, f, seq![]);
    assert(Seq::<char>::empty() + f =~= f);
    assert(trim(fs[0]) == fs[0]);
    if fs.len() == 1 {
        assert(csv_from(s, j, f, false) == seq![trim(f)]);
        assert(fs =~= seq![f]);
    } else {
        let rest = fs.drop_first();
        assert(s.subrange(j + 1, s.len() as int) =~= csv_join(rest)) by {
            assert(t.subrange(ql + 1, t.len() as int) =~= csv_join(rest));
        }
        assert forall|k: int| 0 <= k < rest.len() implies trim(#[trigger] rest[k]) == rest[k] by {
            assert(rest[k] == fs[k + 1]);
        }
        lemma_csv_read_join(s, j + 1, rest);
        assert(csv_from(s, j, f, false) == seq![trim(f)] + csv_from(s, j + 1, seq![], false));
        assert(fs =~= seq![f] + rest);
    }
}

/// Writing fields as quoted CSV (double quotes doubled, fields joined by commas) and
/// reading the line back gives the fields again, when none has whitespace at its ends
/// (the reader trims every field).
pub proof fn lemma_csv_round_trip(fs: Seq<Seq<char>>)
    requires
        fs.len() >= 1,
        forall|k: int| 0 <= k < fs.len() ==> trim(#[trigger] fs[k]) == fs[k],
    ensures
        spec_parse_csv_line(csv_join(fs)) == fs,
{
    let s = csv_join(fs);
    assert(s.subrange(0, s.len() as int) =~= s);
    lemma_csv_read_join(s, 0, fs);
}

/// The `/SC` argument of a created task names the chosen frequency: "daily" runs DAILY,
/// "weekly" WEEKLY, "monthly" MONTHLY; any other frequency is refused; and the task runs
/// `winget upgrade --all` under the prefixed name at the given time, replacing any old one.
pub proof fn lemma_created_task_frequency(name: Seq<char>, frequency: Seq<char>, time: Seq<char>)
    requires
        spec_clean_name(name).len() > 0,
    ensures
        frequency == "daily"@ ==> spec_create_schedule(name, frequency, time) is Ok
            && spec_create_schedule(name, frequency, time)->Ok_0.args[6] == "DAILY"@,
        frequency == "weekly"@ ==> spec_create_schedule(name, frequency, time) is Ok
            && spec_create_schedule(name, frequency, time)->Ok_0.args[6] == "WEEKLY"@,
        frequency == "monthly"@ ==> spec_create_schedule(name, frequency, time) is Ok
            && spec_create_schedule(name, frequency, time)->Ok_0.args[6] == "MONTHLY"@,
        (frequency != "daily"@ && frequency != "weekly"@ && frequency != "monthly"@)
            ==> spec_create_schedule(name, frequency, time) is Err,
        spec_create_schedule(name, frequency, time) matches Ok(c) ==> {
            &&& c.args.len() == 10
            &&& c.args[0] == "/Create"@
            &&& c.args[1] == "/TN"@ && c.args[2] == "PrettyGet_"@ + spec_clean_name(name)
            &&& c.args[3] == "/TR"@ && c.args[4] == "winget upgrade --all --silent --accept-source-agreements --accept-package-agreements --include-unknown --disable-interactivity"@
            &&& c.args[5] == "/SC"@
            &&& c.args[7] == "/ST"@ && c.args[8] == time
            &&& c.args[9] == "/F"@
        },
{
    reveal_strlit("daily");
    reveal_strlit("weekly");
    reveal_strlit("monthly");
    assert("daily"@ != "weekly"@ && "daily"@ != "monthly"@ && "weekly"@ != "monthly"@) by {
        assert("daily"@.len() != "weekly"@.len());
        assert("daily"@.len() != "monthly"@.len());
        assert("weekly"@[0] != "monthly"@[0]);
    }
}

/// A task whose name has nothing left once cleaned is refused, whatever the frequency.
pub proof fn lemma_empty_name_refused(name: Seq<char>, frequency: Seq<char>, time: Seq<char>)
    requires
        spec_clean_name(name).len() == 0,
    ensures
        spec_create_schedule(name, frequency, time) is Err,
{
}

} // verus!
