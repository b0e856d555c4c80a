//! The silent update daemon: a Windows service, running as LocalSystem, that runs
//! `winget upgrade` on a schedule. This module holds its configuration, the `sc.exe` calls
//! that install and drive it, and the service's own decisions: whether an update is due,
//! and what to run.

use vstd::prelude::*;
use crate::schedule::{failure_message, spec_failure_message};
use crate::text::{
    has_ws, is_whitespace, is_ws, push_arg, same_text, strings_view, to_string_of,
};

verus! {

/// What the daemon does and when.
#[derive(Clone, Debug)]
pub struct DaemonConfig {
    /// "daily" | "weekly" | "monthly"
    pub frequency: String,
    /// "HH:MM", 24 h
    pub time: String,
    /// Update only these Ids (empty: all).
    pub only: Vec<String>,
    pub enabled: bool,
}

/// The content of a `DaemonConfig`.
pub struct DaemonConfigView {
    pub frequency: Seq<char>,
    pub time: Seq<char>,
    pub only: Seq<Seq<char>>,
    pub enabled: bool,
}

impl View for DaemonConfig {
    type V = DaemonConfigView;

    open spec fn view(&self) -> DaemonConfigView {
        DaemonConfigView {
            frequency: self.frequency@,
            time: self.time@,
            only: strings_view(self.only@),
            enabled: self.enabled,
        }
    }
}

impl Default for DaemonConfig {
    /// Daily at 03:00, every package, enabled.
    fn default() -> (r: DaemonConfig)
        ensures
            r@ == (DaemonConfigView {
                frequency: "daily"@,
                time: "03:00"@,
                only: seq![],
                enabled: true,
            }),
    {
        let c = DaemonConfig {
            frequency: to_string_of("daily"),
            time: to_string_of("03:00"),
            only: Vec::new(),
            enabled: true,
        };
        assert(c@.only =~= seq![]);
        c
    }
}

/// The frequency a configuration file without one gets.
pub fn default_freq() -> (r: String)
    ensures
        r@ == "daily"@,
{
    to_string_of("daily")
}

/// The time a configuration file without one gets.
pub fn default_time() -> (r: String)
    ensures
        r@ == "03:00"@,
{
    to_string_of("03:00")
}

/// The name of the Windows service.
pub open spec fn service_name() -> Seq<char> {
    "PrettyGetDaemon"@
}

/// What drives the daemon: writes and reads its configuration, installs, removes, starts
/// and stops the service. Implemented by the app over `sc.exe` (see `ScDaemonControl`), and
/// by a mock in tests.
pub trait DaemonControl {
    /// Writes the configuration that the service reads.
    fn write_config(&self, cfg: &DaemonConfig) -> Result<(), String>;

    /// Reads the configuration (the default one when there is none yet).
    fn read_config(&self) -> Result<DaemonConfig, String>;

    /// Creates the service, running `daemon_exe`.
    fn install(&self, daemon_exe: &str) -> Result<(), String>;

    /// Stops and removes the service.
    fn uninstall(&self) -> Result<(), String>;

    /// Starts the service.
    fn start(&self) -> Result<(), String>;

    /// Stops the service.
    fn stop(&self) -> Result<(), String>;
}

/// The `sc.exe` command lines that install, remove, start and stop the service, and what
/// to make of their answers.
#[derive(Debug)]
pub struct ScDaemonControl;

impl ScDaemonControl {
    /// The arguments of `sc.exe` that create the service, started automatically, running
    /// `daemon_exe`.
    pub fn install_args(&self, daemon_exe: &str) -> (r: Vec<String>)
        ensures
            strings_view(r@) == seq![
                "create"@,
                service_name(),
                "binPath= "@ + daemon_exe@,
                "start="@,
                "auto"@,
                "DisplayName="@,
                "PrettyGet Update Daemon"@,
            ],
    {
        let mut bin = to_string_of("binPath= ");
        bin.append(daemon_exe);
        let mut args: Vec<String> = Vec::new();
        push_arg(&mut args, "create");
        push_arg(&mut args, "PrettyGetDaemon");
        push_arg(&mut args, bin.as_str());
        push_arg(&mut args, "start=");
        push_arg(&mut args, "auto");
        push_arg(&mut args, "DisplayName=");
        push_arg(&mut args, "PrettyGet Update Daemon");
        assert(strings_view(args@) =~= seq![
            "create"@,
            service_name(),
            "binPath= "@ + daemon_exe@,
            "start="@,
            "auto"@,
            "DisplayName="@,
            "PrettyGet Update Daemon"@,
        ]);
        args
    }

    /// The arguments of `sc.exe` for `verb` ("start", "stop", "delete") on the service.
    fn service_args(&self, verb: &str) -> (r: Vec<String>)
        ensures
            strings_view(r@) == seq![verb@, service_name()],
    {
        let mut args: Vec<String> = Vec::new();
        push_arg(&mut args, verb);
        push_arg(&mut args, "PrettyGetDaemon");
        assert(strings_view(args@) =~= seq![verb@, service_name()]);
        args
    }

    /// The arguments of `sc.exe` that remove the service (it is stopped first).
    pub fn uninstall_args(&self) -> (r: Vec<String>)
        ensures
            strings_view(r@) == seq!["delete"@, service_name()],
    {
        self.service_args("delete")
    }

    /// The arguments of `sc.exe` that start the service.
    pub fn start_args(&self) -> (r: Vec<String>)
        ensures
            strings_view(r@) == seq!["start"@, service_name()],
    {
        self.service_args("start")
    }

    /// The arguments of `sc.exe` that stop the service.
    pub fn stop_args(&self) -> (r: Vec<String>)
        ensures
            strings_view(r@) == seq!["stop"@, service_name()],
    {
        self.service_args("stop")
    }

    /// Once a configuration is applied (written, service installed if need be), the
    /// service is started when the configuration is enabled and stopped otherwise.
    pub fn apply_args(&self, config: &DaemonConfig) -> (r: Vec<String>)
        ensures
            config.enabled ==> strings_view(r@) == seq!["start"@, service_name()],
            !config.enabled ==> strings_view(r@) == seq!["stop"@, service_name()],
    {
        if config.enabled {
            self.start_args()
        } else {
            self.stop_args()
        }
    }

    /// What a finished `sc.exe` call comes to: success, or its error output.
    pub fn outcome(&self, success: bool, stderr: &[u8]) -> (r: Result<(), String>)
        ensures
            success ==> r is Ok,
            !success ==> (r matches Err(e) && e@ == spec_failure_message(stderr@)),
    {
        if success {
            Ok(())
        } else {
            Err(failure_message(stderr))
        }
    }
}

/// The local time as the daemon reads it each minute.
#[derive(Debug)]
pub struct LocalClock {
    /// "HH:MM", 24 h
    pub hour_minute: String,
    /// Whether today is a Monday.
    pub is_monday: bool,
    /// The day of the month, 1 to 31.
    pub day: u32,
    /// "YYYY-MM-DD HH:MM": tells one minute from every other.
    pub stamp: String,
}

/// Whether the configured frequency lets an update run today: weekly updates run on
/// Mondays, monthly ones on the first of the month, anything else (daily) every day.
pub open spec fn day_ok(frequency: Seq<char>, is_monday: bool, day: u32) -> bool {
    if frequency == "weekly"@ {
        is_monday
    } else if frequency == "monthly"@ {
        day == 1
    } else {
        true
    }
}

/// Whether an update is due: the clock shows the configured time, the day fits the
/// frequency, and this minute has not had its run yet (`last` is the stamp of the last run).
pub open spec fn spec_due_now(cfg: DaemonConfigView, hour_minute: Seq<char>, is_monday: bool, day: u32, stamp: Seq<char>, last: Seq<char>) -> bool {
    hour_minute == cfg.time && day_ok(cfg.frequency, is_monday, day) && last != stamp
}

/// Whether an update is due now; when it is, the current minute is recorded in `last` so
/// that it does not run twice in the same minute.
pub fn due_now(cfg: &DaemonConfig, now: &LocalClock, last: &mut String) -> (r: bool)
    ensures
        r == spec_due_now(cfg@, now.hour_minute@, now.is_monday, now.day, now.stamp@, old(last)@),
        r ==> final(last)@ == now.stamp@,
        !r ==> final(last)@ == old(last)@,
{
    if !same_text(now.hour_minute.as_str(), cfg.time.as_str()) {
        return false;
    }
    let ok_day = if same_text(cfg.frequency.as_str(), "weekly") {
        now.is_monday
    } else if same_text(cfg.frequency.as_str(), "monthly") {
        now.day == 1
    } else {
        true
    };
    if !ok_day {
        return false;
    }
    if same_text(last.as_str(), now.stamp.as_str()) {
        return false;
    }
    *last = to_string_of(now.stamp.as_str());
    true
}

/// Whether the daemon runs its updates at this reading of the clock: the configuration is
/// enabled and an update is due (see `due_now`). When the configuration is disabled the
/// clock is not consulted and `last` stays as it is.
pub fn should_run(cfg: &DaemonConfig, now: &LocalClock, last: &mut String) -> (r: bool)
    ensures
        r == (cfg.enabled && spec_due_now(
            cfg@,
            now.hour_minute@,
            now.is_monday,
            now.day,
            now.stamp@,
            old(last)@,
        )),
        r ==> final(last)@ == now.stamp@,
        !r ==> final(last)@ == old(last)@,
{
    cfg.enabled && due_now(cfg, now, last)
}

/// An update never runs twice in the same minute: right after a run was found due, the
/// same clock reading is not due any more.
pub proof fn lemma_due_once_per_minute(
    cfg: DaemonConfigView,
    hour_minute: Seq<char>,
    is_monday: bool,
    day: u32,
    stamp: Seq<char>,
    last: Seq<char>,
)
    requires
        spec_due_now(cfg, hour_minute, is_monday, day, stamp, last),
    ensures
        !spec_due_now(cfg, hour_minute, is_monday, day, stamp, stamp),
{
}

/// One winget run of the daemon: its arguments, the line logged before it, and what the
/// result line names ("--all" or the Id).
#[derive(Debug)]
pub struct DaemonRun {
    pub args: Vec<String>,
    pub announce: String,
    pub target: String,
}

/// The content of a `DaemonRun`.
pub struct DaemonRunView {
    pub args: Seq<Seq<char>>,
    pub announce: Seq<char>,
    pub target: Seq<char>,
}

impl View for DaemonRun {
    type V = DaemonRunView;

    open spec fn view(&self) -> DaemonRunView {
        DaemonRunView { args: strings_view(self.args@), announce: self.announce@, target: self.target@ }
    }
}

/// The flags of every run of the daemon.
pub open spec fn base_flags() -> Seq<Seq<char>> {
    seq![
        "--silent"@,
        "--accept-source-agreements"@,
        "--accept-package-agreements"@,
        "--include-unknown"@,
        "--disable-interactivity"@,
    ]
}

/// The run that upgrades one package.
pub open spec fn run_for_id(id: Seq<char>) -> DaemonRunView {
    DaemonRunView {
        args: seq!["upgrade"@, "--id"@, id, "--exact"@] + base_flags(),
        announce: "Ejecutando: winget upgrade --id "@ + id,
        target: id,
    }
}

/// What the daemon runs for a configuration: `winget upgrade --all` when no Id is listed;
/// otherwise one upgrade per listed Id, in order, leaving out Ids with whitespace.
pub open spec fn spec_daemon_runs(cfg: DaemonConfigView) -> Seq<DaemonRunView> {
    if cfg.only.len() == 0 {
        seq![
            DaemonRunView {
                args: seq!["upgrade"@, "--all"@] + base_flags(),
                announce: "Ejecutando: winget upgrade --all"@,
                target: "--all"@,
            },
        ]
    } else {
        cfg.only.filter(|id: Seq<char>| !has_ws(id)).map_values(|id: Seq<char>| run_for_id(id))
    }
}

/// The views of a list of runs.
pub open spec fn runs_view(v: Seq<DaemonRun>) -> Seq<DaemonRunView> {
    v.map_values(|r: DaemonRun| r@)
}

/// Appends the flags of every daemon run.
fn push_base_flags(args: &mut Vec<String>)
    ensures
        strings_view(final(args)@) == strings_view(old(args)@) + base_flags(),
{
    push_arg(args, "--silent");
    push_arg(args, "--accept-source-agreements");
    push_arg(args, "--accept-package-agreements");
    push_arg(args, "--include-unknown");
    push_arg(args, "--disable-interactivity");
    assert(strings_view(args@) =~= strings_view(old(args)@) + base_flags());
}

/// Whether a text holds whitespace (exec).
fn contains_whitespace(s: &str) -> (r: bool)
    ensures
        r == has_ws(s@),
{
    let cs = crate::text::chars_of(s);
    let mut i: usize = 0;
    while i < cs.len()
        invariant
            i <= cs.len(),
            cs@ == s@,
            forall|j: int| 0 <= j < i ==> !is_ws(#[trigger] cs@[j]),
        decreases cs.len() - i,
    {
        if is_whitespace(cs[i]) {
            assert(is_ws(s@[i as int]));
            return true;
        }
        i = i + 1;
    }
    false
}

/// The winget runs of the daemon for a configuration.
pub fn daemon_runs(cfg: &DaemonConfig) -> (r: Vec<DaemonRun>)
    ensures
        runs_view(r@) == spec_daemon_runs(cfg@),
{
    let mut out: Vec<DaemonRun> = Vec::new();
    if cfg.only.len() == 0 {
        let mut args: Vec<String> = Vec::new();
        push_arg(&mut args, "upgrade");
        push_arg(&mut args, "--all");
        push_base_flags(&mut args);
        let run = DaemonRun {
            args,
            announce: to_string_of("Ejecutando: winget upgrade --all"),
            target: to_string_of("--all"),
        };
        assert(run@.args =~= seq!["upgrade"@, "--all"@] + base_flags());
        out.push(run);
        assert(runs_view(out@) =~= spec_daemon_runs(cfg@));
        return out;
    }
    let ghost ids = strings_view(cfg.only@);
    let ghost keep = |id: Seq<char>| !has_ws(id);
    let ghost mk = |id: Seq<char>| run_for_id(id);
    let mut i: usize = 0;
    while i < cfg.only.len()
        invariant
            i <= cfg.only.len(),
            ids == strings_view(cfg.only@),
            keep == (|id: Seq<char>| !has_ws(id)),
            mk == (|id: Seq<char>| run_for_id(id)),
            runs_view(out@) == ids.take(i as int).filter(keep).map_values(mk),
        decreases cfg.only.len() - i,
    {
        let id = cfg.only[i].as_str();
        assert(ids.take(i + 1) =~= ids.take(i as int).push(ids[i as int]));
        proof {
            ids.take(i as int).lemma_filter_push(ids[i as int], keep);
        }
        if !contains_whitespace(id) {
            let mut args: Vec<String> = Vec::new();
            push_arg(&mut args, "upgrade");
            push_arg(&mut args, "--id");
            push_arg(&mut args, id);
            push_arg(&mut args, "--exact");
            push_base_flags(&mut args);
            let mut announce = to_string_of("Ejecutando: winget upgrade --id ");
            announce.append(id);
            let run = DaemonRun { args, announce, target: to_string_of(id) };
            assert(run@.args =~= seq!["upgrade"@, "--id"@, id@, "--exact"@] + base_flags());
            let ghost before = runs_view(out@);
            out.push(run);
            assert(runs_view(out@) =~= before.push(run@));
            assert(ids.take(i as int).filter(keep).push(ids[i as int]).map_values(mk)
                =~= ids.take(i as int).filter(keep).map_values(mk).push(mk(ids[i as int])));
        }
        i = i + 1;
    }
    assert(ids.take(cfg.only.len() as int) =~= ids);
    out
}

/// When an update is due, by frequency: a daily configuration (and any frequency other
/// than "weekly" and "monthly") is due every day at its time, Mondays included; a weekly
/// one only on Mondays; a monthly one only on the first of the month. Never outside the
/// configured time, and never twice in the same minute.
pub proof fn lemma_due_by_frequency(
    cfg: DaemonConfigView,
    hour_minute: Seq<char>,
    is_monday: bool,
    day: u32,
    stamp: Seq<char>,
    last: Seq<char>,
)
    ensures
        hour_minute != cfg.time ==> !spec_due_now(cfg, hour_minute, is_monday, day, stamp, last),
        last == stamp ==> !spec_due_now(cfg, hour_minute, is_monday, day, stamp, last),
        (hour_minute == cfg.time && last != stamp) ==> {
            &&& cfg.frequency == "daily"@ ==> spec_due_now(cfg, hour_minute, is_monday, day, stamp, last)
            &&& cfg.frequency == "weekly"@ ==> (spec_due_now(cfg, hour_minute, is_monday, day, stamp, last)
                <==> is_monday)
            &&& cfg.frequency == "monthly"@ ==> (spec_due_now(cfg, hour_minute, is_monday, day, stamp, last)
                <==> day == 1)
            &&& (cfg.frequency != "weekly"@ && cfg.frequency != "monthly"@) ==> spec_due_now(
                cfg,
                hour_minute,
                is_monday,
                day,
                stamp,
                last,
            )
        },
{
    reveal_strlit("daily");
    reveal_strlit("weekly");
    reveal_strlit("monthly");
    assert("daily"@ != "weekly"@ && "daily"@ != "monthly"@ && "weekly"@ != "monthly"@) by {
        assert("daily"@.len() != "weekly"@.len());
        assert("daily"@.len() != "monthly"@.len());
        assert("weekly"@[0] != "monthly"@[0]);
    }
}

/// What the daemon runs: with no Id configured, one `winget upgrade --all`; otherwise one
/// `winget upgrade --id <id> --exact` per configured Id without whitespace, and no other:
/// every run upgrades one of the configured Ids, never one with whitespace, and every
/// configured Id without whitespace gets its run.
pub proof fn lemma_daemon_runs_cover_ids(cfg: DaemonConfigView)
    ensures
        cfg.only.len() == 0 ==> spec_daemon_runs(cfg).len() == 1 && spec_daemon_runs(cfg)[0].args[0]
            == "upgrade"@ && spec_daemon_runs(cfg)[0].args[1] == "--all"@,
        cfg.only.len() > 0 ==> forall|k: int|
            0 <= k < spec_daemon_runs(cfg).len() ==> {
                let r = #[trigger] spec_daemon_runs(cfg)[k];
                &&& r.args[0] == "upgrade"@ && r.args[1] == "--id"@ && r.args[3] == "--exact"@
                &&& r.args[2] == r.target
                &&& cfg.only.contains(r.target)
                &&& !has_ws(r.target)
            },
        cfg.only.len() > 0 ==> forall|j: int|
            0 <= j < cfg.only.len() && !has_ws(#[trigger] cfg.only[j]) ==> exists|k: int|
                0 <= k < spec_daemon_runs(cfg).len() && spec_daemon_runs(cfg)[k].target == cfg.only[j],
{
    broadcast use vstd::seq_lib::group_filter_ensures;

    if cfg.only.len() > 0 {
        let keep = |id: Seq<char>| !has_ws(id);
        let kept = cfg.only.filter(keep);
        let runs = spec_daemon_runs(cfg);
        assert(runs == kept.map_values(|id: Seq<char>| run_for_id(id)));
        assert forall|k: int| 0 <= k < runs.len() implies {
            let r = #[trigger] runs[k];
            &&& r.args[0] == "upgrade"@ && r.args[1] == "--id"@ && r.args[3] == "--exact"@
            &&& r.args[2] == r.target
            &&& cfg.only.contains(r.target)
            &&& !has_ws(r.target)
        } by {
            assert(runs[k] == run_for_id(kept[k]));
            assert(kept.contains(kept[k]));
            cfg.only.lemma_filter_contains_rev(keep, kept[k]);
            cfg.only.lemma_filter_pred(keep, k);
        }
        assert forall|j: int|
            0 <= j < cfg.only.len() && !has_ws(#[trigger] cfg.only[j]) implies exists|k: int|
                0 <= k < runs.len() && runs[k].target == cfg.only[j] by {
            cfg.only.lemma_filter_contains(keep, j);
            let k = choose|k: int| 0 <= k < kept.len() && kept[k] == cfg.only[j];
            assert(runs[k] == run_for_id(kept[k]));
        }
    }
}

} // verus!
