use vstd::prelude::*;
use crate::table::KeyedTable;
use crate::text::{has_prefix, starts_with, push_signed_decimal, signed_decimal, push_str, lowercase, to_lowercase};
use crate::ids::{new_command_id, is_uuid_v4_text};
use crate::types::{clone_opt_string, strings_view, CommandType, LogLine, ProcessStatus, CommandEntry, CommandEntryView, EnvVar, LogBuffer, ProcessCheckResult, ProcessExitInfo, HealthStatus, ShellSettings, entries_view, opt_view, effective_shell_spec, effective_init_script_spec};

verus! {

/// How many log lines are kept for each command.
pub const LOG_CAPACITY: usize = 500;

/// The first command in `cmds` whose id is `id`.
pub open spec fn find_entry(cmds: Seq<CommandEntryView>, id: Seq<char>) -> Option<CommandEntryView>
    decreases cmds.len(),
{
    if cmds.len() == 0 {
        None
    } else if cmds[0].id == id {
        Some(cmds[0])
    } else {
        find_entry(cmds.drop_first(), id)
    }
}

/// The position of the first command in `cmds` whose id is `id`; the length
/// of `cmds` when there is none.
pub open spec fn first_index(cmds: Seq<CommandEntryView>, id: Seq<char>) -> int
    decreases cmds.len(),
{
    if cmds.len() == 0 {
        0
    } else if cmds[0].id == id {
        0
    } else {
        1 + first_index(cmds.drop_first(), id)
    }
}

/// `cmds` without the commands whose id is `id`.
pub open spec fn commands_without(cmds: Seq<CommandEntryView>, id: Seq<char>) -> Seq<CommandEntryView>
    decreases cmds.len(),
{
    if cmds.len() == 0 {
        Seq::empty()
    } else {
        let prev = commands_without(cmds.drop_last(), id);
        if cmds.last().id == id {
            prev
        } else {
            prev.push(cmds.last())
        }
    }
}

/// The value of the command built from the given fields, with the defaults
/// that missing optional fields take.
pub open spec fn entry_from(
    id: Seq<char>,
    name: Seq<char>,
    cwd: Seq<char>,
    command: Seq<char>,
    enabled: bool,
    env: Option<Vec<EnvVar>>,
    health_check_url: Option<String>,
    command_type: Option<CommandType>,
    tags: Option<Vec<String>>,
) -> CommandEntryView {
    CommandEntryView {
        id,
        name,
        cwd,
        command,
        enabled,
        env: match env {
            Some(e) => e@,
            None => Seq::empty(),
        },
        health_check_url: opt_view(health_check_url),
        command_type: match command_type {
            Some(t) => t,
            None => CommandType::Process,
        },
        tags: match tags {
            Some(t) => strings_view(t@),
            None => Seq::empty(),
        },
    }
}

/// The commands whose name equals `key` once both are lowercased.
pub open spec fn name_matches(cmds: Seq<CommandEntryView>, key: Seq<char>) -> Seq<CommandEntryView>
    decreases cmds.len(),
{
    if cmds.len() == 0 {
        Seq::empty()
    } else {
        let prev = name_matches(cmds.drop_last(), key);
        if lowercase(cmds.last().name) == lowercase(key) {
            prev.push(cmds.last())
        } else {
            prev
        }
    }
}

/// One line per ambiguous match: two spaces, the name, and the id in brackets.
pub open spec fn match_lines(ms: Seq<CommandEntryView>) -> Seq<char>
    decreases ms.len(),
{
    if ms.len() == 0 {
        Seq::empty()
    } else if ms.len() == 1 {
        seq![' ', ' '] + ms[0].name + seq![' ', '('] + ms[0].id + seq![')']
    } else {
        match_lines(ms.drop_last()) + seq!['\n', ' ', ' '] + ms.last().name + seq![' ', '('] + ms.last().id
            + seq![')']
    }
}

/// What resolving `key` to a command id gives: the key itself when a command
/// has that id; else the id of the one command with that name, compared
/// without regard to case; else an error naming the key, and listing the
/// candidates when there are several.
pub open spec fn resolve_spec(cmds: Seq<CommandEntryView>, key: Seq<char>) -> Result<Seq<char>, Seq<char>> {
    if find_entry(cmds, key) is Some {
        Ok(key)
    } else {
        let ms = name_matches(cmds, key);
        if ms.len() == 0 {
            Err("No command found matching '"@ + key + "'"@)
        } else if ms.len() == 1 {
            Ok(ms[0].id)
        } else {
            Err("Ambiguous name '"@ + key + "'. Matches:\n"@ + match_lines(ms))
        }
    }
}

/// The script that the shell runs: the init script, then the command.
pub open spec fn shell_script(command: Seq<char>, init_script: Seq<char>) -> Seq<char> {
    if init_script.len() == 0 {
        command
    } else {
        init_script + seq![';', ' '] + command
    }
}

/// What the latest poll found for process `id`; a process that was not polled
/// counts as running.
pub open spec fn poll_of(polls: Map<Seq<char>, ProcessCheckResult>, id: Seq<char>) -> ProcessCheckResult {
    if polls.contains_key(id) {
        polls[id]
    } else {
        ProcessCheckResult::Running
    }
}

/// The exit code that a poll found, if it found the process exited with one.
pub open spec fn exit_code_of(p: ProcessCheckResult) -> Option<i32> {
    match p {
        ProcessCheckResult::Exited(c) => c,
        ProcessCheckResult::Running => None,
    }
}

/// The ids among `ids` whose poll found the process exited, in order.
pub open spec fn exited_ids(ids: Seq<Seq<char>>, polls: Map<Seq<char>, ProcessCheckResult>) -> Seq<Seq<char>>
    decreases ids.len(),
{
    if ids.len() == 0 {
        Seq::empty()
    } else {
        let prev = exited_ids(ids.drop_last(), polls);
        if poll_of(polls, ids.last()) is Exited {
            prev.push(ids.last())
        } else {
            prev
        }
    }
}

/// The notification sent when the command called `name` exits with `code`:
/// none for a clean exit (code 0).
pub open spec fn exit_notification(name: Seq<char>, code: Option<i32>) -> Option<Seq<char>> {
    match code {
        Some(c) => if c == 0 {
            None
        } else {
            Some(seq!['"'] + name + "\" exited with code "@ + signed_decimal(c as int))
        },
        None => Some(seq!['"'] + name + "\" was terminated"@),
    }
}

/// What the process monitor reports of a process that exited on its own.
pub struct ExitEvent {
    pub id: String,
    pub code: Option<i32>,
    /// The command's name, empty when the command is gone.
    pub name: String,
    /// The message to show the user; none for a clean exit.
    pub notification: Option<String>,
}

/// `u` is an `http://` or `https://` URL: the only health check URLs that are
/// fetched.
pub open spec fn is_http_url(u: Seq<char>) -> bool {
    has_prefix(u, "http://"@) || has_prefix(u, "https://"@)
}

/// What to do for one command's health check.
pub enum HealthAction {
    /// Record this status without a request.
    Record(HealthStatus),
    /// Fetch this URL and record what the response says.
    Probe(String),
}

/// The health check of one command.
pub struct HealthCheck {
    pub id: String,
    pub action: HealthAction,
}

/// A health result to record for one command.
pub struct HealthUpdate {
    pub id: String,
    pub status: HealthStatus,
}

/// The commands that have a health check URL, in order.
pub open spec fn health_targets(cmds: Seq<CommandEntryView>) -> Seq<CommandEntryView>
    decreases cmds.len(),
{
    if cmds.len() == 0 {
        Seq::empty()
    } else {
        let prev = health_targets(cmds.drop_last());
        if cmds.last().health_check_url is Some {
            prev.push(cmds.last())
        } else {
            prev
        }
    }
}

/// `a` is the action for a check of `url` on a command that is `running` or
/// not: nothing is known of a command that is not running, a URL that is not
/// HTTP is unhealthy without a request, and any other URL is fetched.
pub open spec fn health_action_for(a: HealthAction, url: Seq<char>, running: bool) -> bool {
    if !running {
        a == HealthAction::Record(HealthStatus::Unknown)
    } else if !is_http_url(url) {
        a == HealthAction::Record(HealthStatus::Unhealthy)
    } else {
        a is Probe && a->Probe_0@ == url
    }
}

/// What a response with HTTP status `status` (none when the request failed)
/// says of a command's health: healthy for a status from 200 to 399.
pub open spec fn health_of_response_spec(status: Option<u16>) -> HealthStatus {
    match status {
        Some(s) => if 200 <= s < 400 {
            HealthStatus::Healthy
        } else {
            HealthStatus::Unhealthy
        },
        None => HealthStatus::Unhealthy,
    }
}

/// `m` with the results of `ups` recorded in order.
pub open spec fn apply_health(m: Map<Seq<char>, HealthStatus>, ups: Seq<HealthUpdate>) -> Map<Seq<char>, HealthStatus>
    decreases ups.len(),
{
    if ups.len() == 0 {
        m
    } else {
        apply_health(m, ups.drop_last()).insert(ups.last().id@, ups.last().status)
    }
}

/// The commands that start when the application launches: the enabled ones
/// that are long-running processes, in order.
pub open spec fn autostart_targets(cmds: Seq<CommandEntryView>) -> Seq<CommandEntryView>
    decreases cmds.len(),
{
    if cmds.len() == 0 {
        Seq::empty()
    } else {
        let prev = autostart_targets(cmds.drop_last());
        if cmds.last().enabled && cmds.last().command_type == CommandType::Process {
            prev.push(cmds.last())
        } else {
            prev
        }
    }
}

/// A command to start at launch, and how.
pub struct AutoStart {
    pub id: String,
    pub plan: SpawnPlan,
}

/// The ids of `cmds`.
pub open spec fn ids_of(cmds: Seq<CommandEntryView>) -> Seq<Seq<char>> {
    cmds.map_values(|c: CommandEntryView| c.id)
}

/// An entry of the tray's list of active commands.
pub struct TrayItem {
    pub id: String,
    pub name: String,
}

/// How to launch one command: `shell -l -c script`, in `cwd`, with `env` set
/// on top of the inherited environment.
pub struct SpawnPlan {
    pub shell: String,
    pub script: String,
    pub cwd: String,
    pub env: Vec<EnvVar>,
}

/// `plan` launches `entry` with the shell `settings` and `$SHELL` value `env_shell`.
pub open spec fn plans_entry(
    plan: SpawnPlan,
    entry: CommandEntryView,
    settings: ShellSettings,
    env_shell: Option<Seq<char>>,
) -> bool {
    &&& plan.shell@ == effective_shell_spec(settings, env_shell)
    &&& plan.script@ == shell_script(entry.command, effective_init_script_spec(settings))
    &&& plan.cwd@ == entry.cwd
    &&& plan.env@ == entry.env
}

/// A fresh, empty log buffer of the standard capacity.
pub open spec fn is_fresh_log(b: LogBuffer) -> bool {
    b.lines@.len() == 0 && b.max_lines == LOG_CAPACITY
}

/// The name of the command with id `id`, or the empty name when there is none.
pub open spec fn name_of(cmds: Seq<CommandEntryView>, id: Seq<char>) -> Seq<char> {
    match find_entry(cmds, id) {
        Some(e) => e.name,
        None => Seq::empty(),
    }
}

/// The state the application keeps: the configured commands and, per command
/// id, the process group of its running process, the record of its last exit,
/// its log buffer and its health.
pub struct AppState {
    commands: Vec<CommandEntry>,
    processes: KeyedTable<i32>,
    exit_info: KeyedTable<ProcessExitInfo>,
    logs: KeyedTable<LogBuffer>,
    health: KeyedTable<HealthStatus>,
    shell_settings: ShellSettings,
}

proof fn lemma_find_entry_skip(cmds: Seq<CommandEntryView>, id: Seq<char>, i: int)
    requires
        0 <= i <= cmds.len(),
        forall|j: int| 0 <= j < i ==> cmds[j].id != id,
    ensures
        find_entry(cmds, id) == find_entry(cmds.skip(i), id),
        first_index(cmds, id) == i + first_index(cmds.skip(i), id),
    decreases i,
{
    if i > 0 {
        assert(cmds.skip(1) =~= cmds.drop_first());
        lemma_find_entry_skip(cmds.drop_first(), id, i - 1);
        assert(cmds.drop_first().skip(i - 1) =~= cmds.skip(i));
    } else {
        assert(cmds.skip(0) =~= cmds);
    }
}

/// The names of the commands whose ids are `ids`, in that order; an id with
/// no command contributes nothing.
pub open spec fn running_names(cmds: Seq<CommandEntryView>, ids: Seq<Seq<char>>) -> Seq<Seq<char>>
    decreases ids.len(),
{
    if ids.len() == 0 {
        Seq::empty()
    } else {
        let prev = running_names(cmds, ids.drop_last());
        match find_entry(cmds, ids.last()) {
            Some(e) => prev.push(e.name),
            None => prev,
        }
    }
}

/// The ids of the commands whose ids are `ids`, in that order; an id with no
/// command contributes nothing.
pub open spec fn running_ids(cmds: Seq<CommandEntryView>, ids: Seq<Seq<char>>) -> Seq<Seq<char>>
    decreases ids.len(),
{
    if ids.len() == 0 {
        Seq::empty()
    } else {
        let prev = running_ids(cmds, ids.drop_last());
        match find_entry(cmds, ids.last()) {
            Some(e) => prev.push(e.id),
            None => prev,
        }
    }
}

/// `ks` without the key `k`.
pub open spec fn without(ks: Seq<Seq<char>>, k: Seq<char>) -> Seq<Seq<char>> {
    ks.filter(|x: Seq<char>| x != k)
}

/// `ks` without each of the keys `gone`.
pub open spec fn without_all(ks: Seq<Seq<char>>, gone: Seq<Seq<char>>) -> Seq<Seq<char>>
    decreases gone.len(),
{
    if gone.len() == 0 {
        ks
    } else {
        without(without_all(ks, gone.drop_last()), gone.last())
    }
}

/// The status that command `id` reports in state `s` when polling its tracked
/// process finds `poll`.
pub open spec fn status_of(s: AppState, id: Seq<char>, poll: ProcessCheckResult) -> ProcessStatus {
    if s.processes_view().contains_key(id) {
        match poll {
            ProcessCheckResult::Running => ProcessStatus::Running,
            ProcessCheckResult::Exited(code) => ProcessStatus::Exited { code },
        }
    } else if s.exit_view().contains_key(id) {
        ProcessStatus::Exited { code: s.exit_view()[id].code }
    } else {
        ProcessStatus::Stopped
    }
}

/// Starting command `id` may proceed in state `s`: the command exists and
/// its process, if it has one, was not found running.
pub open spec fn start_allowed(s: AppState, id: Seq<char>, poll: ProcessCheckResult) -> bool {
    find_entry(s.commands_view(), id) is Some && !(s.processes_view().contains_key(id) && poll
        == ProcessCheckResult::Running)
}

/// `s1` is `s0` after command `id` was stopped: its process is no longer
/// tracked and its exit record is gone; nothing else changed.
pub open spec fn stop_effect(s0: AppState, s1: AppState, id: Seq<char>) -> bool {
    &&& s1.processes_view() == s0.processes_view().remove(id)
    &&& s1.process_ids() == without(s0.process_ids(), id)
    &&& s1.exit_view() == s0.exit_view().remove(id)
    &&& s1.logs_view() == s0.logs_view()
    &&& s1.health_view() == s0.health_view()
    &&& s1.commands_view() == s0.commands_view()
    &&& s1.settings() == s0.settings()
}

/// `s1` is `s0` after the process launched for command `id` was recorded
/// with process group `pgid`; nothing else changed.
pub open spec fn spawn_effect(s0: AppState, s1: AppState, id: Seq<char>, pgid: i32) -> bool {
    &&& s1.processes_view() == s0.processes_view().insert(id, pgid)
    &&& s1.process_ids() == if s0.processes_view().contains_key(id) {
        s0.process_ids()
    } else {
        s0.process_ids().push(id)
    }
    &&& s1.commands_view() == s0.commands_view()
    &&& s1.exit_view() == s0.exit_view()
    &&& s1.logs_view() == s0.logs_view()
    &&& s1.health_view() == s0.health_view()
    &&& s1.settings() == s0.settings()
}

/// A command whose launched process was just recorded reports `Running`
/// while polls find its process running, and the exit code that a poll finds
/// once it exits.
pub proof fn lemma_started_reports_running(s0: AppState, s1: AppState, id: Seq<char>, pgid: i32)
    requires
        spawn_effect(s0, s1, id, pgid),
    ensures
        status_of(s1, id, ProcessCheckResult::Running) == ProcessStatus::Running,
        forall|code: Option<i32>|
            #[trigger] status_of(s1, id, ProcessCheckResult::Exited(code)) == (ProcessStatus::Exited { code }),
{
}

/// A command that was just stopped reports `Stopped`, whatever a poll would
/// find, and may be started again whenever it exists.
pub proof fn lemma_stopped_reports_stopped(s0: AppState, s1: AppState, id: Seq<char>)
    requires
        stop_effect(s0, s1, id),
    ensures
        forall|poll: ProcessCheckResult| #[trigger] status_of(s1, id, poll) == ProcessStatus::Stopped,
        forall|poll: ProcessCheckResult|
            #[trigger] start_allowed(s1, id, poll) == (find_entry(s1.commands_view(), id) is Some),
{
}

/// A command whose process was found exited and then forgotten reports the
/// recorded exit code, whatever a later poll would find.
pub proof fn lemma_exit_is_remembered(s: AppState, id: Seq<char>)
    requires
        !s.processes_view().contains_key(id),
        s.exit_view().contains_key(id),
    ensures
        forall|poll: ProcessCheckResult|
            #[trigger] status_of(s, id, poll) == (ProcessStatus::Exited { code: s.exit_view()[id].code }),
{
}

/// Every HTTP health check URL of a running command is fetched: one that
/// begins with `https://` or `http://` is probed as it is; any other URL of a
/// running command is recorded unhealthy, and a command that is not running is
/// recorded unknown, without a request.
pub proof fn lemma_http_urls_are_fetched(a: HealthAction, url: Seq<char>)
    ensures
        has_prefix(url, "https://"@) ==> (health_action_for(a, url, true) <==> (a is Probe && a->Probe_0@
            == url)),
        has_prefix(url, "http://"@) ==> (health_action_for(a, url, true) <==> (a is Probe && a->Probe_0@
            == url)),
        !has_prefix(url, "https://"@) && !has_prefix(url, "http://"@) ==> (health_action_for(a, url, true) <==> a
            == HealthAction::Record(HealthStatus::Unhealthy)),
        health_action_for(a, url, false) <==> a == HealthAction::Record(HealthStatus::Unknown),
{
}

/// The user is notified exactly when a command does not exit cleanly: no
/// notification for exit code 0; for any other code the message names the
/// command and the code; for a process ended by a signal (no code) it says the
/// command was terminated.
pub proof fn lemma_notified_unless_clean_exit(name: Seq<char>, code: Option<i32>)
    ensures
        exit_notification(name, code) is None <==> code == Some(0i32),
        forall|c: i32|
            c != 0 && code == Some(c) ==> exit_notification(name, code) == Some(
                seq!['"'] + name + "\" exited with code "@ + signed_decimal(c as int),
            ),
        code is None ==> exit_notification(name, code) == Some(seq!['"'] + name + "\" was terminated"@),
{
}

/// The commands started at launch are exactly the enabled long-running ones:
/// each enabled `Process` command is among them, and each of them is such a
/// command of the list.
pub proof fn lemma_autostart_targets_exact(cmds: Seq<CommandEntryView>)
    ensures
        forall|i: int|
            0 <= i < cmds.len() && cmds[i].enabled && cmds[i].command_type == CommandType::Process
                ==> #[trigger] autostart_targets(cmds).contains(cmds[i]) && ids_of(autostart_targets(cmds)).contains(
                cmds[i].id,
            ),
        forall|t: CommandEntryView|
            #[trigger] autostart_targets(cmds).contains(t) ==> cmds.contains(t) && t.enabled && t.command_type
                == CommandType::Process,
    decreases cmds.len(),
{
    if cmds.len() > 0 {
        let p = cmds.drop_last();
        lemma_autostart_targets_exact(p);
        let prev = autostart_targets(p);
        let cur = autostart_targets(cmds);
        assert forall|i: int|
            0 <= i < cmds.len() && cmds[i].enabled && cmds[i].command_type == CommandType::Process
                implies #[trigger] cur.contains(cmds[i]) && ids_of(cur).contains(cmds[i].id) by {
            let q: int = if i < p.len() {
                assert(p[i] == cmds[i]);
                assert(prev.contains(p[i]));
                let q = choose|q: int| 0 <= q < prev.len() && prev[q] == p[i];
                assert(cur[q] == prev[q]);
                q
            } else {
                assert(cur[cur.len() - 1] == cmds[i]);
                cur.len() - 1
            };
            assert(cur[q] == cmds[i]);
            assert(ids_of(cur)[q] == cmds[i].id);
        }
        assert forall|t: CommandEntryView| #[trigger] cur.contains(t) implies cmds.contains(t) && t.enabled
            && t.command_type == CommandType::Process by {
            let q = choose|q: int| 0 <= q < cur.len() && cur[q] == t;
            if q < prev.len() && cur[q] == prev[q] {
                assert(prev.contains(t));
                let r = choose|r: int| 0 <= r < p.len() && p[r] == t;
                assert(cmds[r] == t);
            } else {
                assert(cmds[cmds.len() - 1] == t);
            }
        }
    }
}

/// Removing the only occurrence of `k` is filtering it out.
proof fn lemma_filter_out_unique(ks: Seq<Seq<char>>, k: Seq<char>)
    requires
        ks.no_duplicates(),
    ensures
        ks.contains(k) ==> ks.remove(ks.index_of(k)) == without(ks, k),
        !ks.contains(k) ==> ks == without(ks, k),
    decreases ks.len(),
{
    broadcast use vstd::seq_lib::group_filter_ensures;
    reveal(Seq::filter);
    if ks.len() > 0 {
        let p = ks.drop_last();
        assert(p.no_duplicates());
        lemma_filter_out_unique(p, k);
        if ks.last() == k {
            assert(!p.contains(k));
            assert(ks.index_of(k) == ks.len() - 1) by {
                ks.index_of_first_ensures(k);
            }
            assert(ks.remove(ks.len() - 1) =~= p);
        } else if p.contains(k) {
            let i = p.index_of(k);
            p.index_of_first_ensures(k);
            ks.index_of_first_ensures(k);
            assert(ks.index_of(k) == i);
            assert(ks.remove(i) =~= p.remove(i).push(ks.last()));
        } else {
            assert(!ks.contains(k)) by {
                if ks.contains(k) {
                    let j = choose|j: int| 0 <= j < ks.len() && ks[j] == k;
                    assert(p[j] == k);
                }
            }
        }
    }
}

impl AppState {
    /// Each table holds each id at most once.
    pub closed spec fn wf(self) -> bool {
        &&& self.processes.wf()
        &&& self.exit_info.wf()
        &&& self.logs.wf()
        &&& self.health.wf()
    }

    /// The configured commands.
    pub closed spec fn commands_view(self) -> Seq<CommandEntryView> {
        entries_view(self.commands@)
    }

    /// The process group of each command's running process.
    pub closed spec fn processes_view(self) -> Map<Seq<char>, i32> {
        self.processes.view()
    }

    /// The ids of the running processes, oldest first.
    pub closed spec fn process_ids(self) -> Seq<Seq<char>> {
        self.processes.key_seq()
    }

    /// The record of each command's last exit.
    pub closed spec fn exit_view(self) -> Map<Seq<char>, ProcessExitInfo> {
        self.exit_info.view()
    }

    /// The log buffer of each command.
    pub closed spec fn logs_view(self) -> Map<Seq<char>, LogBuffer> {
        self.logs.view()
    }

    /// The last health check result of each command.
    pub closed spec fn health_view(self) -> Map<Seq<char>, HealthStatus> {
        self.health.view()
    }

    pub closed spec fn settings(self) -> ShellSettings {
        self.shell_settings
    }

    /// The process groups of the running processes, in the order of their ids.
    pub open spec fn pgids_view(self) -> Seq<i32> {
        self.process_ids().map_values(|k: Seq<char>| self.processes_view()[k])
    }

    /// `self` and `other` hold the same state.
    pub open spec fn same_as(self, other: AppState) -> bool {
        &&& self.commands_view() == other.commands_view()
        &&& self.processes_view() == other.processes_view()
        &&& self.process_ids() == other.process_ids()
        &&& self.exit_view() == other.exit_view()
        &&& self.logs_view() == other.logs_view()
        &&& self.health_view() == other.health_view()
        &&& self.settings() == other.settings()
    }

    /// Stops tracking the process of `id`; returns its process group.
    fn forget_process(&mut self, id: &str) -> (res: Option<i32>)
        requires
            old(self).wf(),
        ensures
            final(self).wf(),
            final(self).processes_view() == old(self).processes_view().remove(id@),
            final(self).process_ids() == without(old(self).process_ids(), id@),
            res == if old(self).processes_view().contains_key(id@) {
                Some(old(self).processes_view()[id@])
            } else {
                None::<i32>
            },
            final(self).commands@ == old(self).commands@,
            final(self).exit_info == old(self).exit_info,
            final(self).logs == old(self).logs,
            final(self).health == old(self).health,
            final(self).shell_settings == old(self).shell_settings,
    {
        proof {
            self.processes.lemma_keys();
        }
        let ghost ks = self.processes.key_seq();
        let r = self.processes.remove(id);
        proof {
            lemma_filter_out_unique(ks, id@);
        }
        r
    }

    pub fn new(commands: Vec<CommandEntry>, shell_settings: ShellSettings) -> (res: Self)
        ensures
            res.wf(),
            res.commands_view() == entries_view(commands@),
            res.processes_view() == Map::<Seq<char>, i32>::empty(),
            res.process_ids() == Seq::<Seq<char>>::empty(),
            res.exit_view() == Map::<Seq<char>, ProcessExitInfo>::empty(),
            res.logs_view() == Map::<Seq<char>, LogBuffer>::empty(),
            res.health_view() == Map::<Seq<char>, HealthStatus>::empty(),
            res.settings() == shell_settings,
    {
        AppState {
            commands,
            processes: KeyedTable::new(),
            exit_info: KeyedTable::new(),
            logs: KeyedTable::new(),
            health: KeyedTable::new(),
            shell_settings,
        }
    }

    /// The position of the first command whose id is `id`.
    fn position_of(&self, id: &str) -> (res: Option<usize>)
        ensures
            match res {
                Some(i) => i < self.commands@.len() && find_entry(self.commands_view(), id@)
                    == Some(self.commands_view()[i as int]) && self.commands_view()[i as int].id
                    == id@ && first_index(self.commands_view(), id@) == i,
                None => find_entry(self.commands_view(), id@) is None,
            },
    {
        let key = id.to_owned();
        let n = self.commands.len();
        let mut i: usize = 0;
        while i < n
            invariant
                n == self.commands@.len(),
                i <= n,
                key@ == id@,
                forall|j: int| 0 <= j < i ==> self.commands_view()[j].id != id@,
            decreases n - i,
        {
            if self.commands[i].id == key {
                proof {
                    lemma_find_entry_skip(self.commands_view(), id@, i as int);
                }
                return Some(i);
            }
            i += 1;
        }
        proof {
            lemma_find_entry_skip(self.commands_view(), id@, n as int);
        }
        None
    }

    /// A copy of the first command whose id is `id`.
    pub fn find_command(&self, id: &str) -> (res: Option<CommandEntry>)
        ensures
            match res {
                Some(e) => find_entry(self.commands_view(), id@) == Some(e@),
                None => find_entry(self.commands_view(), id@) is None,
            },
    {
        match self.position_of(id) {
            Some(i) => Some(self.commands[i].clone()),
            None => None,
        }
    }

    /// The process groups of the running processes, in the order of their ids:
    /// what the pid file records.
    pub fn running_pgids(&self) -> (res: Vec<i32>)
        requires
            self.wf(),
        ensures
            res@ == self.pgids_view(),
    {
        let n = self.processes.len();
        let mut res: Vec<i32> = Vec::new();
        let mut i: usize = 0;
        while i < n
            invariant
                n == self.process_ids().len(),
                i <= n,
                self.processes.wf(),
                res@ == self.pgids_view().take(i as int),
            decreases n - i,
        {
            res.push(*self.processes.value_at(i));
            i += 1;
            assert(res@ =~= self.pgids_view().take(i as int));
        }
        assert(res@ =~= self.pgids_view());
        res
    }

    /// The launch plan for `entry` under the current shell settings.
    fn plan_for(&self, entry: &CommandEntry, env_shell: Option<String>) -> (res: SpawnPlan)
        ensures
            plans_entry(res, entry@, self.settings(), opt_view(env_shell)),
    {
        let shell = self.shell_settings.effective_shell(env_shell);
        let init = self.shell_settings.effective_init_script();
        let mut script = String::new();
        if init.unicode_len() > 0 {
            push_str(&mut script, init);
            push_str(&mut script, "; ");
            proof {
                reveal_strlit("; ");
            }
        }
        push_str(&mut script, entry.command.as_str());
        let env = entry.env.clone();
        proof {
            assert(env@ =~= entry.env@) by {
                assert forall|i: int| 0 <= i < env.len() implies env@[i] == entry.env@[i] by {
                    assert(cloned::<EnvVar>(entry.env[i], env[i]));
                }
            }
            assert(script@ =~= shell_script(entry.command@, effective_init_script_spec(self.shell_settings)));
        }
        SpawnPlan { shell, script, cwd: entry.cwd.clone(), env }
    }

    /// Records that the process launched for `id` runs in process group `pgid`;
    /// returns the process groups to record in the pid file.
    pub fn record_spawned(&mut self, id: &str, pgid: i32) -> (res: Vec<i32>)
        requires
            old(self).wf(),
        ensures
            final(self).wf(),
            spawn_effect(*old(self), *final(self), id@, pgid),
            res@ == final(self).pgids_view(),
    {
        self.processes.insert(id.to_owned(), pgid);
        self.running_pgids()
    }

    /// The first half of starting command `id`: checks that it exists and is not
    /// running (`poll` is what polling its tracked process found), forgets its
    /// finished process and its exit record, gives it a fresh log buffer, and
    /// returns how to launch it. `env_shell` is the value of `$SHELL`.
    pub fn do_start_command(&mut self, id: &str, poll: ProcessCheckResult, env_shell: Option<String>)
        -> (res: Result<SpawnPlan, String>)
        requires
            old(self).wf(),
        ensures
            final(self).wf(),
            res is Ok <==> start_allowed(*old(self), id@, poll),
            match find_entry(old(self).commands_view(), id@) {
                None => res == Err::<SpawnPlan, String>(res->Err_0) && res->Err_0@ == "Command not found"@
                    && final(self).same_as(*old(self)),
                Some(e) => if old(self).processes_view().contains_key(id@) && poll
                    == ProcessCheckResult::Running {
                    res == Err::<SpawnPlan, String>(res->Err_0) && res->Err_0@
                        == "Command is already running"@ && final(self).same_as(*old(self))
                } else {
                    &&& res is Ok
                    &&& plans_entry(res->Ok_0, e, old(self).settings(), opt_view(env_shell))
                    &&& final(self).processes_view() == old(self).processes_view().remove(id@)
                    &&& final(self).process_ids() == without(old(self).process_ids(), id@)
                    &&& final(self).exit_view() == old(self).exit_view().remove(id@)
                    &&& final(self).logs_view().dom() == old(self).logs_view().dom().insert(id@)
                    &&& is_fresh_log(final(self).logs_view()[id@])
                    &&& final(self).logs_view() == old(self).logs_view().insert(id@, final(self).logs_view()[id@])
                    &&& final(self).health_view() == old(self).health_view()
                    &&& final(self).commands_view() == old(self).commands_view()
                    &&& final(self).settings() == old(self).settings()
                },
            },
    {
        let entry = match self.find_command(id) {
            Some(e) => e,
            None => return Err("Command not found".to_owned()),
        };
        if self.processes.contains_key(id) {
            if poll == ProcessCheckResult::Running {
                return Err("Command is already running".to_owned());
            }
        }
        self.forget_process(id);
        self.exit_info.remove(id);
        self.logs.insert(id.to_owned(), LogBuffer::new(LOG_CAPACITY));
        Ok(self.plan_for(&entry, env_shell))
    }

    /// Stops tracking command `id` and forgets its exit record; returns the
    /// process group to terminate, if it had a running process.
    pub fn do_stop_command(&mut self, id: &str) -> (res: Option<i32>)
        requires
            old(self).wf(),
        ensures
            final(self).wf(),
            res == if old(self).processes_view().contains_key(id@) {
                Some(old(self).processes_view()[id@])
            } else {
                None::<i32>
            },
            stop_effect(*old(self), *final(self), id@),
    {
        let pgid = self.forget_process(id);
        self.exit_info.remove(id);
        pgid
    }

    /// The first half of restarting command `id`: stops tracking its process
    /// (whose process group is returned, to be terminated) and forgets its exit
    /// record; then, if the command exists, gives it a fresh log buffer and
    /// returns how to launch it.
    pub fn do_restart_command(&mut self, id: &str, env_shell: Option<String>) -> (res: (
        Option<i32>,
        Result<SpawnPlan, String>,
    ))
        requires
            old(self).wf(),
        ensures
            final(self).wf(),
            res.0 == if old(self).processes_view().contains_key(id@) {
                Some(old(self).processes_view()[id@])
            } else {
                None::<i32>
            },
            final(self).processes_view() == old(self).processes_view().remove(id@),
            final(self).process_ids() == without(old(self).process_ids(), id@),
            final(self).exit_view() == old(self).exit_view().remove(id@),
            final(self).health_view() == old(self).health_view(),
            final(self).commands_view() == old(self).commands_view(),
            final(self).settings() == old(self).settings(),
            match find_entry(old(self).commands_view(), id@) {
                None => res.1 == Err::<SpawnPlan, String>(res.1->Err_0) && res.1->Err_0@
                    == "Command not found"@ && final(self).logs_view() == old(self).logs_view(),
                Some(e) => {
                    &&& res.1 is Ok
                    &&& plans_entry(res.1->Ok_0, e, old(self).settings(), opt_view(env_shell))
                    &&& final(self).logs_view().dom() == old(self).logs_view().dom().insert(id@)
                    &&& is_fresh_log(final(self).logs_view()[id@])
                    &&& final(self).logs_view() == old(self).logs_view().insert(
                        id@,
                        final(self).logs_view()[id@],
                    )
                },
            },
    {
        let pgid = self.forget_process(id);
        self.exit_info.remove(id);
        let entry = match self.find_command(id) {
            Some(e) => e,
            None => return (pgid, Err("Command not found".to_owned())),
        };
        self.logs.insert(id.to_owned(), LogBuffer::new(LOG_CAPACITY));
        (pgid, Ok(self.plan_for(&entry, env_shell)))
    }

    /// A copy of the configured commands.
    pub fn do_get_commands(&self) -> (res: Vec<CommandEntry>)
        ensures
            entries_view(res@) == self.commands_view(),
    {
        let res = self.commands.clone();
        proof {
            assert(entries_view(res@) =~= self.commands_view()) by {
                assert forall|i: int| 0 <= i < res.len() implies res@[i]@ == self.commands@[i]@ by {
                    assert(cloned::<CommandEntry>(self.commands[i], res[i]));
                }
            }
        }
        res
    }

    /// The status of command `id`. When it has a tracked process, `poll` is what
    /// polling that process found: a process found exited is forgotten and its
    /// exit is recorded under the command's name.
    pub fn do_get_status(&mut self, id: &str, poll: ProcessCheckResult) -> (res: ProcessStatus)
        requires
            old(self).wf(),
        ensures
            final(self).wf(),
            res == status_of(*old(self), id@, poll),
            final(self).commands_view() == old(self).commands_view(),
            final(self).logs_view() == old(self).logs_view(),
            final(self).health_view() == old(self).health_view(),
            final(self).settings() == old(self).settings(),
            if old(self).processes_view().contains_key(id@) {
                match poll {
                    ProcessCheckResult::Running => res == ProcessStatus::Running
                        && final(self).same_as(*old(self)),
                    ProcessCheckResult::Exited(code) => {
                        &&& res == ProcessStatus::Exited { code }
                        &&& final(self).processes_view() == old(self).processes_view().remove(id@)
                        &&& final(self).process_ids() == without(old(self).process_ids(), id@)
                        &&& final(self).exit_view().dom() == old(self).exit_view().dom().insert(id@)
                        &&& final(self).exit_view() == old(self).exit_view().insert(
                            id@,
                            final(self).exit_view()[id@],
                        )
                        &&& final(self).exit_view()[id@].code == code
                        &&& final(self).exit_view()[id@].command_name@ == name_of(
                            old(self).commands_view(),
                            id@,
                        )
                    },
                }
            } else {
                &&& final(self).same_as(*old(self))
                &&& res == if old(self).exit_view().contains_key(id@) {
                    ProcessStatus::Exited { code: old(self).exit_view()[id@].code }
                } else {
                    ProcessStatus::Stopped
                }
            },
    {
        if self.processes.contains_key(id) {
            match poll {
                ProcessCheckResult::Running => {
                    return ProcessStatus::Running;
                },
                ProcessCheckResult::Exited(code) => {
                    let name = match self.position_of(id) {
                        Some(i) => self.commands[i].name.clone(),
                        None => String::new(),
                    };
                    self.exit_info.insert(id.to_owned(), ProcessExitInfo { code, command_name: name });
                    self.forget_process(id);
                    return ProcessStatus::Exited { code };
                },
            }
        }
        match self.exit_info.get(id) {
            Some(info) => ProcessStatus::Exited { code: info.code },
            None => ProcessStatus::Stopped,
        }
    }

    /// The buffered log lines of command `id`, oldest first.
    pub fn do_get_logs(&self, id: &str) -> (res: Vec<LogLine>)
        requires
            self.wf(),
        ensures
            res@ == if self.logs_view().contains_key(id@) {
                self.logs_view()[id@].lines@
            } else {
                Seq::<LogLine>::empty()
            },
    {
        let mut res: Vec<LogLine> = Vec::new();
        match self.logs.get(id) {
            Some(buf) => {
                let n = buf.lines.len();
                let mut i: usize = 0;
                while i < n
                    invariant
                        n == buf.lines@.len(),
                        i <= n,
                        res@ == buf.lines@.take(i as int),
                    decreases n - i,
                {
                    res.push(buf.lines[i].clone());
                    i += 1;
                    assert(res@ =~= buf.lines@.take(i as int));
                }
                assert(res@ =~= buf.lines@);
                res
            },
            None => res,
        }
    }

    /// Appends a captured line to the log buffer of command `id`, if it has one.
    pub fn append_log(&mut self, id: &str, line: LogLine)
        requires
            old(self).wf(),
        ensures
            final(self).wf(),
            final(self).logs_view() == if old(self).logs_view().contains_key(id@) {
                old(self).logs_view().insert(id@, final(self).logs_view()[id@])
            } else {
                old(self).logs_view()
            },
            old(self).logs_view().contains_key(id@) ==> final(self).logs_view()[id@].lines@
                == crate::types::log_push(
                old(self).logs_view()[id@].lines@,
                old(self).logs_view()[id@].max_lines as nat,
                line,
            ) && final(self).logs_view()[id@].max_lines == old(self).logs_view()[id@].max_lines,
            final(self).commands_view() == old(self).commands_view(),
            final(self).processes_view() == old(self).processes_view(),
            final(self).process_ids() == old(self).process_ids(),
            final(self).exit_view() == old(self).exit_view(),
            final(self).health_view() == old(self).health_view(),
            final(self).settings() == old(self).settings(),
    {
        match self.logs.remove(id) {
            Some(mut buf) => {
                buf.push(line);
                self.logs.insert(id.to_owned(), buf);
                assert(self.logs_view() =~= old(self).logs_view().insert(id@, self.logs_view()[id@]));
            },
            None => {},
        }
    }

    /// A copy of the shell settings.
    pub fn do_get_shell_settings(&self) -> (res: ShellSettings)
        ensures
            res == self.settings(),
    {
        self.shell_settings.clone()
    }

    /// Replaces the shell settings.
    pub fn do_update_shell_settings(&mut self, shell_path: Option<String>, init_script: Option<String>)
        requires
            old(self).wf(),
        ensures
            final(self).wf(),
            final(self).settings() == (ShellSettings { shell_path, init_script }),
            final(self).commands_view() == old(self).commands_view(),
            final(self).processes_view() == old(self).processes_view(),
            final(self).process_ids() == old(self).process_ids(),
            final(self).exit_view() == old(self).exit_view(),
            final(self).logs_view() == old(self).logs_view(),
            final(self).health_view() == old(self).health_view(),
    {
        self.shell_settings = ShellSettings { shell_path, init_script };
    }

    /// The last health check result of command `id`, `Unknown` when there is none.
    pub fn get_health(&self, id: &str) -> (res: HealthStatus)
        requires
            self.wf(),
        ensures
            res == if self.health_view().contains_key(id@) {
                self.health_view()[id@]
            } else {
                HealthStatus::Unknown
            },
    {
        match self.health.get(id) {
            Some(h) => *h,
            None => HealthStatus::Unknown,
        }
    }

    /// The names of the commands with a running process, in the order in which
    /// their processes were started.
    pub fn get_running_commands(&self) -> (res: Vec<String>)
        requires
            self.wf(),
        ensures
            res@.map_values(|s: String| s@) == running_names(self.commands_view(), self.process_ids()),
    {
        let n = self.processes.len();
        let mut res: Vec<String> = Vec::new();
        let mut i: usize = 0;
        while i < n
            invariant
                n == self.process_ids().len(),
                i <= n,
                self.wf(),
                res@.map_values(|s: String| s@) == running_names(
                    self.commands_view(),
                    self.process_ids().take(i as int),
                ),
            decreases n - i,
        {
            let key = self.processes.key_at(i);
            let ghost prev = res@;
            match self.position_of(key.as_str()) {
                Some(j) => {
                    res.push(self.commands[j].name.clone());
                },
                None => {},
            }
            proof {
                assert(self.process_ids().take(i + 1).drop_last() =~= self.process_ids().take(i as int));
                assert(res@.map_values(|s: String| s@) =~= running_names(
                    self.commands_view(),
                    self.process_ids().take(i + 1),
                ));
            }
            i += 1;
        }
        assert(self.process_ids().take(n as int) =~= self.process_ids());
        res
    }

    /// Stops tracking every process; returns their process groups, to be
    /// terminated, in the order in which they were started.
    pub fn drain_processes(&mut self) -> (res: Vec<i32>)
        requires
            old(self).wf(),
        ensures
            final(self).wf(),
            res@ == old(self).pgids_view(),
            final(self).processes_view() == Map::<Seq<char>, i32>::empty(),
            final(self).process_ids() == Seq::<Seq<char>>::empty(),
            final(self).commands_view() == old(self).commands_view(),
            final(self).exit_view() == old(self).exit_view(),
            final(self).logs_view() == old(self).logs_view(),
            final(self).health_view() == old(self).health_view(),
            final(self).settings() == old(self).settings(),
    {
        let res = self.running_pgids();
        self.processes = KeyedTable::new();
        res
    }

    /// Adds a new command, with a fresh id, not started at launch; missing
    /// optional fields take their defaults. Returns a copy of it.
    pub fn add_command(
        &mut self,
        name: String,
        cwd: String,
        command: String,
        env: Option<Vec<EnvVar>>,
        health_check_url: Option<String>,
        command_type: Option<CommandType>,
        tags: Option<Vec<String>>,
    ) -> (res: CommandEntry)
        requires
            old(self).wf(),
        ensures
            final(self).wf(),
            is_uuid_v4_text(res@.id),
            res@ == entry_from(res@.id, name@, cwd@, command@, false, env, health_check_url, command_type, tags),
            final(self).commands_view() == old(self).commands_view().push(res@),
            final(self).processes_view() == old(self).processes_view(),
            final(self).process_ids() == old(self).process_ids(),
            final(self).exit_view() == old(self).exit_view(),
            final(self).logs_view() == old(self).logs_view(),
            final(self).health_view() == old(self).health_view(),
            final(self).settings() == old(self).settings(),
    {
        let entry = CommandEntry {
            id: new_command_id(),
            name,
            cwd,
            command,
            enabled: false,
            env: match env {
                Some(e) => e,
                None => Vec::new(),
            },
            health_check_url,
            command_type: match command_type {
                Some(t) => t,
                None => CommandType::Process,
            },
            tags: match tags {
                Some(t) => t,
                None => Vec::new(),
            },
        };
        proof {
            assert(strings_view(entry.tags@) =~= entry_from(entry.id@, name@, cwd@, command@, false, env, health_check_url, command_type, tags).tags);
            assert(entry.env@ =~= entry_from(entry.id@, name@, cwd@, command@, false, env, health_check_url, command_type, tags).env);
        }
        let res = entry.clone();
        self.commands.push(entry);
        assert(self.commands_view() =~= old(self).commands_view().push(res@));
        res
    }

    /// Adds a new command with no environment variables and no health check.
    pub fn do_add_command(
        &mut self,
        name: String,
        cwd: String,
        command: String,
        command_type: Option<CommandType>,
        tags: Option<Vec<String>>,
    ) -> (res: CommandEntry)
        requires
            old(self).wf(),
        ensures
            final(self).wf(),
            is_uuid_v4_text(res@.id),
            res@ == entry_from(res@.id, name@, cwd@, command@, false, None, None, command_type, tags),
            final(self).commands_view() == old(self).commands_view().push(res@),
            final(self).processes_view() == old(self).processes_view(),
            final(self).process_ids() == old(self).process_ids(),
            final(self).exit_view() == old(self).exit_view(),
            final(self).logs_view() == old(self).logs_view(),
            final(self).health_view() == old(self).health_view(),
            final(self).settings() == old(self).settings(),
    {
        self.add_command(name, cwd, command, None, None, command_type, tags)
    }

    /// Replaces the fields of the first command whose id is `id`; missing
    /// optional fields take their defaults.
    pub fn update_command(
        &mut self,
        id: &str,
        name: String,
        cwd: String,
        command: String,
        enabled: bool,
        env: Option<Vec<EnvVar>>,
        health_check_url: Option<String>,
        command_type: Option<CommandType>,
        tags: Option<Vec<String>>,
    ) -> (res: Result<(), String>)
        requires
            old(self).wf(),
        ensures
            final(self).wf(),
            match find_entry(old(self).commands_view(), id@) {
                None => res == Err::<(), String>(res->Err_0) && res->Err_0@ == "Command not found"@
                    && final(self).same_as(*old(self)),
                Some(e) => res is Ok && final(self).commands_view() == old(self).commands_view().update(
                    first_index(old(self).commands_view(), id@),
                    entry_from(id@, name@, cwd@, command@, enabled, env, health_check_url, command_type, tags),
                ),
            },
            final(self).processes_view() == old(self).processes_view(),
            final(self).process_ids() == old(self).process_ids(),
            final(self).exit_view() == old(self).exit_view(),
            final(self).logs_view() == old(self).logs_view(),
            final(self).health_view() == old(self).health_view(),
            final(self).settings() == old(self).settings(),
    {
        match self.position_of(id) {
            None => Err("Command not found".to_owned()),
            Some(i) => {
                let entry = CommandEntry {
                    id: self.commands[i].id.clone(),
                    name,
                    cwd,
                    command,
                    enabled,
                    env: match env {
                        Some(e) => e,
                        None => Vec::new(),
                    },
                    health_check_url,
                    command_type: match command_type {
                        Some(t) => t,
                        None => CommandType::Process,
                    },
                    tags: match tags {
                        Some(t) => t,
                        None => Vec::new(),
                    },
                };
                proof {
                    assert(strings_view(entry.tags@) =~= entry_from(id@, name@, cwd@, command@, enabled, env, health_check_url, command_type, tags).tags);
                    assert(entry.env@ =~= entry_from(id@, name@, cwd@, command@, enabled, env, health_check_url, command_type, tags).env);
                }
                self.commands.set(i, entry);
                assert(self.commands_view() =~= old(self).commands_view().update(
                    i as int,
                    entry_from(id@, name@, cwd@, command@, enabled, env, health_check_url, command_type, tags),
                ));
                Ok(())
            },
        }
    }

    /// Removes every trace of command `id`: its configuration, process, exit
    /// record, logs and health. Returns the process group to terminate, if it
    /// had a running process.
    pub fn delete_command(&mut self, id: &str) -> (res: Option<i32>)
        requires
            old(self).wf(),
        ensures
            final(self).wf(),
            res == if old(self).processes_view().contains_key(id@) {
                Some(old(self).processes_view()[id@])
            } else {
                None::<i32>
            },
            final(self).commands_view() == commands_without(old(self).commands_view(), id@),
            final(self).processes_view() == old(self).processes_view().remove(id@),
            final(self).process_ids() == without(old(self).process_ids(), id@),
            final(self).exit_view() == old(self).exit_view().remove(id@),
            final(self).logs_view() == old(self).logs_view().remove(id@),
            final(self).health_view() == old(self).health_view().remove(id@),
            final(self).settings() == old(self).settings(),
    {
        let pgid = self.forget_process(id);
        self.exit_info.remove(id);
        self.logs.remove(id);
        self.health.remove(id);
        let key = id.to_owned();
        let mut kept: Vec<CommandEntry> = Vec::new();
        let mut old_cmds: Vec<CommandEntry> = Vec::new();
        std::mem::swap(&mut old_cmds, &mut self.commands);
        let n = old_cmds.len();
        let mut i: usize = 0;
        while i < n
            invariant
                n == old_cmds@.len(),
                i <= n,
                key@ == id@,
                entries_view(old_cmds@) == old(self).commands_view(),
                entries_view(kept@) == commands_without(entries_view(old_cmds@).take(i as int), id@),
            decreases n - i,
        {
            let ghost prev = entries_view(kept@);
            if old_cmds[i].id != key {
                kept.push(old_cmds[i].clone());
            }
            proof {
                let t = entries_view(old_cmds@).take(i + 1);
                assert(t.drop_last() =~= entries_view(old_cmds@).take(i as int));
                assert(entries_view(kept@) =~= commands_without(t, id@));
            }
            i += 1;
        }
        assert(entries_view(old_cmds@).take(n as int) =~= entries_view(old_cmds@));
        self.commands = kept;
        pgid
    }

    /// The id of the command that `name_or_id` designates: the command with
    /// that id, else the one command whose name matches without regard to case.
    pub fn resolve_command_id(&self, name_or_id: &str) -> (res: Result<String, String>)
        ensures
            match res {
                Ok(s) => resolve_spec(self.commands_view(), name_or_id@) == Ok::<Seq<char>, Seq<char>>(s@),
                Err(s) => resolve_spec(self.commands_view(), name_or_id@) == Err::<Seq<char>, Seq<char>>(s@),
            },
    {
        if self.position_of(name_or_id).is_some() {
            return Ok(name_or_id.to_owned());
        }
        let key = to_lowercase(name_or_id);
        let mut matches: Vec<usize> = Vec::new();
        let n = self.commands.len();
        let mut i: usize = 0;
        while i < n
            invariant
                n == self.commands@.len(),
                i <= n,
                key@ == lowercase(name_or_id@),
                matches@.len() == name_matches(self.commands_view().take(i as int), name_or_id@).len(),
                forall|j: int| 0 <= j < matches@.len() ==> #[trigger] matches@[j] < n
                    && self.commands_view()[matches@[j] as int] == name_matches(
                    self.commands_view().take(i as int),
                    name_or_id@,
                )[j],
            decreases n - i,
        {
            let lower = to_lowercase(self.commands[i].name.as_str());
            let ghost prev = matches@;
            if lower == key {
                matches.push(i);
            }
            proof {
                let t = self.commands_view().take(i + 1);
                assert(t.drop_last() =~= self.commands_view().take(i as int));
                assert(t.last() == self.commands_view()[i as int]);
            }
            i += 1;
        }
        assert(self.commands_view().take(n as int) =~= self.commands_view());
        let ghost ms = name_matches(self.commands_view(), name_or_id@);
        if matches.len() == 0 {
            let mut msg = String::new();
            push_str(&mut msg, "No command found matching '");
            push_str(&mut msg, name_or_id);
            push_str(&mut msg, "'");
            return Err(msg);
        }
        if matches.len() == 1 {
            return Ok(self.commands[matches[0]].id.clone());
        }
        let mut msg = String::new();
        push_str(&mut msg, "Ambiguous name '");
        push_str(&mut msg, name_or_id);
        push_str(&mut msg, "'. Matches:\n");
        let ghost head = msg@;
        let mut k: usize = 0;
        while k < matches.len()
            invariant
                2 <= matches@.len() == ms.len(),
                k <= matches@.len(),
                forall|j: int| 0 <= j < matches@.len() ==> #[trigger] matches@[j] < self.commands@.len()
                    && self.commands_view()[matches@[j] as int] == ms[j],
                msg@ == head + match_lines(ms.take(k as int)),
            decreases matches@.len() - k,
        {
            let c = &self.commands[matches[k]];
            if k > 0 {
                push_str(&mut msg, "\n");
            }
            push_str(&mut msg, "  ");
            push_str(&mut msg, c.name.as_str());
            push_str(&mut msg, " (");
            push_str(&mut msg, c.id.as_str());
            push_str(&mut msg, ")");
            proof {
                reveal_strlit("\n");
                reveal_strlit("  ");
                reveal_strlit(" (");
                reveal_strlit(")");
                let t = ms.take(k + 1);
                assert(t.drop_last() =~= ms.take(k as int));
                assert(t.last() == ms[k as int]);
                if k == 0 {
                    assert(match_lines(ms.take(0)) =~= Seq::<char>::empty());
                    assert(t.len() == 1);
                    assert(t[0] == ms[0]);
                }
                assert(msg@ =~= head + match_lines(t));
            }
            k += 1;
        }
        assert(ms.take(matches@.len() as int) =~= ms);
        Err(msg)
    }
    /// One round of the process monitor. `polls` holds what polling each
    /// tracked process found. Every process found exited is forgotten and its
    /// exit recorded under its command's name; one event per such process is
    /// returned, in the order in which the processes were started.
    pub fn monitor_tick(&mut self, polls: &KeyedTable<ProcessCheckResult>) -> (res: Vec<ExitEvent>)
        requires
            old(self).wf(),
            polls.wf(),
        ensures
            final(self).wf(),
            res@.len() == exited_ids(old(self).process_ids(), polls.view()).len(),
            forall|i: int|
                #![trigger res@[i]]
                0 <= i < res@.len() ==> {
                    let id = exited_ids(old(self).process_ids(), polls.view())[i];
                    &&& res@[i].id@ == id
                    &&& res@[i].code == exit_code_of(poll_of(polls.view(), id))
                    &&& res@[i].name@ == name_of(old(self).commands_view(), id)
                    &&& opt_view(res@[i].notification) == exit_notification(
                        name_of(old(self).commands_view(), id),
                        exit_code_of(poll_of(polls.view(), id)),
                    )
                },
            final(self).processes_view() == old(self).processes_view().remove_keys(
                exited_ids(old(self).process_ids(), polls.view()).to_set(),
            ),
            final(self).process_ids() == without_all(
                old(self).process_ids(),
                exited_ids(old(self).process_ids(), polls.view()),
            ),
            forall|k: Seq<char>|
                #![trigger final(self).exit_view().contains_key(k)]
                final(self).exit_view().contains_key(k) <==> (old(self).exit_view().contains_key(k)
                    || exited_ids(old(self).process_ids(), polls.view()).contains(k)),
            forall|k: Seq<char>|
                #![trigger final(self).exit_view()[k]]
                exited_ids(old(self).process_ids(), polls.view()).contains(k) ==> final(self).exit_view()[k].code
                    == exit_code_of(poll_of(polls.view(), k)) && final(self).exit_view()[k].command_name@
                    == name_of(old(self).commands_view(), k),
            forall|k: Seq<char>|
                #![trigger final(self).exit_view()[k]]
                !exited_ids(old(self).process_ids(), polls.view()).contains(k) && old(self).exit_view().contains_key(k)
                    ==> final(self).exit_view()[k] == old(self).exit_view()[k],
            final(self).commands_view() == old(self).commands_view(),
            final(self).logs_view() == old(self).logs_view(),
            final(self).health_view() == old(self).health_view(),
            final(self).settings() == old(self).settings(),
    {
        let ghost ids = self.process_ids();
        let ghost pv = polls.view();
        let n = self.processes.len();
        let mut ex_ids: Vec<String> = Vec::new();
        let mut codes: Vec<Option<i32>> = Vec::new();
        let mut i: usize = 0;
        while i < n
            invariant
                n == ids.len(),
                ids == self.process_ids(),
                pv == polls.view(),
                polls.wf(),
                self.wf(),
                i <= n,
                ex_ids@.len() == codes@.len(),
                strings_view(ex_ids@) == exited_ids(ids.take(i as int), pv),
                forall|j: int|
                    0 <= j < codes@.len() ==> #[trigger] codes@[j] == exit_code_of(poll_of(pv, ex_ids@[j]@)),
            decreases n - i,
        {
            let key = self.processes.key_at(i);
            let p = match polls.get(key.as_str()) {
                Some(p) => *p,
                None => ProcessCheckResult::Running,
            };
            proof {
                let t = ids.take(i + 1);
                assert(t.drop_last() =~= ids.take(i as int));
                assert(t.last() == key@);
            }
            match p {
                ProcessCheckResult::Exited(code) => {
                    ex_ids.push(key.clone());
                    codes.push(code);
                    assert(strings_view(ex_ids@) =~= exited_ids(ids.take(i + 1), pv));
                },
                ProcessCheckResult::Running => {
                    assert(strings_view(ex_ids@) =~= exited_ids(ids.take(i + 1), pv));
                },
            }
            i += 1;
        }
        assert(ids.take(n as int) =~= ids);
        let ghost ex = exited_ids(ids, pv);
        let ghost cmds = self.commands_view();
        let ghost old_exit = self.exit_view();
        let ghost old_procs = self.processes_view();
        let mut events: Vec<ExitEvent> = Vec::new();
        let m = ex_ids.len();
        let mut j: usize = 0;
        while j < m
            invariant
                m == ex_ids@.len() == codes@.len() == ex.len(),
                strings_view(ex_ids@) == ex,
                forall|q: int|
                    0 <= q < codes@.len() ==> #[trigger] codes@[q] == exit_code_of(poll_of(pv, ex_ids@[q]@)),
                j <= m,
                self.wf(),
                self.commands_view() == cmds,
                self.logs_view() == old(self).logs_view(),
                self.health_view() == old(self).health_view(),
                self.settings() == old(self).settings(),
                self.processes_view() == old_procs.remove_keys(ex.take(j as int).to_set()),
                self.process_ids() == without_all(ids, ex.take(j as int)),
                forall|k: Seq<char>|
                    #![trigger self.exit_view().contains_key(k)]
                    self.exit_view().contains_key(k) <==> (old_exit.contains_key(k) || ex.take(
                        j as int,
                    ).contains(k)),
                forall|k: Seq<char>|
                    #![trigger self.exit_view()[k]]
                    ex.take(j as int).contains(k) ==> self.exit_view()[k].code == exit_code_of(poll_of(pv, k))
                        && self.exit_view()[k].command_name@ == name_of(cmds, k),
                forall|k: Seq<char>|
                    #![trigger self.exit_view()[k]]
                    !ex.take(j as int).contains(k) && old_exit.contains_key(k) ==> self.exit_view()[k]
                        == old_exit[k],
                events@.len() == j,
                forall|i: int|
                    #![trigger events@[i]]
                    0 <= i < j ==> {
                        let id = ex[i];
                        &&& events@[i].id@ == id
                        &&& events@[i].code == exit_code_of(poll_of(pv, id))
                        &&& events@[i].name@ == name_of(cmds, id)
                        &&& opt_view(events@[i].notification) == exit_notification(
                            name_of(cmds, id),
                            exit_code_of(poll_of(pv, id)),
                        )
                    },
            decreases m - j,
        {
            let id = &ex_ids[j];
            let code = codes[j];
            let ghost pre_exit = self.exit_view();
            assert(ex[j as int] == id@);
            let name = match self.position_of(id.as_str()) {
                Some(p) => self.commands[p].name.clone(),
                None => String::new(),
            };
            self.exit_info.insert(id.clone(), ProcessExitInfo { code, command_name: name.clone() });
            self.forget_process(id.as_str());
            let notification = match code {
                Some(c) => if c == 0 {
                    None
                } else {
                    let mut msg = String::new();
                    push_str(&mut msg, "\"");
                    push_str(&mut msg, name.as_str());
                    push_str(&mut msg, "\" exited with code ");
                    push_signed_decimal(&mut msg, c as i64);
                    proof {
                        reveal_strlit("\"");
                        assert(msg@ =~= seq!['"'] + name@ + "\" exited with code "@ + signed_decimal(c as int));
                    }
                    Some(msg)
                },
                None => {
                    let mut msg = String::new();
                    push_str(&mut msg, "\"");
                    push_str(&mut msg, name.as_str());
                    push_str(&mut msg, "\" was terminated");
                    proof {
                        reveal_strlit("\"");
                        assert(msg@ =~= seq!['"'] + name@ + "\" was terminated"@);
                    }
                    Some(msg)
                },
            };
            events.push(ExitEvent { id: id.clone(), code, name, notification });
            proof {
                let t = ex.take(j + 1);
                let u = ex.take(j as int);
                assert(t =~= u.push(id@));
                assert(t.drop_last() =~= u);
                assert forall|k: Seq<char>| t.contains(k) <==> (u.contains(k) || k == id@) by {
                    if t.contains(k) && k != id@ {
                        let q = choose|q: int| 0 <= q < t.len() && t[q] == k;
                        assert(u[q] == k);
                    }
                    if u.contains(k) {
                        let q = choose|q: int| 0 <= q < u.len() && u[q] == k;
                        assert(t[q] == k);
                    }
                    assert(t[j as int] == id@);
                }
                assert(self.processes_view() =~= old_procs.remove_keys(t.to_set()));
                assert(name@ == name_of(cmds, id@));
                assert(code == exit_code_of(poll_of(pv, id@)));
                assert forall|k: Seq<char>|
                    #![trigger self.exit_view().contains_key(k)]
                    self.exit_view().contains_key(k) <==> (old_exit.contains_key(k) || t.contains(k)) by {
                    assert(t.contains(k) <==> (u.contains(k) || k == id@));
                    assert(pre_exit.contains_key(k) <==> (old_exit.contains_key(k) || u.contains(k)));
                }
                assert forall|k: Seq<char>|
                    #![trigger self.exit_view()[k]]
                    t.contains(k) implies self.exit_view()[k].code == exit_code_of(poll_of(pv, k))
                        && self.exit_view()[k].command_name@ == name_of(cmds, k) by {
                    assert(t.contains(k) <==> (u.contains(k) || k == id@));
                    if k != id@ {
                        assert(pre_exit[k].code == exit_code_of(poll_of(pv, k)));
                    }
                }
                assert forall|k: Seq<char>|
                    #![trigger self.exit_view()[k]]
                    !t.contains(k) && old_exit.contains_key(k) implies self.exit_view()[k] == old_exit[k] by {
                    assert(t.contains(k) <==> (u.contains(k) || k == id@));
                    assert(pre_exit[k] == old_exit[k]);
                }
            }
            j += 1;
        }
        assert(ex.take(m as int) =~= ex);
        events
    }
    /// The health checks to run: one per command with a health check URL, in
    /// order.
    pub fn plan_health_checks(&self) -> (res: Vec<HealthCheck>)
        requires
            self.wf(),
        ensures
            res@.len() == health_targets(self.commands_view()).len(),
            forall|i: int|
                #![trigger res@[i]]
                0 <= i < res@.len() ==> {
                    let c = health_targets(self.commands_view())[i];
                    &&& res@[i].id@ == c.id
                    &&& health_action_for(
                        res@[i].action,
                        c.health_check_url->Some_0,
                        self.processes_view().contains_key(c.id),
                    )
                },
    {
        let n = self.commands.len();
        let mut res: Vec<HealthCheck> = Vec::new();
        let mut i: usize = 0;
        while i < n
            invariant
                n == self.commands@.len(),
                i <= n,
                self.wf(),
                res@.len() == health_targets(self.commands_view().take(i as int)).len(),
                forall|q: int|
                    #![trigger res@[q]]
                    0 <= q < res@.len() ==> {
                        let c = health_targets(self.commands_view().take(i as int))[q];
                        &&& res@[q].id@ == c.id
                        &&& health_action_for(
                            res@[q].action,
                            c.health_check_url->Some_0,
                            self.processes_view().contains_key(c.id),
                        )
                    },
            decreases n - i,
        {
            let c = &self.commands[i];
            proof {
                let t = self.commands_view().take(i + 1);
                assert(t.drop_last() =~= self.commands_view().take(i as int));
                assert(t.last() == c@);
            }
            match &c.health_check_url {
                Some(url) => {
                    let action = if !self.processes.contains_key(c.id.as_str()) {
                        HealthAction::Record(HealthStatus::Unknown)
                    } else if !(starts_with(url.as_str(), "http://") || starts_with(url.as_str(), "https://")) {
                        HealthAction::Record(HealthStatus::Unhealthy)
                    } else {
                        HealthAction::Probe(url.clone())
                    };
                    res.push(HealthCheck { id: c.id.clone(), action });
                },
                None => {},
            }
            i += 1;
        }
        assert(self.commands_view().take(n as int) =~= self.commands_view());
        res
    }

    /// Records health results, in order.
    pub fn apply_health_updates(&mut self, updates: &Vec<HealthUpdate>)
        requires
            old(self).wf(),
        ensures
            final(self).wf(),
            final(self).health_view() == apply_health(old(self).health_view(), updates@),
            final(self).commands_view() == old(self).commands_view(),
            final(self).processes_view() == old(self).processes_view(),
            final(self).process_ids() == old(self).process_ids(),
            final(self).exit_view() == old(self).exit_view(),
            final(self).logs_view() == old(self).logs_view(),
            final(self).settings() == old(self).settings(),
    {
        let n = updates.len();
        let mut i: usize = 0;
        while i < n
            invariant
                n == updates@.len(),
                i <= n,
                self.wf(),
                self.health_view() == apply_health(old(self).health_view(), updates@.take(i as int)),
                self.commands_view() == old(self).commands_view(),
                self.processes_view() == old(self).processes_view(),
                self.process_ids() == old(self).process_ids(),
                self.exit_view() == old(self).exit_view(),
                self.logs_view() == old(self).logs_view(),
                self.settings() == old(self).settings(),
            decreases n - i,
        {
            self.health.insert(updates[i].id.clone(), updates[i].status);
            proof {
                let t = updates@.take(i + 1);
                assert(t.drop_last() =~= updates@.take(i as int));
            }
            i += 1;
        }
        assert(updates@.take(n as int) =~= updates@);
    }

    /// Gives each command that starts at launch a fresh log buffer and returns
    /// how to launch each of them, in order. `env_shell` is the value of `$SHELL`.
    pub fn auto_start_enabled_commands(&mut self, env_shell: Option<String>) -> (res: Vec<AutoStart>)
        requires
            old(self).wf(),
        ensures
            final(self).wf(),
            res@.len() == autostart_targets(old(self).commands_view()).len(),
            forall|i: int|
                #![trigger res@[i]]
                0 <= i < res@.len() ==> {
                    let c = autostart_targets(old(self).commands_view())[i];
                    &&& res@[i].id@ == c.id
                    &&& plans_entry(res@[i].plan, c, old(self).settings(), opt_view(env_shell))
                },
            forall|k: Seq<char>|
                #![trigger final(self).logs_view().contains_key(k)]
                final(self).logs_view().contains_key(k) <==> (old(self).logs_view().contains_key(k)
                    || ids_of(autostart_targets(old(self).commands_view())).contains(k)),
            forall|k: Seq<char>|
                #![trigger final(self).logs_view()[k]]
                ids_of(autostart_targets(old(self).commands_view())).contains(k) ==> is_fresh_log(
                    final(self).logs_view()[k],
                ),
            forall|k: Seq<char>|
                #![trigger final(self).logs_view()[k]]
                !ids_of(autostart_targets(old(self).commands_view())).contains(k) && old(
                    self,
                ).logs_view().contains_key(k) ==> final(self).logs_view()[k] == old(self).logs_view()[k],
            final(self).commands_view() == old(self).commands_view(),
            final(self).processes_view() == old(self).processes_view(),
            final(self).process_ids() == old(self).process_ids(),
            final(self).exit_view() == old(self).exit_view(),
            final(self).health_view() == old(self).health_view(),
            final(self).settings() == old(self).settings(),
    {
        let ghost cmds = self.commands_view();
        let ghost old_logs = self.logs_view();
        let n = self.commands.len();
        let mut res: Vec<AutoStart> = Vec::new();
        let mut i: usize = 0;
        while i < n
            invariant
                n == self.commands@.len(),
                i <= n,
                self.wf(),
                cmds == self.commands_view(),
                self.processes_view() == old(self).processes_view(),
                self.process_ids() == old(self).process_ids(),
                self.exit_view() == old(self).exit_view(),
                self.health_view() == old(self).health_view(),
                self.settings() == old(self).settings(),
                res@.len() == autostart_targets(cmds.take(i as int)).len(),
                forall|q: int|
                    #![trigger res@[q]]
                    0 <= q < res@.len() ==> {
                        let c = autostart_targets(cmds.take(i as int))[q];
                        &&& res@[q].id@ == c.id
                        &&& plans_entry(res@[q].plan, c, old(self).settings(), opt_view(env_shell))
                    },
                forall|k: Seq<char>|
                    #![trigger self.logs_view().contains_key(k)]
                    self.logs_view().contains_key(k) <==> (old_logs.contains_key(k) || ids_of(
                        autostart_targets(cmds.take(i as int)),
                    ).contains(k)),
                forall|k: Seq<char>|
                    #![trigger self.logs_view()[k]]
                    ids_of(autostart_targets(cmds.take(i as int))).contains(k) ==> is_fresh_log(self.logs_view()[k]),
                forall|k: Seq<char>|
                    #![trigger self.logs_view()[k]]
                    !ids_of(autostart_targets(cmds.take(i as int))).contains(k) && old_logs.contains_key(k)
                        ==> self.logs_view()[k] == old_logs[k],
            decreases n - i,
        {
            let ghost pre_logs = self.logs_view();
            let ghost before = autostart_targets(cmds.take(i as int));
            proof {
                let t = cmds.take(i + 1);
                assert(t.drop_last() =~= cmds.take(i as int));
                assert(t.last() == self.commands@[i as int]@);
            }
            if self.commands[i].enabled && self.commands[i].command_type == CommandType::Process {
                let entry = self.commands[i].clone();
                self.logs.insert(entry.id.clone(), LogBuffer::new(LOG_CAPACITY));
                let plan = self.plan_for(&entry, clone_opt_string(&env_shell));
                res.push(AutoStart { id: entry.id, plan });
                proof {
                    let after = autostart_targets(cmds.take(i + 1));
                    assert(after == before.push(entry@));
                    assert(ids_of(after) =~= ids_of(before).push(entry@.id));
                    assert forall|k: Seq<char>| ids_of(after).contains(k) <==> (ids_of(before).contains(k) || k == entry@.id) by {
                        if ids_of(after).contains(k) && k != entry@.id {
                            let q = choose|q: int| 0 <= q < ids_of(after).len() && ids_of(after)[q] == k;
                            assert(ids_of(before)[q] == k);
                        }
                        if ids_of(before).contains(k) {
                            let q = choose|q: int| 0 <= q < ids_of(before).len() && ids_of(before)[q] == k;
                            assert(ids_of(after)[q] == k);
                        }
                        assert(ids_of(after)[before.len() as int] == entry@.id);
                    }
                    assert forall|k: Seq<char>|
                        #![trigger self.logs_view().contains_key(k)]
                        self.logs_view().contains_key(k) <==> (old_logs.contains_key(k) || ids_of(after).contains(k)) by {
                        assert(pre_logs.contains_key(k) <==> (old_logs.contains_key(k) || ids_of(before).contains(k)));
                    }
                    assert forall|k: Seq<char>|
                        #![trigger self.logs_view()[k]]
                        ids_of(after).contains(k) implies is_fresh_log(self.logs_view()[k]) by {
                        if k != entry@.id {
                            assert(is_fresh_log(pre_logs[k]));
                        }
                    }
                    assert forall|k: Seq<char>|
                        #![trigger self.logs_view()[k]]
                        !ids_of(after).contains(k) && old_logs.contains_key(k) implies self.logs_view()[k] == old_logs[k] by {
                        assert(pre_logs[k] == old_logs[k]);
                    }
                }
            }
            i += 1;
        }
        assert(cmds.take(n as int) =~= cmds);
        res
    }
    /// The entries of the tray's list of active commands: the id and name of
    /// each command with a running process, in the order in which the
    /// processes were started.
    pub fn running_menu_items(&self) -> (res: Vec<TrayItem>)
        requires
            self.wf(),
        ensures
            res@.map_values(|p: TrayItem| p.name@) == running_names(self.commands_view(), self.process_ids()),
            res@.map_values(|p: TrayItem| p.id@) == running_ids(self.commands_view(), self.process_ids()),
    {
        let n = self.processes.len();
        let mut res: Vec<TrayItem> = Vec::new();
        let mut i: usize = 0;
        while i < n
            invariant
                n == self.process_ids().len(),
                i <= n,
                self.wf(),
                res@.map_values(|p: TrayItem| p.name@) == running_names(
                    self.commands_view(),
                    self.process_ids().take(i as int),
                ),
                res@.map_values(|p: TrayItem| p.id@) == running_ids(
                    self.commands_view(),
                    self.process_ids().take(i as int),
                ),
            decreases n - i,
        {
            let key = self.processes.key_at(i);
            match self.position_of(key.as_str()) {
                Some(j) => {
                    res.push(TrayItem { id: self.commands[j].id.clone(), name: self.commands[j].name.clone() });
                },
                None => {},
            }
            proof {
                assert(self.process_ids().take(i + 1).drop_last() =~= self.process_ids().take(i as int));
                assert(res@.map_values(|p: TrayItem| p.name@) =~= running_names(
                    self.commands_view(),
                    self.process_ids().take(i + 1),
                ));
                assert(res@.map_values(|p: TrayItem| p.id@) =~= running_ids(
                    self.commands_view(),
                    self.process_ids().take(i + 1),
                ));
            }
            i += 1;
        }
        assert(self.process_ids().take(n as int) =~= self.process_ids());
        res
    }
    /// Whether command `id` has a tracked process.
    pub fn has_process(&self, id: &str) -> (res: bool)
        requires
            self.wf(),
        ensures
            res == self.processes_view().contains_key(id@),
    {
        self.processes.contains_key(id)
    }
}

/// What a health check response says: healthy for an HTTP status from 200 to
/// 399, unhealthy for any other status and for a failed request (`None`).
pub fn health_of_response(status: Option<u16>) -> (res: HealthStatus)
    ensures
        res == health_of_response_spec(status),
{
    match status {
        Some(s) => if 200 <= s && s < 400 {
            HealthStatus::Healthy
        } else {
            HealthStatus::Unhealthy
        },
        None => HealthStatus::Unhealthy,
    }
}

/// The results of a round of health checks: `responses[i]` is what fetching
/// the URL of `checks[i]` gave, when it was fetched.
pub fn collect_health_updates(checks: &Vec<HealthCheck>, responses: &Vec<Option<u16>>) -> (res: Vec<HealthUpdate>)
    requires
        checks@.len() == responses@.len(),
    ensures
        res@.len() == checks@.len(),
        forall|i: int|
            #![trigger res@[i]]
            0 <= i < res@.len() ==> res@[i].id@ == checks@[i].id@ && res@[i].status == match checks@[i].action {
                HealthAction::Record(s) => s,
                HealthAction::Probe(_) => health_of_response_spec(responses@[i]),
            },
{
    let mut res: Vec<HealthUpdate> = Vec::new();
    let mut i: usize = 0;
    while i < checks.len()
        invariant
            checks@.len() == responses@.len(),
            i <= checks@.len(),
            res@.len() == i,
            forall|q: int|
                #![trigger res@[q]]
                0 <= q < i ==> res@[q].id@ == checks@[q].id@ && res@[q].status == match checks@[q].action {
                    HealthAction::Record(s) => s,
                    HealthAction::Probe(_) => health_of_response_spec(responses@[q]),
                },
        decreases checks@.len() - i,
    {
        let status = match &checks[i].action {
            HealthAction::Record(s) => *s,
            HealthAction::Probe(_) => health_of_response(responses[i]),
        };
        res.push(HealthUpdate { id: checks[i].id.clone(), status });
        i += 1;
    }
    res
}

} // verus!
