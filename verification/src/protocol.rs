use vstd::prelude::*;
use crate::state::{
    AppState, SpawnPlan, exit_code_of, find_entry, is_fresh_log, name_of, plans_entry, poll_of, resolve_spec,
    without, without_all,
};
use crate::table::KeyedTable;
use crate::types::{
    CommandEntry, CommandEntryView, CommandType, LogLine, ProcessCheckResult, ProcessStatus, ShellSettings,
    entries_view, opt_view, strings_view,
};

verus! {

/// A request from the command line client, one per connection.
pub enum CliRequest {
    Ping,
    List,
    Start { name_or_id: String },
    Stop { name_or_id: String },
    Restart { name_or_id: String },
    Add {
        name: String,
        dir: String,
        command: String,
        command_type: Option<CommandType>,
        tags: Option<Vec<String>>,
    },
    Logs { name_or_id: String, tail: Option<usize> },
    GetSettings,
    SetSettings { shell_path: Option<String>, init_script: Option<String> },
}

/// One command in the answer to `List`, with its status.
pub struct ListEntry {
    pub id: String,
    pub name: String,
    pub command: String,
    pub cwd: String,
    pub command_type: CommandType,
    pub tags: Vec<String>,
    pub enabled: bool,
    pub status: ProcessStatus,
}

/// The payload of a successful answer.
pub enum ResponseData {
    Text(String),
    Entries(Vec<ListEntry>),
    Command(CommandEntry),
    Logs(Vec<LogLine>),
    Settings(ShellSettings),
}

/// The answer to a request.
pub enum CliResponse {
    Success { data: ResponseData },
    Failure { message: String },
}

/// What remains to do for a request after its decisions are made.
pub enum NextStep {
    /// Send this answer.
    Reply(CliResponse),
    /// Launch command `id` as `plan` says, then report the outcome with
    /// [`AppState::finish_launch`].
    Launch { id: String, plan: SpawnPlan, restart: bool },
    /// Record `pgids` in the pid file, then send `reply`.
    PersistPids { pgids: Vec<i32>, reply: CliResponse },
    /// Write the configuration with the current commands, then answer with
    /// [`saved_command_reply`].
    SaveCommands { entry: CommandEntry },
    /// Write these shell settings to the configuration, then answer with
    /// [`AppState::finish_save_settings`].
    SaveSettings { shell_path: Option<String>, init_script: Option<String> },
}

/// The decisions made for one request: a process group to terminate first,
/// and what to do next.
pub struct RequestStep {
    pub kill: Option<i32>,
    pub next: NextStep,
}

/// `r` answers with the text `t`.
pub open spec fn is_text_reply(r: CliResponse, t: Seq<char>) -> bool {
    r matches CliResponse::Success { data: ResponseData::Text(s) } && s@ == t
}

/// `r` answers with the error message `m`.
pub open spec fn is_error_reply(r: CliResponse, m: Seq<char>) -> bool {
    r matches CliResponse::Failure { message } && message@ == m
}

/// The last `n` of `lines`, or all of them when there are fewer.
pub open spec fn tail_spec(lines: Seq<LogLine>, n: nat) -> Seq<LogLine> {
    if lines.len() > n {
        lines.skip(lines.len() - n)
    } else {
        lines
    }
}

/// The status of command `id` when the running processes are `procs`, the
/// recorded exit codes are `codes` and the polls found `polls`.
pub open spec fn status_spec(
    procs: Set<Seq<char>>,
    codes: Map<Seq<char>, Option<i32>>,
    polls: Map<Seq<char>, ProcessCheckResult>,
    id: Seq<char>,
) -> ProcessStatus {
    if procs.contains(id) {
        match poll_of(polls, id) {
            ProcessCheckResult::Running => ProcessStatus::Running,
            ProcessCheckResult::Exited(c) => ProcessStatus::Exited { code: c },
        }
    } else if codes.contains_key(id) {
        ProcessStatus::Exited { code: codes[id] }
    } else {
        ProcessStatus::Stopped
    }
}

/// The statuses of the commands with ids `ids`, asked one after the other: a
/// process found exited is forgotten and its exit code recorded before the
/// next is asked.
pub open spec fn list_statuses(
    procs: Set<Seq<char>>,
    codes: Map<Seq<char>, Option<i32>>,
    polls: Map<Seq<char>, ProcessCheckResult>,
    ids: Seq<Seq<char>>,
) -> Seq<ProcessStatus>
    decreases ids.len(),
{
    if ids.len() == 0 {
        Seq::empty()
    } else {
        let id = ids[0];
        let st = status_spec(procs, codes, polls, id);
        let (procs2, codes2) = if procs.contains(id) && poll_of(polls, id) is Exited {
            (procs.remove(id), codes.insert(id, poll_of(polls, id)->Exited_0))
        } else {
            (procs, codes)
        };
        seq![st] + list_statuses(procs2, codes2, polls, ids.drop_first())
    }
}

proof fn lemma_list_statuses_len(
    procs: Set<Seq<char>>,
    codes: Map<Seq<char>, Option<i32>>,
    polls: Map<Seq<char>, ProcessCheckResult>,
    ids: Seq<Seq<char>>,
)
    ensures
        list_statuses(procs, codes, polls, ids).len() == ids.len(),
    decreases ids.len(),
{
    if ids.len() > 0 {
        let id = ids[0];
        let (procs2, codes2) = if procs.contains(id) && poll_of(polls, id) is Exited {
            (procs.remove(id), codes.insert(id, poll_of(polls, id)->Exited_0))
        } else {
            (procs, codes)
        };
        lemma_list_statuses_len(procs2, codes2, polls, ids.drop_first());
    }
}

/// The exit codes of the exit records of `s`.
pub open spec fn exit_codes(s: AppState) -> Map<Seq<char>, Option<i32>> {
    Map::new(|k: Seq<char>| s.exit_view().contains_key(k), |k: Seq<char>| s.exit_view()[k].code)
}

/// The ids among `ids` whose process is among `procs` and was found exited:
/// the processes that listing the commands with ids `ids` forgets.
pub open spec fn listed_exits(
    procs: Set<Seq<char>>,
    polls: Map<Seq<char>, ProcessCheckResult>,
    ids: Seq<Seq<char>>,
) -> Set<Seq<char>> {
    Set::new(|k: Seq<char>| procs.contains(k) && poll_of(polls, k) is Exited && ids.contains(k))
}

/// The ids of [`listed_exits`] in the order in which listing meets them.
pub open spec fn listed_exit_order(
    procs: Set<Seq<char>>,
    polls: Map<Seq<char>, ProcessCheckResult>,
    ids: Seq<Seq<char>>,
) -> Seq<Seq<char>>
    decreases ids.len(),
{
    if ids.len() == 0 {
        Seq::empty()
    } else {
        let prev = listed_exit_order(procs, polls, ids.drop_last());
        let k = ids.last();
        if procs.contains(k) && poll_of(polls, k) is Exited && !prev.contains(k) {
            prev.push(k)
        } else {
            prev
        }
    }
}

/// `s1` is `s0` after the processes `gone` were found exited and forgotten,
/// and their exits recorded under their commands' names; nothing else changed
/// but the order of the remaining processes.
pub open spec fn exits_recorded(
    s0: AppState,
    s1: AppState,
    gone: Set<Seq<char>>,
    polls: Map<Seq<char>, ProcessCheckResult>,
) -> bool {
    &&& s1.processes_view() == s0.processes_view().remove_keys(gone)
    &&& forall|k: Seq<char>|
        #![trigger s1.exit_view().contains_key(k)]
        s1.exit_view().contains_key(k) <==> (s0.exit_view().contains_key(k) || gone.contains(k))
    &&& forall|k: Seq<char>|
        #![trigger s1.exit_view()[k]]
        gone.contains(k) ==> s1.exit_view()[k].code == exit_code_of(poll_of(polls, k))
            && s1.exit_view()[k].command_name@ == name_of(s0.commands_view(), k)
    &&& forall|k: Seq<char>|
        #![trigger s1.exit_view()[k]]
        !gone.contains(k) && s0.exit_view().contains_key(k) ==> s1.exit_view()[k] == s0.exit_view()[k]
    &&& s1.commands_view() == s0.commands_view()
    &&& s1.logs_view() == s0.logs_view()
    &&& s1.health_view() == s0.health_view()
    &&& s1.settings() == s0.settings()
}

/// `e` describes command `c` with status `st`.
pub open spec fn lists_entry(e: ListEntry, c: CommandEntryView, st: ProcessStatus) -> bool {
    &&& e.id@ == c.id
    &&& e.name@ == c.name
    &&& e.command@ == c.command
    &&& e.cwd@ == c.cwd
    &&& e.command_type == c.command_type
    &&& strings_view(e.tags@) == c.tags
    &&& e.enabled == c.enabled
    &&& e.status == st
}

/// The answer to `Add`, once the configuration with the new command `entry`
/// was written (`written` is how that went): the command, or the error.
pub fn saved_command_reply(entry: CommandEntry, written: Result<(), String>) -> (res: CliResponse)
    ensures
        match written {
            Ok(_) => res matches CliResponse::Success { data: ResponseData::Command(e) } && e == entry,
            Err(m) => is_error_reply(res, m@),
        },
{
    match written {
        Ok(_) => CliResponse::Success { data: ResponseData::Command(entry) },
        Err(m) => CliResponse::Failure { message: m },
    }
}

impl AppState {
    /// The answer to `List`: every command with its status, asked one after
    /// the other as [`AppState::do_get_status`] does; `polls` holds what polling
    /// each tracked process found.
    pub fn list_entries(&mut self, polls: &KeyedTable<ProcessCheckResult>) -> (res: Vec<ListEntry>)
        requires
            old(self).wf(),
            polls.wf(),
        ensures
            final(self).wf(),
            res@.len() == old(self).commands_view().len(),
            forall|i: int|
                #![trigger res@[i]]
                0 <= i < res@.len() ==> lists_entry(
                    res@[i],
                    old(self).commands_view()[i],
                    list_statuses(
                        old(self).processes_view().dom(),
                        exit_codes(*old(self)),
                        polls.view(),
                        old(self).commands_view().map_values(|c: CommandEntryView| c.id),
                    )[i],
                ),
            exits_recorded(
                *old(self),
                *final(self),
                listed_exits(
                    old(self).processes_view().dom(),
                    polls.view(),
                    old(self).commands_view().map_values(|c: CommandEntryView| c.id),
                ),
                polls.view(),
            ),
            final(self).process_ids() == without_all(
                old(self).process_ids(),
                listed_exit_order(
                    old(self).processes_view().dom(),
                    polls.view(),
                    old(self).commands_view().map_values(|c: CommandEntryView| c.id),
                ),
            ),
    {
        let cmds = self.do_get_commands();
        let ghost ids = old(self).commands_view().map_values(|c: CommandEntryView| c.id);
        let ghost all = list_statuses(old(self).processes_view().dom(), exit_codes(*old(self)), polls.view(), ids);
        let mut res: Vec<ListEntry> = Vec::new();
        let n = cmds.len();
        let mut i: usize = 0;
        proof {
            lemma_list_statuses_len(old(self).processes_view().dom(), exit_codes(*old(self)), polls.view(), ids);
            assert(ids.skip(0) =~= ids);
            assert(Seq::<ProcessStatus>::empty() + all =~= all);
            let g = listed_exits(old(self).processes_view().dom(), polls.view(), ids.take(0));
            assert(g =~= Set::<Seq<char>>::empty());
            assert(self.processes_view() =~= old(self).processes_view().remove_keys(g));
        }
        while i < n
            invariant
                n == cmds@.len() == ids.len(),
                entries_view(cmds@) == old(self).commands_view(),
                ids == old(self).commands_view().map_values(|c: CommandEntryView| c.id),
                i <= n,
                self.wf(),
                polls.wf(),
                self.commands_view() == old(self).commands_view(),
                self.logs_view() == old(self).logs_view(),
                self.health_view() == old(self).health_view(),
                self.settings() == old(self).settings(),
                res@.len() == i,
                all.len() == n,
                res@.map_values(|e: ListEntry| e.status) + list_statuses(
                    self.processes_view().dom(),
                    exit_codes(*self),
                    polls.view(),
                    ids.skip(i as int),
                ) == all,
                forall|q: int|
                    #![trigger res@[q]]
                    0 <= q < i ==> lists_entry(res@[q], old(self).commands_view()[q], all[q]),
                exits_recorded(
                    *old(self),
                    *self,
                    listed_exits(old(self).processes_view().dom(), polls.view(), ids.take(i as int)),
                    polls.view(),
                ),
                self.process_ids() == without_all(
                    old(self).process_ids(),
                    listed_exit_order(old(self).processes_view().dom(), polls.view(), ids.take(i as int)),
                ),
                forall|k: Seq<char>|
                    #![trigger listed_exit_order(old(self).processes_view().dom(), polls.view(), ids.take(i as int)).contains(k)]
                    listed_exit_order(old(self).processes_view().dom(), polls.view(), ids.take(i as int)).contains(k)
                        <==> listed_exits(old(self).processes_view().dom(), polls.view(), ids.take(i as int)).contains(k),
            decreases n - i,
        {
            let c = &cmds[i];
            assert(c@ == old(self).commands_view()[i as int]);
            assert(ids[i as int] == c.id@);
            let ghost pre = *self;
            let poll = match polls.get(c.id.as_str()) {
                Some(p) => *p,
                None => ProcessCheckResult::Running,
            };
            let status = self.do_get_status(c.id.as_str(), poll);
            proof {
                let rest = ids.skip(i as int);
                assert(rest[0] == c.id@);
                assert(rest.drop_first() =~= ids.skip(i + 1));
                let id = c.id@;
                assert(status == status_spec(pre.processes_view().dom(), exit_codes(pre), polls.view(), id));
                if pre.processes_view().contains_key(id) && poll_of(polls.view(), id) is Exited {
                    assert(self.processes_view().dom() =~= pre.processes_view().dom().remove(id));
                    assert(exit_codes(*self) =~= exit_codes(pre).insert(id, poll_of(polls.view(), id)->Exited_0));
                } else {
                    assert(self.processes_view().dom() =~= pre.processes_view().dom());
                    assert(exit_codes(*self) =~= exit_codes(pre));
                }
                let o = old(self).processes_view().dom();
                let g0 = listed_exits(o, polls.view(), ids.take(i as int));
                let g1 = listed_exits(o, polls.view(), ids.take(i + 1));
                assert(ids.take(i + 1) =~= ids.take(i as int).push(id));
                assert forall|k: Seq<char>| ids.take(i + 1).contains(k) <==> (ids.take(i as int).contains(k) || k == id) by {
                    if ids.take(i + 1).contains(k) && k != id {
                        let q = choose|q: int| 0 <= q < i + 1 && #[trigger] ids.take(i + 1)[q] == k;
                        assert(ids.take(i as int)[q] == k);
                    }
                    if ids.take(i as int).contains(k) {
                        let q = choose|q: int| 0 <= q < i && #[trigger] ids.take(i as int)[q] == k;
                        assert(ids.take(i + 1)[q] == k);
                    }
                    assert(ids.take(i + 1)[i as int] == id);
                }
                assert(pre.processes_view().contains_key(id) <==> (o.contains(id) && !g0.contains(id)));
                let e0 = listed_exit_order(o, polls.view(), ids.take(i as int));
                let e1 = listed_exit_order(o, polls.view(), ids.take(i + 1));
                assert(ids.take(i + 1).drop_last() =~= ids.take(i as int));
                assert(e0.contains(id) <==> g0.contains(id));
                if pre.processes_view().contains_key(id) && poll_of(polls.view(), id) is Exited {
                    assert(e1 == e0.push(id));
                    assert(e1.drop_last() =~= e0);
                    assert forall|k: Seq<char>| #[trigger] e1.contains(k) <==> g1.contains(k) by {
                        if e1.contains(k) && k != id {
                            let q = choose|q: int| 0 <= q < e1.len() && #[trigger] e1[q] == k;
                            assert(e0[q] == k);
                            assert(e0.contains(k));
                        }
                        if e0.contains(k) {
                            let q = choose|q: int| 0 <= q < e0.len() && #[trigger] e0[q] == k;
                            assert(e1[q] == k);
                        }
                        assert(e1[e0.len() as int] == id);
                    }
                    assert(g1 =~= g0.insert(id));
                    assert(self.processes_view() =~= old(self).processes_view().remove_keys(g1));
                    assert forall|k: Seq<char>|
                        #![trigger self.exit_view().contains_key(k)]
                        self.exit_view().contains_key(k) <==> (old(self).exit_view().contains_key(k) || g1.contains(k)) by {
                        assert(pre.exit_view().contains_key(k) <==> (old(self).exit_view().contains_key(k) || g0.contains(k)));
                    }
                    assert forall|k: Seq<char>|
                        #![trigger self.exit_view()[k]]
                        g1.contains(k) implies self.exit_view()[k].code == exit_code_of(poll_of(polls.view(), k))
                            && self.exit_view()[k].command_name@ == name_of(old(self).commands_view(), k) by {
                        if k != id {
                            assert(pre.exit_view()[k].code == exit_code_of(poll_of(polls.view(), k)));
                        }
                    }
                    assert forall|k: Seq<char>|
                        #![trigger self.exit_view()[k]]
                        !g1.contains(k) && old(self).exit_view().contains_key(k) implies self.exit_view()[k]
                            == old(self).exit_view()[k] by {
                        assert(pre.exit_view()[k] == old(self).exit_view()[k]);
                    }
                } else {
                    assert(g1 =~= g0);
                    assert(e1 == e0);
                }
            }
            let tags = c.tags.clone();
            proof {
                assert(tags@ =~= c.tags@) by {
                    assert forall|q: int| 0 <= q < tags.len() implies tags@[q] == c.tags@[q] by {
                        assert(cloned::<String>(c.tags[q], tags[q]));
                    }
                }
            }
            res.push(ListEntry {
                id: c.id.clone(),
                name: c.name.clone(),
                command: c.command.clone(),
                cwd: c.cwd.clone(),
                command_type: c.command_type,
                tags,
                enabled: c.enabled,
                status,
            });
            proof {
                let prev_statuses = res@.drop_last().map_values(|e: ListEntry| e.status);
                assert(res@.map_values(|e: ListEntry| e.status) =~= prev_statuses.push(status));
                assert(res@.drop_last() =~= res@.take(i as int));
                assert(all[i as int] == status) by {
                    assert((prev_statuses + list_statuses(
                        pre.processes_view().dom(),
                        exit_codes(pre),
                        polls.view(),
                        ids.skip(i as int),
                    ))[i as int] == status);
                }
                assert(res@.map_values(|e: ListEntry| e.status) + list_statuses(
                    self.processes_view().dom(),
                    exit_codes(*self),
                    polls.view(),
                    ids.skip(i + 1),
                ) =~= prev_statuses + list_statuses(
                    pre.processes_view().dom(),
                    exit_codes(pre),
                    polls.view(),
                    ids.skip(i as int),
                ));
            }
            i += 1;
        }
        res
    }

    /// The last `n` buffered log lines of command `id`, or all when there are
    /// fewer.
    pub fn tail_logs(&self, id: &str, n: usize) -> (res: Vec<LogLine>)
        requires
            self.wf(),
        ensures
            res@ == tail_spec(
                if self.logs_view().contains_key(id@) {
                    self.logs_view()[id@].lines@
                } else {
                    Seq::<LogLine>::empty()
                },
                n as nat,
            ),
    {
        let logs = self.do_get_logs(id);
        if logs.len() > n {
            let start = logs.len() - n;
            let mut res: Vec<LogLine> = Vec::new();
            let mut i = start;
            while i < logs.len()
                invariant
                    start <= i <= logs@.len(),
                    res@ == logs@.subrange(start as int, i as int),
                decreases logs@.len() - i,
            {
                res.push(logs[i].clone());
                i += 1;
                assert(res@ =~= logs@.subrange(start as int, i as int));
            }
            assert(res@ =~= logs@.skip(start as int));
            res
        } else {
            logs
        }
    }

    /// The second half of `SetSettings`, once the configuration was written
    /// (`written` is how that went): on success the settings take effect and
    /// the answer is `settings updated`; on failure nothing changes and the
    /// answer is the error.
    pub fn finish_save_settings(
        &mut self,
        shell_path: Option<String>,
        init_script: Option<String>,
        written: Result<(), String>,
    ) -> (res: CliResponse)
        requires
            old(self).wf(),
        ensures
            final(self).wf(),
            match written {
                Ok(_) => is_text_reply(res, "settings updated"@) && final(self).settings() == (ShellSettings {
                    shell_path,
                    init_script,
                }) && final(self).commands_view() == old(self).commands_view()
                    && final(self).processes_view() == old(self).processes_view()
                    && final(self).process_ids() == old(self).process_ids()
                    && final(self).exit_view() == old(self).exit_view()
                    && final(self).logs_view() == old(self).logs_view()
                    && final(self).health_view() == old(self).health_view(),
                Err(m) => is_error_reply(res, m@) && final(self).same_as(*old(self)),
            },
    {
        match written {
            Ok(_) => {
                self.do_update_shell_settings(shell_path, init_script);
                CliResponse::Success { data: ResponseData::Text("settings updated".to_owned()) }
            },
            Err(m) => CliResponse::Failure { message: m },
        }
    }

    /// The second half of a launch: records the process group of the launched
    /// process, or turns the launch error into the answer. On success, returns
    /// the process groups to record in the pid file too.
    pub fn finish_launch(&mut self, id: &str, restart: bool, outcome: Result<i32, String>) -> (res: (
        CliResponse,
        Option<Vec<i32>>,
    ))
        requires
            old(self).wf(),
        ensures
            final(self).wf(),
            match outcome {
                Ok(pgid) => {
                    &&& is_text_reply(res.0, if restart { "restarted"@ } else { "started"@ })
                    &&& res.1 is Some && res.1->Some_0@ == final(self).pgids_view()
                    &&& final(self).processes_view() == old(self).processes_view().insert(id@, pgid)
                    &&& final(self).commands_view() == old(self).commands_view()
                    &&& final(self).exit_view() == old(self).exit_view()
                    &&& final(self).logs_view() == old(self).logs_view()
                    &&& final(self).health_view() == old(self).health_view()
                    &&& final(self).settings() == old(self).settings()
                },
                Err(e) => is_error_reply(res.0, e@) && res.1 is None && final(self).same_as(*old(self)),
            },
    {
        match outcome {
            Ok(pgid) => {
                let pgids = self.record_spawned(id, pgid);
                let word = if restart { "restarted".to_owned() } else { "started".to_owned() };
                (CliResponse::Success { data: ResponseData::Text(word) }, Some(pgids))
            },
            Err(e) => (CliResponse::Failure { message: e }, None),
        }
    }

    /// The decisions for one request from the command line client. `polls`
    /// holds what polling each tracked process found; `env_shell` is the value
    /// of `$SHELL`.
    pub fn handle_request(
        &mut self,
        request: CliRequest,
        polls: &KeyedTable<ProcessCheckResult>,
        env_shell: Option<String>,
    ) -> (res: RequestStep)
        requires
            old(self).wf(),
            polls.wf(),
        ensures
            final(self).wf(),
            final(self).health_view() == old(self).health_view(),
            match request {
                CliRequest::Ping => res.kill is None && (res.next matches NextStep::Reply(r)
                    && is_text_reply(r, "pong"@)) && final(self).same_as(*old(self)),
                CliRequest::List => {
                    &&& res.kill is None
                    &&& res.next matches NextStep::Reply(CliResponse::Success { data: ResponseData::Entries(es) })
                    &&& es@.len() == old(self).commands_view().len()
                    &&& forall|i: int|
                        #![trigger es@[i]]
                        0 <= i < es@.len() ==> lists_entry(
                            es@[i],
                            old(self).commands_view()[i],
                            list_statuses(
                                old(self).processes_view().dom(),
                                exit_codes(*old(self)),
                                polls.view(),
                                old(self).commands_view().map_values(|c: CommandEntryView| c.id),
                            )[i],
                        )
                    &&& exits_recorded(
                        *old(self),
                        *final(self),
                        listed_exits(
                            old(self).processes_view().dom(),
                            polls.view(),
                            old(self).commands_view().map_values(|c: CommandEntryView| c.id),
                        ),
                        polls.view(),
                    )
                    &&& final(self).process_ids() == without_all(
                        old(self).process_ids(),
                        listed_exit_order(
                            old(self).processes_view().dom(),
                            polls.view(),
                            old(self).commands_view().map_values(|c: CommandEntryView| c.id),
                        ),
                    )
                },
                CliRequest::Start { name_or_id } => match resolve_spec(old(self).commands_view(), name_or_id@) {
                    Err(m) => res.kill is None && (res.next matches NextStep::Reply(r)
                        && is_error_reply(r, m)) && final(self).same_as(*old(self)),
                    Ok(id) => match find_entry(old(self).commands_view(), id) {
                        None => res.kill is None && (res.next matches NextStep::Reply(r)
                            && is_error_reply(r, "Command not found"@)) && final(self).same_as(*old(self)),
                        Some(e) => if old(self).processes_view().contains_key(id) && poll_of(polls.view(), id)
                            == ProcessCheckResult::Running {
                            res.kill is None && (res.next matches NextStep::Reply(r)
                                && is_error_reply(r, "Command is already running"@)) && final(self).same_as(*old(self))
                        } else {
                            &&& res.kill is None
                            &&& res.next matches NextStep::Launch { id: lid, plan, restart } && lid@ == id
                                && !restart && plans_entry(plan, e, old(self).settings(), opt_view(env_shell))
                            &&& final(self).processes_view() == old(self).processes_view().remove(id)
                            &&& final(self).process_ids() == without(old(self).process_ids(), id)
                            &&& final(self).exit_view() == old(self).exit_view().remove(id)
                            &&& is_fresh_log(final(self).logs_view()[id])
                            &&& final(self).logs_view() == old(self).logs_view().insert(id, final(self).logs_view()[id])
                            &&& final(self).commands_view() == old(self).commands_view()
                            &&& final(self).settings() == old(self).settings()
                        },
                    },
                },
                CliRequest::Stop { name_or_id } => match resolve_spec(old(self).commands_view(), name_or_id@) {
                    Err(m) => res.kill is None && (res.next matches NextStep::Reply(r)
                        && is_error_reply(r, m)) && final(self).same_as(*old(self)),
                    Ok(id) => {
                        &&& res.kill == if old(self).processes_view().contains_key(id) {
                            Some(old(self).processes_view()[id])
                        } else {
                            None::<i32>
                        }
                        &&& res.next matches NextStep::PersistPids { pgids, reply } && pgids@
                            == final(self).pgids_view() && is_text_reply(reply, "stopped"@)
                        &&& final(self).processes_view() == old(self).processes_view().remove(id)
                        &&& final(self).process_ids() == without(old(self).process_ids(), id)
                        &&& final(self).exit_view() == old(self).exit_view().remove(id)
                        &&& final(self).logs_view() == old(self).logs_view()
                        &&& final(self).commands_view() == old(self).commands_view()
                        &&& final(self).settings() == old(self).settings()
                    },
                },
                CliRequest::Restart { name_or_id } => match resolve_spec(old(self).commands_view(), name_or_id@) {
                    Err(m) => res.kill is None && (res.next matches NextStep::Reply(r)
                        && is_error_reply(r, m)) && final(self).same_as(*old(self)),
                    Ok(id) => {
                        &&& res.kill == if old(self).processes_view().contains_key(id) {
                            Some(old(self).processes_view()[id])
                        } else {
                            None::<i32>
                        }
                        &&& final(self).processes_view() == old(self).processes_view().remove(id)
                        &&& final(self).process_ids() == without(old(self).process_ids(), id)
                        &&& final(self).exit_view() == old(self).exit_view().remove(id)
                        &&& final(self).commands_view() == old(self).commands_view()
                        &&& final(self).settings() == old(self).settings()
                        &&& match find_entry(old(self).commands_view(), id) {
                            None => res.next matches NextStep::Reply(r) && is_error_reply(r, "Command not found"@)
                                && final(self).logs_view() == old(self).logs_view(),
                            Some(e) => res.next matches NextStep::Launch { id: lid, plan, restart } && lid@ == id
                                && restart && plans_entry(plan, e, old(self).settings(), opt_view(env_shell))
                                && is_fresh_log(final(self).logs_view()[id]) && final(self).logs_view()
                                == old(self).logs_view().insert(id, final(self).logs_view()[id]),
                        }
                    },
                },
                CliRequest::Add { name, dir, command, command_type, tags } => {
                    &&& res.kill is None
                    &&& res.next matches NextStep::SaveCommands { entry } && final(self).commands_view()
                        == old(self).commands_view().push(entry@) && entry@ == crate::state::entry_from(
                        entry@.id,
                        name@,
                        dir@,
                        command@,
                        false,
                        None,
                        None,
                        command_type,
                        tags,
                    ) && crate::ids::is_uuid_v4_text(entry@.id)
                    &&& final(self).processes_view() == old(self).processes_view()
                    &&& final(self).process_ids() == old(self).process_ids()
                    &&& final(self).exit_view() == old(self).exit_view()
                    &&& final(self).logs_view() == old(self).logs_view()
                    &&& final(self).settings() == old(self).settings()
                },
                CliRequest::Logs { name_or_id, tail } => {
                    &&& res.kill is None
                    &&& final(self).same_as(*old(self))
                    &&& match resolve_spec(old(self).commands_view(), name_or_id@) {
                        Err(m) => res.next matches NextStep::Reply(r) && is_error_reply(r, m),
                        Ok(id) => res.next matches NextStep::Reply(
                            CliResponse::Success { data: ResponseData::Logs(ls) },
                        ) && ls@ == tail_spec(
                            if old(self).logs_view().contains_key(id) {
                                old(self).logs_view()[id].lines@
                            } else {
                                Seq::<LogLine>::empty()
                            },
                            match tail {
                                Some(t) => t as nat,
                                None => 50,
                            },
                        ),
                    }
                },
                CliRequest::GetSettings => res.kill is None && (res.next matches NextStep::Reply(
                    CliResponse::Success { data: ResponseData::Settings(st) },
                ) && st == old(self).settings()) && final(self).same_as(*old(self)),
                CliRequest::SetSettings { shell_path, init_script } => res.kill is None
                    && (res.next matches NextStep::SaveSettings { shell_path: sp, init_script: is } && sp
                    == shell_path && is == init_script) && final(self).same_as(*old(self)),
            },
    {
        match request {
            CliRequest::Ping => RequestStep {
                kill: None,
                next: NextStep::Reply(CliResponse::Success { data: ResponseData::Text("pong".to_owned()) }),
            },
            CliRequest::List => {
                let entries = self.list_entries(polls);
                RequestStep {
                    kill: None,
                    next: NextStep::Reply(CliResponse::Success { data: ResponseData::Entries(entries) }),
                }
            },
            CliRequest::Start { name_or_id } => match self.resolve_command_id(name_or_id.as_str()) {
                Err(m) => RequestStep { kill: None, next: NextStep::Reply(CliResponse::Failure { message: m }) },
                Ok(id) => {
                    let poll = match polls.get(id.as_str()) {
                        Some(p) => *p,
                        None => ProcessCheckResult::Running,
                    };
                    match self.do_start_command(id.as_str(), poll, env_shell) {
                        Err(m) => RequestStep {
                            kill: None,
                            next: NextStep::Reply(CliResponse::Failure { message: m }),
                        },
                        Ok(plan) => RequestStep {
                            kill: None,
                            next: NextStep::Launch { id, plan, restart: false },
                        },
                    }
                },
            },
            CliRequest::Stop { name_or_id } => match self.resolve_command_id(name_or_id.as_str()) {
                Err(m) => RequestStep { kill: None, next: NextStep::Reply(CliResponse::Failure { message: m }) },
                Ok(id) => {
                    let kill = self.do_stop_command(id.as_str());
                    let pgids = self.running_pgids();
                    RequestStep {
                        kill,
                        next: NextStep::PersistPids {
                            pgids,
                            reply: CliResponse::Success { data: ResponseData::Text("stopped".to_owned()) },
                        },
                    }
                },
            },
            CliRequest::Restart { name_or_id } => match self.resolve_command_id(name_or_id.as_str()) {
                Err(m) => RequestStep { kill: None, next: NextStep::Reply(CliResponse::Failure { message: m }) },
                Ok(id) => {
                    let (kill, plan) = self.do_restart_command(id.as_str(), env_shell);
                    match plan {
                        Err(m) => RequestStep { kill, next: NextStep::Reply(CliResponse::Failure { message: m }) },
                        Ok(plan) => RequestStep { kill, next: NextStep::Launch { id, plan, restart: true } },
                    }
                },
            },
            CliRequest::Add { name, dir, command, command_type, tags } => {
                let entry = self.do_add_command(name, dir, command, command_type, tags);
                RequestStep { kill: None, next: NextStep::SaveCommands { entry } }
            },
            CliRequest::Logs { name_or_id, tail } => match self.resolve_command_id(name_or_id.as_str()) {
                Err(m) => RequestStep { kill: None, next: NextStep::Reply(CliResponse::Failure { message: m }) },
                Ok(id) => {
                    let n = match tail {
                        Some(t) => t,
                        None => 50,
                    };
                    let lines = self.tail_logs(id.as_str(), n);
                    RequestStep {
                        kill: None,
                        next: NextStep::Reply(CliResponse::Success { data: ResponseData::Logs(lines) }),
                    }
                },
            },
            CliRequest::GetSettings => RequestStep {
                kill: None,
                next: NextStep::Reply(
                    CliResponse::Success { data: ResponseData::Settings(self.do_get_shell_settings()) },
                ),
            },
            CliRequest::SetSettings { shell_path, init_script } => RequestStep {
                kill: None,
                next: NextStep::SaveSettings { shell_path, init_script },
            },
        }
    }
}

} // verus!
