use vstd::prelude::*;
use std::collections::VecDeque;

verus! {

/// How a command is meant to run.
#[derive(Debug, Clone, Copy, PartialEq, Eq, Structural)]
pub enum CommandType {
    /// A long-running process.
    Process,
    /// A command that runs once and exits.
    OneTime,
}

impl Default for CommandType {
    fn default() -> (res: Self)
        ensures
            res == CommandType::Process,
    {
        CommandType::Process
    }
}

/// One environment variable set for a command.
#[derive(Debug)]
pub struct EnvVar {
    pub key: String,
    pub value: String,
}

impl Clone for EnvVar {
    fn clone(&self) -> (res: Self)
        ensures
            res == *self,
    {
        EnvVar { key: self.key.clone(), value: self.value.clone() }
    }
}

/// A configured shell command.
#[derive(Debug)]
pub struct CommandEntry {
    pub id: String,
    pub name: String,
    pub cwd: String,
    pub command: String,
    /// Started automatically when the application launches.
    pub enabled: bool,
    pub env: Vec<EnvVar>,
    pub health_check_url: Option<String>,
    pub command_type: CommandType,
    pub tags: Vec<String>,
}

/// The value a [`CommandEntry`] stands for.
pub struct CommandEntryView {
    pub id: Seq<char>,
    pub name: Seq<char>,
    pub cwd: Seq<char>,
    pub command: Seq<char>,
    pub enabled: bool,
    pub env: Seq<EnvVar>,
    pub health_check_url: Option<Seq<char>>,
    pub command_type: CommandType,
    pub tags: Seq<Seq<char>>,
}

impl View for CommandEntry {
    type V = CommandEntryView;

    open spec fn view(&self) -> CommandEntryView {
        CommandEntryView {
            id: self.id@,
            name: self.name@,
            cwd: self.cwd@,
            command: self.command@,
            enabled: self.enabled,
            env: self.env@,
            health_check_url: opt_view(self.health_check_url),
            command_type: self.command_type,
            tags: strings_view(self.tags@),
        }
    }
}

/// The characters of each string.
pub open spec fn strings_view(v: Seq<String>) -> Seq<Seq<char>> {
    v.map_values(|t: String| t@)
}

/// The values that a list of commands stands for.
pub open spec fn entries_view(v: Seq<CommandEntry>) -> Seq<CommandEntryView> {
    v.map_values(|c: CommandEntry| c@)
}

impl Clone for CommandEntry {
    fn clone(&self) -> (res: Self)
        ensures
            res@ == self@,
    {
        let env = self.env.clone();
        let tags = self.tags.clone();
        proof {
            assert(env@ =~= self.env@) by {
                assert forall|i: int| 0 <= i < env.len() implies env@[i] == self.env@[i] by {
                    assert(cloned::<EnvVar>(self.env[i], env[i]));
                }
            }
            assert(tags@ =~= self.tags@) by {
                assert forall|i: int| 0 <= i < tags.len() implies tags@[i] == self.tags@[i] by {
                    assert(cloned::<String>(self.tags[i], tags[i]));
                }
            }
        }
        CommandEntry {
            id: self.id.clone(),
            name: self.name.clone(),
            cwd: self.cwd.clone(),
            command: self.command.clone(),
            enabled: self.enabled,
            env,
            health_check_url: clone_opt_string(&self.health_check_url),
            command_type: self.command_type,
            tags,
        }
    }
}

/// The characters of an optional string.
pub open spec fn opt_view(o: Option<String>) -> Option<Seq<char>> {
    match o {
        Some(s) => Some(s@),
        None => None,
    }
}

pub fn clone_opt_string(s: &Option<String>) -> (res: Option<String>)
    ensures
        res == *s,
{
    match s {
        Some(t) => Some(t.clone()),
        None => None,
    }
}

/// The state of a command's process, as reported to the user.
#[derive(Debug, PartialEq, Eq)]
pub enum ProcessStatus {
    Stopped,
    Running,
    Exited { code: Option<i32> },
    Error { message: String },
}

impl Clone for ProcessStatus {
    fn clone(&self) -> (res: Self)
        ensures
            res == *self,
    {
        match self {
            ProcessStatus::Stopped => ProcessStatus::Stopped,
            ProcessStatus::Running => ProcessStatus::Running,
            ProcessStatus::Exited { code } => ProcessStatus::Exited { code: *code },
            ProcessStatus::Error { message } => ProcessStatus::Error { message: message.clone() },
        }
    }
}

/// What is remembered of a process that exited on its own.
#[derive(Debug)]
pub struct ProcessExitInfo {
    pub code: Option<i32>,
    pub command_name: String,
}

impl Clone for ProcessExitInfo {
    fn clone(&self) -> (res: Self)
        ensures
            res == *self,
    {
        ProcessExitInfo { code: self.code, command_name: self.command_name.clone() }
    }
}

/// The outcome of a command's health check.
#[derive(Debug, Clone, Copy, PartialEq, Eq, Structural)]
pub enum HealthStatus {
    Healthy,
    Unhealthy,
    Unknown,
}

/// What one poll of a child process found.
#[derive(Debug, Clone, Copy, PartialEq, Eq, Structural)]
pub enum ProcessCheckResult {
    Running,
    Exited(Option<i32>),
}

/// The shell that runs commands, and a script run before each of them.
#[derive(Debug)]
pub struct ShellSettings {
    pub shell_path: Option<String>,
    pub init_script: Option<String>,
}

impl Default for ShellSettings {
    fn default() -> (res: Self)
        ensures
            res.shell_path.is_none(),
            res.init_script.is_none(),
    {
        ShellSettings { shell_path: None, init_script: None }
    }
}

impl Clone for ShellSettings {
    fn clone(&self) -> (res: Self)
        ensures
            res == *self,
    {
        ShellSettings {
            shell_path: clone_opt_string(&self.shell_path),
            init_script: clone_opt_string(&self.init_script),
        }
    }
}

/// The shell used when none is configured and `$SHELL` is not set.
pub open spec fn fallback_shell() -> Seq<char> {
    seq!['/', 'b', 'i', 'n', '/', 's', 'h']
}

/// The shell that runs commands: the configured one when it is not empty,
/// else `$SHELL` (`env_shell`), else `/bin/sh`.
pub open spec fn effective_shell_spec(settings: ShellSettings, env_shell: Option<Seq<char>>) -> Seq<char> {
    match settings.shell_path {
        Some(p) if p@.len() > 0 => p@,
        _ => match env_shell {
            Some(e) => e,
            None => fallback_shell(),
        },
    }
}

/// The init script, or nothing when it is absent or empty.
pub open spec fn effective_init_script_spec(settings: ShellSettings) -> Seq<char> {
    match settings.init_script {
        Some(s) if s@.len() > 0 => s@,
        _ => Seq::empty(),
    }
}

impl ShellSettings {
    /// The shell that runs commands; `env_shell` is the value of `$SHELL`, if set.
    pub fn effective_shell(&self, env_shell: Option<String>) -> (res: String)
        ensures
            res@ == effective_shell_spec(*self, opt_view(env_shell)),
    {
        match &self.shell_path {
            Some(p) if p.unicode_len() > 0 => p.clone(),
            _ => match env_shell {
                Some(e) => e,
                None => {
                    let mut s = String::new();
                    crate::text::push_str(&mut s, "/bin/sh");
                    proof {
                        reveal_strlit("/bin/sh");
                        assert(s@ =~= fallback_shell());
                    }
                    s
                },
            },
        }
    }

    pub fn effective_init_script(&self) -> (res: &str)
        ensures
            res@ == effective_init_script_spec(*self),
    {
        match &self.init_script {
            Some(s) if s.unicode_len() > 0 => s.as_str(),
            _ => {
                proof {
                    reveal_strlit("");
                }
                ""
            },
        }
    }
}

/// One line of output captured from a running command.
#[derive(Debug)]
pub struct LogLine {
    pub text: String,
    /// `"stdout"` or `"stderr"`.
    pub stream: String,
    /// Milliseconds since the Unix epoch.
    pub timestamp: u64,
}

impl Clone for LogLine {
    fn clone(&self) -> (res: Self)
        ensures
            res == *self,
    {
        LogLine { text: self.text.clone(), stream: self.stream.clone(), timestamp: self.timestamp }
    }
}

impl LogLine {
    /// A line captured from a command's standard output, or from its standard
    /// error when `is_stderr`, at `timestamp` milliseconds since the epoch.
    pub fn captured(text: String, is_stderr: bool, timestamp: u64) -> (res: Self)
        ensures
            res.text == text,
            res.stream@ == if is_stderr { "stderr"@ } else { "stdout"@ },
            res.timestamp == timestamp,
    {
        let stream = if is_stderr { "stderr".to_owned() } else { "stdout".to_owned() };
        LogLine { text, stream, timestamp }
    }
}

/// What a buffer holds after `line` is pushed onto `lines` with capacity `max`:
/// the oldest line is dropped first when the buffer is full.
pub open spec fn log_push(lines: Seq<LogLine>, max: nat, line: LogLine) -> Seq<LogLine> {
    if lines.len() >= max && lines.len() > 0 {
        lines.drop_first().push(line)
    } else {
        lines.push(line)
    }
}

/// What a fresh buffer of capacity `max` holds after the lines of `pushed` are
/// pushed onto it in order.
pub open spec fn log_replay(max: nat, pushed: Seq<LogLine>) -> Seq<LogLine>
    decreases pushed.len(),
{
    if pushed.len() == 0 {
        Seq::empty()
    } else {
        log_push(log_replay(max, pushed.drop_last()), max, pushed.last())
    }
}

/// A bounded buffer of the most recent log lines of one command.
pub struct LogBuffer {
    pub lines: VecDeque<LogLine>,
    pub max_lines: usize,
}

impl LogBuffer {
    /// An empty buffer that keeps at most `max_lines` lines.
    pub fn new(max_lines: usize) -> (res: Self)
        ensures
            res.lines@ == Seq::<LogLine>::empty(),
            res.max_lines == max_lines,
    {
        LogBuffer { lines: VecDeque::new(), max_lines }
    }

    /// Appends `line`, dropping the oldest line first when the buffer is full.
    pub fn push(&mut self, line: LogLine)
        ensures
            final(self).max_lines == old(self).max_lines,
            final(self).lines@ == log_push(old(self).lines@, old(self).max_lines as nat, line),
    {
        if self.lines.len() >= self.max_lines {
            self.lines.pop_front();
        }
        self.lines.push_back(line);
    }
}

/// A buffer of capacity `max` (at least one line) that was filled by pushing
/// `pushed` holds exactly the last `max` of those lines, oldest first, and
/// never more than `max` lines.
pub proof fn lemma_log_buffer_keeps_newest(max: nat, pushed: Seq<LogLine>)
    requires
        max >= 1,
    ensures
        log_replay(max, pushed).len() <= max,
        log_replay(max, pushed) == pushed.subrange(
            if pushed.len() > max { pushed.len() - max } else { 0 },
            pushed.len() as int,
        ),
    decreases pushed.len(),
{
    if pushed.len() > 0 {
        let prev = pushed.drop_last();
        lemma_log_buffer_keeps_newest(max, prev);
        let start: int = if prev.len() > max { prev.len() - max } else { 0 };
        let start2: int = if pushed.len() > max { pushed.len() - max } else { 0 };
        if prev.len() >= max {
            assert(log_replay(max, pushed) =~= pushed.subrange(start2, pushed.len() as int));
        } else {
            assert(log_replay(max, pushed) =~= pushed.subrange(start2, pushed.len() as int));
        }
    }
}

} // verus!
