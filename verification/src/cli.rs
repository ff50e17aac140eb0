use vstd::prelude::*;
use vstd::utf8::encode_utf8;
use crate::protocol::CliRequest;
use crate::text::{
    decimal, lowercase, pad_right, push_padded, push_signed_decimal, push_str, push_two_digits,
    signed_decimal, to_lowercase, to_uppercase_char, uppercase_char, chars_of, string_of,
};
use crate::types::{CommandType, opt_view, strings_view};

verus! {

/// The subcommands of the command line client.
pub enum CliCommand {
    /// List all commands with their status.
    List,
    /// Start a command by name or id.
    Start { name: String },
    /// Stop a running command.
    Stop { name: String },
    /// Restart a command.
    Restart { name: String },
    /// Add a new command.
    Add { name: String, dir: String, cmd: String, command_type: CommandType, tag: Vec<String> },
    /// Show the recent logs of a command.
    Logs { name: String, n: usize },
    /// Show, or with either option update, the shell settings.
    Settings { shell: Option<String>, init_script: Option<String> },
}

/// The command line: one subcommand.
pub struct Cli {
    pub command: CliCommand,
}

/// What the client reads of a process status: its `type` and its `code`.
pub struct StatusField {
    pub kind: Option<String>,
    pub code: Option<i64>,
}

/// What the client reads of one command in a list.
pub struct ListRow {
    pub name: Option<String>,
    pub status: Option<StatusField>,
    pub kind: Option<String>,
    pub command: Option<String>,
}

/// What the client reads of one log line.
pub struct LogRow {
    pub text: Option<String>,
    pub stream: Option<String>,
    pub timestamp: Option<u64>,
}

/// What the client reads of the data of a successful answer: the data as a
/// string, its `name` field, its items as commands or as log lines when it is
/// an array, and its `shell_path` and `init_script` fields.
pub struct ReplyData {
    pub text: Option<String>,
    pub name: Option<String>,
    pub rows: Option<Vec<ListRow>>,
    pub logs: Option<Vec<LogRow>>,
    pub shell_path: Option<String>,
    pub init_script: Option<String>,
}

/// The answer as the client reads it.
pub enum ClientReply {
    Success(ReplyData),
    Failure(String),
}

/// One line of output, for standard output or standard error.
pub struct OutputLine {
    pub to_stderr: bool,
    pub text: String,
}

/// What the client prints, and the exit status it ends with.
pub struct CliOutput {
    pub lines: Vec<OutputLine>,
    pub exit_code: i32,
}

/// The views of output lines: for each, whether it goes to standard error,
/// and its text.
pub open spec fn lines_view(v: Seq<OutputLine>) -> Seq<(bool, Seq<char>)> {
    v.map_values(|l: OutputLine| (l.to_stderr, l.text@))
}

/// The length in bytes of the UTF-8 encoding of `s`, as `str::len` counts it.
pub open spec fn byte_len(s: Seq<char>) -> nat {
    (encode_utf8(s).len() as usize) as nat
}

/// `n` in decimal with at least two digits, as `{:02}` writes it.
pub open spec fn two_digits(n: nat) -> Seq<char> {
    if n < 10 {
        seq!['0'] + decimal(n)
    } else {
        decimal(n)
    }
}

/// The time of day of a timestamp in milliseconds, as `HH:MM:SS` (UTC).
pub open spec fn timestamp_text(ms: nat) -> Seq<char> {
    let secs = ms / 1000;
    two_digits((secs % 86400) / 3600) + seq![':'] + two_digits((secs % 3600) / 60) + seq![':'] + two_digits(
        secs % 60,
    )
}

/// The time of day of a timestamp in milliseconds, as `HH:MM:SS`.
pub fn format_timestamp(ms: u64) -> (res: String)
    ensures
        res@ == timestamp_text(ms as nat),
{
    let secs = ms / 1000;
    let hours = (secs % 86400) / 3600;
    let mins = (secs % 3600) / 60;
    let s = secs % 60;
    let mut out = String::new();
    push_two_digits(&mut out, hours);
    out.push(':');
    push_two_digits(&mut out, mins);
    out.push(':');
    push_two_digits(&mut out, s);
    assert(out@ =~= timestamp_text(ms as nat));
    out
}

/// `s` with its first character in upper case.
pub open spec fn capitalized(s: Seq<char>) -> Seq<char> {
    if s.len() == 0 {
        s
    } else {
        uppercase_char(s[0]) + s.drop_first()
    }
}

/// `s` with its first character in upper case.
pub fn capitalize(s: &str) -> (res: String)
    ensures
        res@ == capitalized(s@),
{
    let v = chars_of(s);
    if v.len() == 0 {
        return String::new();
    }
    let mut out = to_uppercase_char(v[0]);
    let rest = string_of(&v, 1, v.len());
    push_str(&mut out, rest.as_str());
    assert(v@.subrange(1, v@.len() as int) =~= s@.drop_first());
    out
}

/// The command type that a `--type` value names, without regard to case.
pub open spec fn parse_command_type_spec(s: Seq<char>) -> Result<CommandType, Seq<char>> {
    let l = lowercase(s);
    if l == "process"@ {
        Ok(CommandType::Process)
    } else if l == "onetime"@ || l == "one-time"@ || l == "one_time"@ {
        Ok(CommandType::OneTime)
    } else {
        Err("Invalid type '"@ + s + "'. Use 'process' or 'onetime'"@)
    }
}

/// The command type that a `--type` value names.
pub fn parse_command_type(s: &str) -> (res: Result<CommandType, String>)
    ensures
        match parse_command_type_spec(s@) {
            Ok(t) => res == Ok::<CommandType, String>(t),
            Err(m) => res is Err && res->Err_0@ == m,
        },
{
    let l = to_lowercase(s);
    if l == "process".to_owned() {
        Ok(CommandType::Process)
    } else if l == "onetime".to_owned() || l == "one-time".to_owned() || l == "one_time".to_owned() {
        Ok(CommandType::OneTime)
    } else {
        let mut msg = String::new();
        push_str(&mut msg, "Invalid type '");
        push_str(&mut msg, s);
        push_str(&mut msg, "'. Use 'process' or 'onetime'");
        Err(msg)
    }
}

/// The label of a process status in a list.
pub open spec fn status_label(st: Option<(Option<Seq<char>>, Option<i64>)>) -> Seq<char> {
    match st {
        Some((kind, code)) => match kind {
            Some(k) => if k == "Running"@ {
                "Running"@
            } else if k == "Stopped"@ {
                "Stopped"@
            } else if k == "Exited"@ {
                match code {
                    Some(c) => "Exited("@ + signed_decimal(c as int) + ")"@,
                    None => "Exited"@,
                }
            } else if k == "Error"@ {
                "Error"@
            } else {
                "Unknown"@
            },
            None => "Unknown"@,
        },
        None => "Unknown"@,
    }
}

/// What the client reads of a status.
pub open spec fn status_field_view(st: Option<StatusField>) -> Option<(Option<Seq<char>>, Option<i64>)> {
    match st {
        Some(f) => Some((opt_view(f.kind), f.code)),
        None => None,
    }
}

/// The label of a process status in a list.
pub fn format_status_str(status: &Option<StatusField>) -> (res: String)
    ensures
        res@ == status_label(status_field_view(*status)),
{
    match status {
        Some(f) => match &f.kind {
            Some(k) => {
                if *k == "Running".to_owned() {
                    "Running".to_owned()
                } else if *k == "Stopped".to_owned() {
                    "Stopped".to_owned()
                } else if *k == "Exited".to_owned() {
                    match f.code {
                        Some(c) => {
                            let mut s = String::new();
                            push_str(&mut s, "Exited(");
                            push_signed_decimal(&mut s, c);
                            push_str(&mut s, ")");
                            s
                        },
                        None => "Exited".to_owned(),
                    }
                } else if *k == "Error".to_owned() {
                    "Error".to_owned()
                } else {
                    "Unknown".to_owned()
                }
            },
            None => "Unknown".to_owned(),
        },
        None => "Unknown".to_owned(),
    }
}

/// The text of an optional string, or `d` when it is absent.
pub open spec fn or_default(o: Option<String>, d: Seq<char>) -> Seq<char> {
    match o {
        Some(s) => s@,
        None => d,
    }
}

pub open spec fn max_nat(a: nat, b: nat) -> nat {
    if a >= b {
        a
    } else {
        b
    }
}

/// The width of the NAME column: the widest name, at least 4.
pub open spec fn name_width(rows: Seq<ListRow>) -> nat
    decreases rows.len(),
{
    if rows.len() == 0 {
        4
    } else {
        max_nat(name_width(rows.drop_last()), byte_len(or_default(rows.last().name, Seq::empty())))
    }
}

/// The width of the STATUS column: the widest status label, at least 6.
pub open spec fn status_width(rows: Seq<ListRow>) -> nat
    decreases rows.len(),
{
    if rows.len() == 0 {
        6
    } else {
        max_nat(status_width(rows.drop_last()), byte_len(status_label(status_field_view(rows.last().status))))
    }
}

/// The width of the TYPE column: the widest type, at least 4.
pub open spec fn type_width(rows: Seq<ListRow>) -> nat
    decreases rows.len(),
{
    if rows.len() == 0 {
        4
    } else {
        max_nat(type_width(rows.drop_last()), byte_len(or_default(rows.last().kind, "Process"@)))
    }
}

/// The header of the table of commands.
pub open spec fn list_header(rows: Seq<ListRow>) -> Seq<char> {
    pad_right("NAME"@, name_width(rows)) + "  "@ + pad_right("STATUS"@, status_width(rows)) + "  "@ + pad_right(
        "TYPE"@,
        type_width(rows),
    ) + "  COMMAND"@
}

/// The line of the table for `r`.
pub open spec fn list_line(rows: Seq<ListRow>, r: ListRow) -> Seq<char> {
    pad_right(or_default(r.name, "?"@), name_width(rows)) + "  "@ + pad_right(
        status_label(status_field_view(r.status)),
        status_width(rows),
    ) + "  "@ + pad_right(or_default(r.kind, "Process"@), type_width(rows)) + "  "@ + or_default(
        r.command,
        Seq::empty(),
    )
}

/// What the client prints for a list of commands.
pub open spec fn list_output(rows: Option<Seq<ListRow>>) -> Seq<(bool, Seq<char>)> {
    match rows {
        None => seq![(false, "No commands"@)],
        Some(rs) => if rs.len() == 0 {
            seq![(false, "No commands configured"@)]
        } else {
            seq![(false, list_header(rs))] + rs.map_values(|r: ListRow| (false, list_line(rs, r)))
        },
    }
}

fn opt_text(o: &Option<String>, d: &str) -> (res: String)
    ensures
        res@ == or_default(*o, d@),
{
    match o {
        Some(s) => s.clone(),
        None => d.to_owned(),
    }
}

/// The table of commands that `list` prints.
pub fn format_list(rows: &Option<Vec<ListRow>>) -> (res: Vec<OutputLine>)
    ensures
        lines_view(res@) == list_output(match rows {
            Some(v) => Some(v@),
            None => None,
        }),
{
    let mut out: Vec<OutputLine> = Vec::new();
    let rows = match rows {
        None => {
            out.push(OutputLine { to_stderr: false, text: "No commands".to_owned() });
            assert(lines_view(out@) =~= seq![(false, "No commands"@)]);
            return out;
        },
        Some(v) => v,
    };
    if rows.len() == 0 {
        out.push(OutputLine { to_stderr: false, text: "No commands configured".to_owned() });
        assert(lines_view(out@) =~= seq![(false, "No commands configured"@)]);
        return out;
    }
    let mut wn: usize = 4;
    let mut ws: usize = 6;
    let mut wt: usize = 4;
    let mut i: usize = 0;
    while i < rows.len()
        invariant
            i <= rows@.len(),
            wn == name_width(rows@.take(i as int)),
            ws == status_width(rows@.take(i as int)),
            wt == type_width(rows@.take(i as int)),
        decreases rows@.len() - i,
    {
        let r = &rows[i];
        let name = opt_text(&r.name, "");
        let status = format_status_str(&r.status);
        let kind = opt_text(&r.kind, "Process");
        proof {
            reveal_strlit("");
            assert(rows@.take(i + 1).drop_last() =~= rows@.take(i as int));
            assert(rows@.take(i + 1).last() == *r);
        }
        if name.as_str().len() > wn {
            wn = name.as_str().len();
        }
        if status.as_str().len() > ws {
            ws = status.as_str().len();
        }
        if kind.as_str().len() > wt {
            wt = kind.as_str().len();
        }
        i += 1;
    }
    assert(rows@.take(rows@.len() as int) =~= rows@);
    let mut header = String::new();
    push_padded(&mut header, "NAME", wn);
    push_str(&mut header, "  ");
    push_padded(&mut header, "STATUS", ws);
    push_str(&mut header, "  ");
    push_padded(&mut header, "TYPE", wt);
    push_str(&mut header, "  COMMAND");
    out.push(OutputLine { to_stderr: false, text: header });
    let mut j: usize = 0;
    while j < rows.len()
        invariant
            j <= rows@.len(),
            wn == name_width(rows@),
            ws == status_width(rows@),
            wt == type_width(rows@),
            lines_view(out@) == seq![(false, list_header(rows@))] + rows@.take(j as int).map_values(
                |r: ListRow| (false, list_line(rows@, r)),
            ),
        decreases rows@.len() - j,
    {
        let r = &rows[j];
        let mut line = String::new();
        let name = opt_text(&r.name, "?");
        push_padded(&mut line, name.as_str(), wn);
        push_str(&mut line, "  ");
        let status = format_status_str(&r.status);
        push_padded(&mut line, status.as_str(), ws);
        push_str(&mut line, "  ");
        let kind = opt_text(&r.kind, "Process");
        push_padded(&mut line, kind.as_str(), wt);
        push_str(&mut line, "  ");
        let command = opt_text(&r.command, "");
        push_str(&mut line, command.as_str());
        proof {
            reveal_strlit("");
            assert(line@ =~= list_line(rows@, *r));
        }
        let ghost prev = lines_view(out@);
        out.push(OutputLine { to_stderr: false, text: line });
        proof {
            assert(lines_view(out@) =~= prev.push((false, list_line(rows@, *r))));
            assert(rows@.take(j + 1) =~= rows@.take(j as int).push(*r));
            assert(rows@.take(j + 1).map_values(|r: ListRow| (false, list_line(rows@, r))) =~= rows@.take(
                j as int,
            ).map_values(|r: ListRow| (false, list_line(rows@, r))).push((false, list_line(rows@, *r))));
        }
        j += 1;
        assert(lines_view(out@) =~= seq![(false, list_header(rows@))] + rows@.take(j as int).map_values(
            |r: ListRow| (false, list_line(rows@, r)),
        ));
    }
    assert(rows@.take(rows@.len() as int) =~= rows@);
    out
}

/// The line that `logs` prints for one log line.
pub open spec fn log_output_line(r: LogRow) -> (bool, Seq<char>) {
    let text = or_default(r.text, Seq::empty());
    let ts = match r.timestamp {
        Some(t) => t as nat,
        None => 0,
    };
    if or_default(r.stream, "stdout"@) == "stderr"@ {
        (true, timestamp_text(ts) + " [err] "@ + text)
    } else {
        (false, timestamp_text(ts) + seq![' '] + text)
    }
}

/// What the client prints for a list of log lines.
pub open spec fn logs_output(logs: Option<Seq<LogRow>>) -> Seq<(bool, Seq<char>)> {
    match logs {
        None => Seq::empty(),
        Some(ls) => if ls.len() == 0 {
            seq![(false, "No logs"@)]
        } else {
            ls.map_values(|r: LogRow| log_output_line(r))
        },
    }
}

/// The lines that `logs` prints: each log line with its time of day, lines
/// from standard error marked and printed to standard error.
pub fn format_logs(logs: &Option<Vec<LogRow>>) -> (res: Vec<OutputLine>)
    ensures
        lines_view(res@) == logs_output(match logs {
            Some(v) => Some(v@),
            None => None,
        }),
{
    let mut out: Vec<OutputLine> = Vec::new();
    let logs = match logs {
        None => {
            assert(lines_view(out@) =~= Seq::<(bool, Seq<char>)>::empty());
            return out;
        },
        Some(v) => v,
    };
    if logs.len() == 0 {
        out.push(OutputLine { to_stderr: false, text: "No logs".to_owned() });
        assert(lines_view(out@) =~= seq![(false, "No logs"@)]);
        return out;
    }
    let mut i: usize = 0;
    while i < logs.len()
        invariant
            i <= logs@.len(),
            lines_view(out@) == logs@.take(i as int).map_values(|r: LogRow| log_output_line(r)),
        decreases logs@.len() - i,
    {
        let r = &logs[i];
        let text = opt_text(&r.text, "");
        let stream = opt_text(&r.stream, "stdout");
        let ts = match r.timestamp {
            Some(t) => t,
            None => 0,
        };
        let mut line = format_timestamp(ts);
        let err = stream == "stderr".to_owned();
        if err {
            push_str(&mut line, " [err] ");
        } else {
            line.push(' ');
        }
        push_str(&mut line, text.as_str());
        proof {
            reveal_strlit("");
            assert((err, line@) == log_output_line(*r));
        }
        let ghost prev = lines_view(out@);
        out.push(OutputLine { to_stderr: err, text: line });
        proof {
            assert(lines_view(out@) =~= prev.push(log_output_line(*r)));
            assert(logs@.take(i + 1) =~= logs@.take(i as int).push(*r));
            assert(logs@.take(i + 1).map_values(|r: LogRow| log_output_line(r)) =~= logs@.take(i as int).map_values(
                |r: LogRow| log_output_line(r),
            ).push(log_output_line(*r)));
        }
        i += 1;
        assert(lines_view(out@) =~= logs@.take(i as int).map_values(|r: LogRow| log_output_line(r)));
    }
    assert(logs@.take(logs@.len() as int) =~= logs@);
    out
}

/// A settings value as printed: `d` when it is absent or empty.
pub open spec fn setting_text(o: Option<String>, d: Seq<char>) -> Seq<char> {
    match o {
        Some(s) => if s@.len() == 0 {
            d
        } else {
            s@
        },
        None => d,
    }
}

/// What `settings` prints.
pub open spec fn settings_output(shell: Option<String>, init: Option<String>) -> Seq<(bool, Seq<char>)> {
    seq![
        (false, "Shell:       "@ + setting_text(shell, "(default)"@)),
        (false, "Init script: "@ + setting_text(init, "(none)"@)),
    ]
}

/// The two lines that `settings` prints.
pub fn format_settings(shell_path: &Option<String>, init_script: &Option<String>) -> (res: Vec<OutputLine>)
    ensures
        lines_view(res@) == settings_output(*shell_path, *init_script),
{
    let shell = match shell_path {
        Some(s) => if s.unicode_len() == 0 {
            "(default)".to_owned()
        } else {
            s.clone()
        },
        None => "(default)".to_owned(),
    };
    let init = match init_script {
        Some(s) => if s.unicode_len() == 0 {
            "(none)".to_owned()
        } else {
            s.clone()
        },
        None => "(none)".to_owned(),
    };
    let mut a = String::new();
    push_str(&mut a, "Shell:       ");
    push_str(&mut a, shell.as_str());
    let mut b = String::new();
    push_str(&mut b, "Init script: ");
    push_str(&mut b, init.as_str());
    let mut out: Vec<OutputLine> = Vec::new();
    out.push(OutputLine { to_stderr: false, text: a });
    out.push(OutputLine { to_stderr: false, text: b });
    assert(lines_view(out@) =~= settings_output(*shell_path, *init_script));
    out
}

/// What the client prints for a plain text answer: the text, capitalized.
pub open spec fn text_output(data: ReplyData) -> Seq<(bool, Seq<char>)> {
    match data.text {
        Some(s) => seq![(false, capitalized(s@))],
        None => Seq::empty(),
    }
}

/// What the client prints for a successful answer to `command`.
pub open spec fn output_for(command: CliCommand, data: ReplyData) -> Seq<(bool, Seq<char>)> {
    match command {
        CliCommand::List => list_output(match data.rows {
            Some(v) => Some(v@),
            None => None,
        }),
        CliCommand::Logs { .. } => logs_output(match data.logs {
            Some(v) => Some(v@),
            None => None,
        }),
        CliCommand::Settings { shell, init_script } => if shell is None && init_script is None {
            settings_output(data.shell_path, data.init_script)
        } else {
            text_output(data)
        },
        CliCommand::Add { .. } => match data.name {
            Some(n) => seq![(false, "Added command '"@ + n@ + "'"@)],
            None => seq![(false, "Command added"@)],
        },
        _ => text_output(data),
    }
}

fn format_text(data: &ReplyData) -> (res: Vec<OutputLine>)
    ensures
        lines_view(res@) == text_output(*data),
{
    let mut out: Vec<OutputLine> = Vec::new();
    match &data.text {
        Some(s) => {
            out.push(OutputLine { to_stderr: false, text: capitalize(s.as_str()) });
            assert(lines_view(out@) =~= seq![(false, capitalized(s@))]);
        },
        None => {
            assert(lines_view(out@) =~= Seq::<(bool, Seq<char>)>::empty());
        },
    }
    out
}

/// What the client prints for a successful answer to `command`.
pub fn format_output(command: &CliCommand, data: &ReplyData) -> (res: Vec<OutputLine>)
    ensures
        lines_view(res@) == output_for(*command, *data),
{
    match command {
        CliCommand::List => format_list(&data.rows),
        CliCommand::Logs { .. } => format_logs(&data.logs),
        CliCommand::Settings { shell, init_script } => {
            if shell.is_none() && init_script.is_none() {
                format_settings(&data.shell_path, &data.init_script)
            } else {
                format_text(data)
            }
        },
        CliCommand::Add { .. } => {
            let mut out: Vec<OutputLine> = Vec::new();
            match &data.name {
                Some(n) => {
                    let mut line = String::new();
                    push_str(&mut line, "Added command '");
                    push_str(&mut line, n.as_str());
                    push_str(&mut line, "'");
                    out.push(OutputLine { to_stderr: false, text: line });
                    assert(lines_view(out@) =~= seq![(false, "Added command '"@ + n@ + "'"@)]);
                },
                None => {
                    out.push(OutputLine { to_stderr: false, text: "Command added".to_owned() });
                    assert(lines_view(out@) =~= seq![(false, "Command added"@)]);
                },
            }
            out
        },
        _ => format_text(data),
    }
}

/// `r` is the request that `command` sends.
pub open spec fn request_for(command: CliCommand, r: CliRequest) -> bool {
    match command {
        CliCommand::List => r is List,
        CliCommand::Start { name } => r matches CliRequest::Start { name_or_id } && name_or_id@ == name@,
        CliCommand::Stop { name } => r matches CliRequest::Stop { name_or_id } && name_or_id@ == name@,
        CliCommand::Restart { name } => r matches CliRequest::Restart { name_or_id } && name_or_id@ == name@,
        CliCommand::Add { name, dir, cmd, command_type, tag } => r matches CliRequest::Add {
            name: n,
            dir: d,
            command: c,
            command_type: t,
            tags,
        } && n@ == name@ && d@ == dir@ && c@ == cmd@ && t == Some(command_type) && if tag@.len() == 0 {
            tags is None
        } else {
            tags is Some && strings_view(tags->Some_0@) == strings_view(tag@)
        },
        CliCommand::Logs { name, n } => r matches CliRequest::Logs { name_or_id, tail } && name_or_id@ == name@
            && tail == Some(n),
        CliCommand::Settings { shell, init_script } => if shell is None && init_script is None {
            r is GetSettings
        } else {
            r matches CliRequest::SetSettings { shell_path, init_script: i } && shell_path == shell && i
                == init_script
        },
    }
}

/// The request that `command` sends to the running application.
pub fn cli_request(command: &CliCommand) -> (res: CliRequest)
    ensures
        request_for(*command, res),
{
    match command {
        CliCommand::List => CliRequest::List,
        CliCommand::Start { name } => CliRequest::Start { name_or_id: name.clone() },
        CliCommand::Stop { name } => CliRequest::Stop { name_or_id: name.clone() },
        CliCommand::Restart { name } => CliRequest::Restart { name_or_id: name.clone() },
        CliCommand::Add { name, dir, cmd, command_type, tag } => {
            let tags = if tag.len() == 0 {
                None
            } else {
                let t = tag.clone();
                proof {
                    assert(strings_view(t@) =~= strings_view(tag@)) by {
                        assert forall|i: int| 0 <= i < t.len() implies t@[i] == tag@[i] by {
                            assert(cloned::<String>(tag[i], t[i]));
                        }
                    }
                }
                Some(t)
            };
            CliRequest::Add {
                name: name.clone(),
                dir: dir.clone(),
                command: cmd.clone(),
                command_type: Some(*command_type),
                tags,
            }
        },
        CliCommand::Logs { name, n } => CliRequest::Logs { name_or_id: name.clone(), tail: Some(*n) },
        CliCommand::Settings { shell, init_script } => {
            if shell.is_none() && init_script.is_none() {
                CliRequest::GetSettings
            } else {
                CliRequest::SetSettings {
                    shell_path: crate::types::clone_opt_string(shell),
                    init_script: crate::types::clone_opt_string(init_script),
                }
            }
        },
    }
}

/// What the client prints and exits with, given what came back for
/// `command`: the answer, or why none could be had.
pub open spec fn outcome_for(command: CliCommand, reply: Result<ClientReply, String>) -> (Seq<(bool, Seq<char>)>, i32) {
    match reply {
        Ok(ClientReply::Success(data)) => (output_for(command, data), 0),
        Ok(ClientReply::Failure(m)) => (seq![(true, "Error: "@ + m@)], 1),
        Err(e) => (seq![(true, e@)], 1),
    }
}

/// What the client prints and exits with, given what came back for
/// `command`.
pub fn cli_outcome(command: &CliCommand, reply: Result<ClientReply, String>) -> (res: CliOutput)
    ensures
        (lines_view(res.lines@), res.exit_code) == outcome_for(*command, reply),
{
    match reply {
        Ok(ClientReply::Success(data)) => CliOutput { lines: format_output(command, &data), exit_code: 0 },
        Ok(ClientReply::Failure(m)) => {
            let mut line = String::new();
            push_str(&mut line, "Error: ");
            push_str(&mut line, m.as_str());
            let mut lines: Vec<OutputLine> = Vec::new();
            lines.push(OutputLine { to_stderr: true, text: line });
            assert(lines_view(lines@) =~= seq![(true, "Error: "@ + m@)]);
            CliOutput { lines, exit_code: 1 }
        },
        Err(e) => {
            let ghost ev = e@;
            let mut lines: Vec<OutputLine> = Vec::new();
            lines.push(OutputLine { to_stderr: true, text: e });
            assert(lines_view(lines@) =~= seq![(true, ev)]);
            CliOutput { lines, exit_code: 1 }
        },
    }
}

} // verus!
