use vstd::prelude::*;
use vstd::utf8::encode_utf8;
use crate::text::signed_decimal;
use crate::types::{CommandEntry, CommandEntryView, ShellSettings, entries_view};

verus! {

/// What the configuration file holds: the commands and the shell settings.
pub struct Config {
    pub commands: Vec<CommandEntry>,
    pub shell_settings: ShellSettings,
}

/// The value a [`Config`] stands for.
pub struct ConfigView {
    pub commands: Seq<CommandEntryView>,
    pub shell_settings: ShellSettings,
}

impl View for Config {
    type V = ConfigView;

    open spec fn view(&self) -> ConfigView {
        ConfigView { commands: entries_view(self.commands@), shell_settings: self.shell_settings }
    }
}

/// The value of a configuration that was read (`None` when the file is
/// missing, unreadable or not a configuration).
pub open spec fn opt_config_view(c: Option<Config>) -> Option<ConfigView> {
    match c {
        Some(c) => Some(c@),
        None => None,
    }
}

/// The commands of a configuration that was read: none when it was not.
pub open spec fn loaded_commands(c: Option<ConfigView>) -> Seq<CommandEntryView> {
    match c {
        Some(c) => c.commands,
        None => Seq::empty(),
    }
}

/// The shell settings of a configuration that was read: the defaults (no
/// shell path, no init script) when it was not.
pub open spec fn loaded_settings(c: Option<ConfigView>) -> ShellSettings {
    match c {
        Some(c) => c.shell_settings,
        None => ShellSettings { shell_path: None, init_script: None },
    }
}

fn copy_commands(commands: &Vec<CommandEntry>) -> (res: Vec<CommandEntry>)
    ensures
        entries_view(res@) == entries_view(commands@),
{
    let res = commands.clone();
    proof {
        assert(entries_view(res@) =~= entries_view(commands@)) by {
            assert forall|i: int| 0 <= i < res.len() implies res@[i]@ == commands@[i]@ by {
                assert(cloned::<CommandEntry>(commands[i], res[i]));
            }
        }
    }
    res
}

/// The commands of the configuration read from disk.
pub fn load_commands(parsed: Option<Config>) -> (res: Vec<CommandEntry>)
    ensures
        entries_view(res@) == loaded_commands(opt_config_view(parsed)),
{
    match parsed {
        Some(c) => c.commands,
        None => {
            let v: Vec<CommandEntry> = Vec::new();
            assert(entries_view(v@) =~= Seq::<CommandEntryView>::empty());
            v
        },
    }
}

/// The shell settings of the configuration read from disk.
pub fn load_shell_settings(parsed: Option<Config>) -> (res: ShellSettings)
    ensures
        res == loaded_settings(opt_config_view(parsed)),
{
    match parsed {
        Some(c) => c.shell_settings,
        None => ShellSettings::default(),
    }
}

/// The configuration to write when the commands change: the new commands,
/// with the shell settings of the configuration on disk kept.
pub fn save_commands(existing: Option<Config>, commands: &Vec<CommandEntry>) -> (res: Config)
    ensures
        res@ == (ConfigView {
            commands: entries_view(commands@),
            shell_settings: loaded_settings(opt_config_view(existing)),
        }),
{
    Config { commands: copy_commands(commands), shell_settings: load_shell_settings(existing) }
}

/// The configuration to write when the shell settings change: the new
/// settings, with the commands of the configuration on disk kept.
pub fn save_shell_settings(existing: Option<Config>, settings: &ShellSettings) -> (res: Config)
    ensures
        res@ == (ConfigView {
            commands: loaded_commands(opt_config_view(existing)),
            shell_settings: *settings,
        }),
{
    Config { commands: load_commands(existing), shell_settings: settings.clone() }
}

/// Saving the commands and reading the configuration back gives those
/// commands, and the shell settings that were on disk before; saving the
/// shell settings and reading back gives those settings, and the commands that
/// were on disk before.
pub proof fn lemma_config_read_after_write(
    existing: Option<ConfigView>,
    commands: Seq<CommandEntryView>,
    settings: ShellSettings,
)
    ensures
        ({
            let written = ConfigView { commands, shell_settings: loaded_settings(existing) };
            &&& loaded_commands(Some(written)) == commands
            &&& loaded_settings(Some(written)) == loaded_settings(existing)
        }),
        ({
            let written = ConfigView { commands: loaded_commands(existing), shell_settings: settings };
            &&& loaded_settings(Some(written)) == settings
            &&& loaded_commands(Some(written)) == loaded_commands(existing)
        }),
{
}

/// The items of a JSON array of integers, separated by commas.
pub open spec fn json_int_items(s: Seq<i32>) -> Seq<char>
    decreases s.len(),
{
    if s.len() == 0 {
        Seq::empty()
    } else if s.len() == 1 {
        signed_decimal(s[0] as int)
    } else {
        json_int_items(s.drop_last()) + seq![','] + signed_decimal(s.last() as int)
    }
}

/// The compact JSON text of an array of integers, such as `[12,-3]`.
pub open spec fn json_int_array(s: Seq<i32>) -> Seq<char> {
    seq!['['] + json_int_items(s) + seq![']']
}

/// What `serde_json::from_str::<Vec<i32>>` gives for `text`: the integers, or
/// `None` when it fails.
pub uninterp spec fn pids_from_json(text: Seq<char>) -> Option<Seq<i32>>;

/// `serde_json::to_string` on a list of process groups. The serializer writes
/// an array compactly: `[`, the items in decimal separated by `,`, and `]`;
/// writing to a string cannot fail. Reading that text back with
/// `serde_json::from_str` gives the same list.
#[verifier::external_body]
fn pids_to_json(pgids: &Vec<i32>) -> (res: String)
    ensures
        res@ == json_int_array(pgids@),
        pids_from_json(res@) == Some(pgids@),
{
    serde_json::to_string(pgids).unwrap_or_default()
}

/// `serde_json::from_str::<Vec<i32>>`, with `None` for any error.
#[verifier::external_body]
fn pids_of_json(text: &str) -> (res: Option<Vec<i32>>)
    ensures
        match res {
            Some(v) => pids_from_json(text@) == Some(v@),
            None => pids_from_json(text@) is None,
        },
{
    serde_json::from_str::<Vec<i32>>(text).ok()
}

/// What the pid file should hold for `pgids`: nothing (the file is removed)
/// when no process runs, else their JSON array.
pub fn save_running_pids(pgids: &Vec<i32>) -> (res: Option<String>)
    ensures
        pgids@.len() == 0 ==> res is None,
        pgids@.len() > 0 ==> res is Some && res->Some_0@ == json_int_array(pgids@) && pids_from_json(
            res->Some_0@,
        ) == Some(pgids@),
{
    if pgids.len() == 0 {
        None
    } else {
        Some(pids_to_json(pgids))
    }
}

/// The process groups recorded in the pid file, given what was read from it
/// (`None` when it is missing or unreadable); none when it is not a JSON array
/// of integers.
pub fn load_running_pids(contents: Option<String>) -> (res: Vec<i32>)
    ensures
        res@ == match contents {
            Some(s) => match pids_from_json(s@) {
                Some(v) => v,
                None => Seq::<i32>::empty(),
            },
            None => Seq::<i32>::empty(),
        },
{
    match contents {
        Some(s) => match pids_of_json(s.as_str()) {
            Some(v) => v,
            None => Vec::new(),
        },
        None => Vec::new(),
    }
}

/// Recording process groups in the pid file (`written` is what
/// [`save_running_pids`] gives for them) and reading it back with
/// [`load_running_pids`] gives the same process groups.
pub proof fn lemma_pid_file_round_trip(pgids: Seq<i32>, written: Option<Seq<char>>)
    requires
        pgids.len() == 0 ==> written is None,
        pgids.len() > 0 ==> written is Some && pids_from_json(written->Some_0) == Some(pgids),
    ensures
        match written {
            Some(s) => match pids_from_json(s) {
                Some(v) => v,
                None => Seq::<i32>::empty(),
            },
            None => Seq::<i32>::empty(),
        } == pgids,
{
    if pgids.len() == 0 {
        assert(pgids =~= Seq::<i32>::empty());
    }
}

/// The bytes of the text `s`, as a path holds them (UTF-8).
pub open spec fn text_bytes(s: Seq<char>) -> Seq<u8> {
    encode_utf8(s)
}

/// The path `base` joined with the relative path `comp`, as `PathBuf::push`
/// joins them: with a `/` between them unless `base` is empty or already ends
/// with one. Paths are the bytes that the operating system holds, which need
/// not be valid UTF-8.
pub open spec fn path_join(base: Seq<u8>, comp: Seq<u8>) -> Seq<u8> {
    if base.len() == 0 || base.last() == 0x2f {
        base + comp
    } else {
        base + seq![0x2fu8] + comp
    }
}

/// The directory of this application's files inside the user's configuration
/// directory `base`.
pub open spec fn app_dir(base: Seq<u8>) -> Seq<u8> {
    path_join(base, text_bytes("termina"@))
}

/// The path `base` joined with the relative path `comp`.
pub fn join_path(base: &Vec<u8>, comp: &str) -> (res: Vec<u8>)
    ensures
        res@ == path_join(base@, text_bytes(comp@)),
{
    let mut out: Vec<u8> = Vec::new();
    let mut i: usize = 0;
    while i < base.len()
        invariant
            i <= base@.len(),
            out@ == base@.take(i as int),
        decreases base@.len() - i,
    {
        out.push(base[i]);
        i += 1;
        assert(out@ =~= base@.take(i as int));
    }
    assert(base@.take(base@.len() as int) =~= base@);
    let n = base.len();
    if n > 0 && base[n - 1] != 0x2f {
        out.push(0x2f);
    }
    let ghost head = out@;
    let bytes = comp.as_bytes();
    let mut j: usize = 0;
    while j < bytes.len()
        invariant
            j <= bytes@.len(),
            bytes@ == text_bytes(comp@),
            out@ == head + bytes@.take(j as int),
        decreases bytes@.len() - j,
    {
        out.push(bytes[j]);
        j += 1;
        assert(out@ =~= head + bytes@.take(j as int));
    }
    assert(bytes@.take(bytes@.len() as int) =~= bytes@);
    assert(n > 0 && base@[n - 1] != 0x2f ==> head =~= base@ + seq![0x2fu8]);
    out
}

/// `dirs::config_dir`, as the bytes of the path: the user's configuration
/// directory, which depends on the platform and the environment; `None` when
/// there is none. What it is is not stated.
#[verifier::external_body]
fn system_config_dir() -> (res: Option<Vec<u8>>) {
    dirs::config_dir().map(|p| p.into_os_string().into_encoded_bytes())
}

/// The directory of this application's files, inside the user's
/// configuration directory; `None` when that cannot be determined.
pub fn config_dir() -> (res: Option<Vec<u8>>)
    ensures
        res is Some ==> exists|base: Seq<u8>| res->Some_0@ == #[trigger] app_dir(base),
{
    match system_config_dir() {
        Some(base) => {
            let d = join_path(&base, "termina");
            assert(d@ == app_dir(base@));
            Some(d)
        },
        None => None,
    }
}

/// The path of file `name` in the directory of this application's files.
pub fn app_file_path(name: &str) -> (res: Option<Vec<u8>>)
    ensures
        res is Some ==> exists|base: Seq<u8>| res->Some_0@ == #[trigger] path_join(app_dir(base), text_bytes(name@)),
{
    match config_dir() {
        Some(d) => {
            let p = join_path(&d, name);
            Some(p)
        },
        None => None,
    }
}

/// The path of the configuration file, `config.json`.
pub fn get_config_path() -> (res: Option<Vec<u8>>)
    ensures
        res is Some ==> exists|base: Seq<u8>| res->Some_0@ == #[trigger] path_join(
            app_dir(base),
            text_bytes("config.json"@),
        ),
{
    app_file_path("config.json")
}

/// The path of the pid file, `running_pids.json`.
pub fn get_pids_path() -> (res: Option<Vec<u8>>)
    ensures
        res is Some ==> exists|base: Seq<u8>| res->Some_0@ == #[trigger] path_join(
            app_dir(base),
            text_bytes("running_pids.json"@),
        ),
{
    app_file_path("running_pids.json")
}

/// The path of the command socket, `termina.sock`.
pub fn socket_path() -> (res: Option<Vec<u8>>)
    ensures
        res is Some ==> exists|base: Seq<u8>| res->Some_0@ == #[trigger] path_join(
            app_dir(base),
            text_bytes("termina.sock"@),
        ),
{
    app_file_path("termina.sock")
}

} // verus!
