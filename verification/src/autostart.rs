//! Starting the program when the user logs in.
//!
//! Each platform has its own mechanism for this, all of them without special rights: a systemd user
//! unit, a LaunchAgent, or a value in the registry. Here it is said what has to be written and run.

use crate::text::{
    cat, cat3, decimal, decimal_text, owned, replace_char, replaced, replacing_what_is_not_there,
    replacing_works_piece_by_piece, texts,
};
use vstd::prelude::*;

verus! {

/// The mechanism of the platform.
#[derive(Debug, PartialEq, Eq)]
pub enum Service {
    Systemd,
    /// A LaunchAgent for the user with this number, in the file at `plist_path`; what the program
    /// prints goes to the other two files.
    Launchd { uid: u32, plist_path: String, stdout: String, stderr: String },
    Registry,
}

/// What a failure of a command means.
#[derive(Debug, Clone, Copy, PartialEq, Eq, Structural)]
pub enum OnFailure {
    /// The whole fails.
    Stop,
    /// It does not matter.
    Ignore,
    /// The next command is run instead, and only then.
    TryNext,
}

/// A command to run.
#[derive(Debug, PartialEq, Eq)]
pub struct Command {
    pub program: String,
    pub args: Vec<String>,
    pub on_failure: OnFailure,
}

/// What a [`Command`] says.
pub struct CommandView {
    pub program: Seq<char>,
    pub args: Seq<Seq<char>>,
    pub on_failure: OnFailure,
}

impl View for Command {
    type V = CommandView;

    open spec fn view(&self) -> CommandView {
        CommandView {
            program: self.program@,
            args: texts(self.args@),
            on_failure: self.on_failure,
        }
    }
}

/// What several commands say.
pub open spec fn command_views(v: Seq<Command>) -> Seq<CommandView> {
    v.map_values(|c: Command| c@)
}

/// A file to write: its name in the directory of the platform, and what it holds.
#[derive(Debug, PartialEq, Eq)]
pub struct ServiceFile {
    pub name: String,
    pub content: String,
}

/// What has to be done to install: the file to write first, and then the commands to run.
#[derive(Debug, PartialEq, Eq)]
pub struct InstallPlan {
    pub file: Option<ServiceFile>,
    pub commands: Vec<Command>,
}

/// What an [`InstallPlan`] says.
pub struct InstallPlanView {
    pub file: Option<(Seq<char>, Seq<char>)>,
    pub commands: Seq<CommandView>,
}

impl View for InstallPlan {
    type V = InstallPlanView;

    open spec fn view(&self) -> InstallPlanView {
        InstallPlanView {
            file: match self.file {
                Some(f) => Some((f.name@, f.content@)),
                None => None,
            },
            commands: command_views(self.commands@),
        }
    }
}

/// What has to be done to uninstall: the commands to run first, the file to remove if it is there,
/// and the commands to run then.
#[derive(Debug, PartialEq, Eq)]
pub struct UninstallPlan {
    pub before: Vec<Command>,
    pub remove: Option<String>,
    pub after: Vec<Command>,
}

/// What an [`UninstallPlan`] says.
pub struct UninstallPlanView {
    pub before: Seq<CommandView>,
    pub remove: Option<Seq<char>>,
    pub after: Seq<CommandView>,
}

impl View for UninstallPlan {
    type V = UninstallPlanView;

    open spec fn view(&self) -> UninstallPlanView {
        UninstallPlanView {
            before: command_views(self.before@),
            remove: match self.remove {
                Some(f) => Some(f@),
                None => None,
            },
            after: command_views(self.after@),
        }
    }
}

/// A character that a shell takes as it is.
pub open spec fn is_plain(c: char) -> bool {
    ||| '0' <= c <= '9'
    ||| 'a' <= c <= 'z'
    ||| 'A' <= c <= 'Z'
    ||| c == '_'
    ||| c == '/'
    ||| c == '.'
    ||| c == '-'
    ||| c == ':'
}

/// A text as one word of a command line: as it is where all of it is plain, otherwise in quotes.
pub open spec fn quoted(t: Seq<char>) -> Seq<char> {
    if forall|i: int| 0 <= i < t.len() ==> is_plain(#[trigger] t[i]) {
        t
    } else {
        "'"@ + replaced(t, '\'', "'\\''"@) + "'"@
    }
}

/// A text as one word of a command line.
pub fn shell_quote(s: &str) -> (r: String)
    ensures
        r@ == quoted(s@),
{
    let n: usize = s.unicode_len();
    let mut i: usize = 0;
    while i < n
        invariant
            i <= n,
            n == s@.len(),
            forall|j: int| 0 <= j < i ==> is_plain(#[trigger] s@[j]),
        decreases n - i,
    {
        let c = s.get_char(i);
        let plain = ('0' <= c && c <= '9') || ('a' <= c && c <= 'z') || ('A' <= c && c <= 'Z') || c
            == '_' || c == '/' || c == '.' || c == '-' || c == ':';
        if !plain {
            assert(!is_plain(s@[i as int]));
            let inner = replace_char(s, '\'', "'\\''");
            return cat3("'", inner.as_str(), "'");
        }
        i = i + 1;
    }
    owned(s)
}

/// A text as it stands in XML.
pub open spec fn escaped(t: Seq<char>) -> Seq<char> {
    replaced(replaced(replaced(t, '&', "&amp;"@), '<', "&lt;"@), '>', "&gt;"@)
}

/// A text as it stands in XML.
pub fn xml_escape(s: &str) -> (r: String)
    ensures
        r@ == escaped(s@),
{
    let a = replace_char(s, '&', "&amp;");
    let b = replace_char(a.as_str(), '<', "&lt;");
    replace_char(b.as_str(), '>', "&gt;")
}

/// The words of a command line, with a space in front of every one but the first.
pub open spec fn joined_words(ws: Seq<Seq<char>>) -> Seq<char>
    decreases ws.len(),
{
    if ws.len() == 0 {
        Seq::empty()
    } else if ws.len() == 1 {
        quoted(ws[0])
    } else {
        joined_words(ws.drop_last()) + " "@ + quoted(ws.last())
    }
}

/// The command line of a systemd unit.
pub open spec fn exec_start(bin: Seq<char>, args: Seq<Seq<char>>) -> Seq<char> {
    quoted(bin) + " "@ + joined_words(args)
}

/// The systemd unit.
pub open spec fn unit_text(label: Seq<char>, bin: Seq<char>, args: Seq<Seq<char>>) -> Seq<char> {
    "[Unit]\nDescription=Union — "@ + label
        + "\nAfter=network.target\n\n[Service]\nExecStart="@ + exec_start(bin, args)
        + "\nRestart=on-failure\nRestartSec=5\n\n[Install]\nWantedBy=default.target\n"@
}

/// One argument of a LaunchAgent.
pub open spec fn plist_string(t: Seq<char>) -> Seq<char> {
    "        <string>"@ + escaped(t) + "</string>\n"@
}

/// The program and its arguments in a LaunchAgent.
pub open spec fn plist_strings(bin: Seq<char>, args: Seq<Seq<char>>) -> Seq<char>
    decreases args.len(),
{
    if args.len() == 0 {
        plist_string(bin)
    } else {
        plist_strings(bin, args.drop_last()) + plist_string(args.last())
    }
}

/// The LaunchAgent.
pub open spec fn plist_text(
    label: Seq<char>,
    bin: Seq<char>,
    args: Seq<Seq<char>>,
    stdout: Seq<char>,
    stderr: Seq<char>,
) -> Seq<char> {
    "<?xml version=\"1.0\" encoding=\"UTF-8\"?>\n<!DOCTYPE plist PUBLIC \"-//Apple//DTD PLIST 1.0//EN\" \"http://www.apple.com/DTDs/PropertyList-1.0.dtd\">\n<plist version=\"1.0\">\n<dict>\n<key>Label</key><string>"@
        + label + "</string>\n<key>ProgramArguments</key>\n    <array>\n"@ + plist_strings(
        bin,
        args,
    )
        + "    </array>\n<key>RunAtLoad</key><true/>\n<key>KeepAlive</key><true/>\n<key>StandardOutPath</key><string>"@
        + escaped(stdout) + "</string>\n<key>StandardErrorPath</key><string>"@ + escaped(stderr)
        + "</string>\n</dict>\n</plist>\n"@
}

/// The arguments, each in quotes, with a space in front of each.
pub open spec fn quoted_args(args: Seq<Seq<char>>) -> Seq<char>
    decreases args.len(),
{
    if args.len() == 0 {
        Seq::empty()
    } else {
        quoted_args(args.drop_last()) + " \""@ + args.last() + "\""@
    }
}

/// The command line in the registry.
pub open spec fn registry_line(bin: Seq<char>, args: Seq<Seq<char>>) -> Seq<char> {
    "\""@ + bin + "\""@ + quoted_args(args)
}

/// The key of the registry that lists what is started at login.
pub const RUN_KEY: &'static str = "HKCU\\Software\\Microsoft\\Windows\\CurrentVersion\\Run";

/// What has to be done to install.
pub open spec fn install_plan(
    service: Service,
    label: Seq<char>,
    bin: Seq<char>,
    args: Seq<Seq<char>>,
) -> InstallPlanView {
    match service {
        Service::Systemd => InstallPlanView {
            file: Some((label + ".service"@, unit_text(label, bin, args))),
            commands: seq![
                CommandView {
                    program: "systemctl"@,
                    args: seq!["--user"@, "daemon-reload"@],
                    on_failure: OnFailure::Stop,
                },
                CommandView {
                    program: "systemctl"@,
                    args: seq!["--user"@, "enable"@, "--now"@, label + ".service"@],
                    on_failure: OnFailure::Stop,
                },
            ],
        },
        Service::Launchd { uid, plist_path, stdout, stderr } => InstallPlanView {
            file: Some((label + ".plist"@, plist_text(label, bin, args, stdout@, stderr@))),
            commands: seq![
                CommandView {
                    program: "launchctl"@,
                    args: seq!["unload"@, plist_path@],
                    on_failure: OnFailure::Ignore,
                },
                CommandView {
                    program: "launchctl"@,
                    args: seq!["bootstrap"@, "gui/"@ + decimal(uid as nat), plist_path@],
                    on_failure: OnFailure::TryNext,
                },
                CommandView {
                    program: "launchctl"@,
                    args: seq!["load"@, plist_path@],
                    on_failure: OnFailure::Stop,
                },
            ],
        },
        Service::Registry => InstallPlanView {
            file: None,
            commands: seq![
                CommandView {
                    program: "reg"@,
                    args: seq![
                        "add"@,
                        RUN_KEY@,
                        "/v"@,
                        label,
                        "/t"@,
                        "REG_SZ"@,
                        "/d"@,
                        registry_line(bin, args),
                        "/f"@,
                    ],
                    on_failure: OnFailure::Stop,
                },
            ],
        },
    }
}

/// What has to be done to uninstall.
pub open spec fn uninstall_plan(service: Service, label: Seq<char>) -> UninstallPlanView {
    match service {
        Service::Systemd => UninstallPlanView {
            before: seq![
                CommandView {
                    program: "systemctl"@,
                    args: seq!["--user"@, "disable"@, "--now"@, label + ".service"@],
                    on_failure: OnFailure::Ignore,
                },
            ],
            remove: Some(label + ".service"@),
            after: seq![
                CommandView {
                    program: "systemctl"@,
                    args: seq!["--user"@, "daemon-reload"@],
                    on_failure: OnFailure::Ignore,
                },
            ],
        },
        Service::Launchd { uid, plist_path, .. } => UninstallPlanView {
            before: seq![
                CommandView {
                    program: "launchctl"@,
                    args: seq!["bootout"@, "gui/"@ + decimal(uid as nat) + "/"@ + label],
                    on_failure: OnFailure::Ignore,
                },
                CommandView {
                    program: "launchctl"@,
                    args: seq!["unload"@, plist_path@],
                    on_failure: OnFailure::Ignore,
                },
            ],
            remove: Some(label + ".plist"@),
            after: Seq::empty(),
        },
        Service::Registry => UninstallPlanView {
            before: seq![
                CommandView {
                    program: "reg"@,
                    args: seq!["delete"@, RUN_KEY@, "/v"@, label, "/f"@],
                    on_failure: OnFailure::Ignore,
                },
            ],
            remove: None,
            after: Seq::empty(),
        },
    }
}

/// The command line of a systemd unit.
fn exec_start_line(bin: &str, args: &Vec<String>) -> (r: String)
    ensures
        r@ == exec_start(bin@, texts(args@)),
{
    let q = shell_quote(bin);
    let mut out = cat(q.as_str(), " ");
    let n: usize = args.len();
    let mut i: usize = 0;
    let ghost head = out@;
    let ghost words = texts(args@);
    assert(words.take(0) =~= Seq::empty());
    assert(out@ =~= head + joined_words(words.take(0)));
    while i < n
        invariant
            i <= n,
            n == args@.len(),
            words == texts(args@),
            out@ == head + joined_words(words.take(i as int)),
        decreases n - i,
    {
        let w = shell_quote(args[i].as_str());
        proof {
            assert(words.take(i + 1).drop_last() =~= words.take(i as int));
            assert(words.take(i + 1).last() == args@[i as int]@);
        }
        if i > 0 {
            out.append(" ");
        } else {
            assert(words.take(0) =~= Seq::empty());
        }
        out.append(w.as_str());
        assert(out@ =~= head + joined_words(words.take(i + 1)));
        i = i + 1;
    }
    assert(words.take(n as int) =~= words);
    out
}

/// The systemd unit.
fn unit_content(label: &str, bin: &str, args: &Vec<String>) -> (r: String)
    ensures
        r@ == unit_text(label@, bin@, texts(args@)),
{
    let line = exec_start_line(bin, args);
    let mut out = cat("[Unit]\nDescription=Union — ", label);
    out.append("\nAfter=network.target\n\n[Service]\nExecStart=");
    out.append(line.as_str());
    out.append("\nRestart=on-failure\nRestartSec=5\n\n[Install]\nWantedBy=default.target\n");
    out
}

/// One argument of a LaunchAgent.
fn plist_line(t: &str) -> (r: String)
    ensures
        r@ == plist_string(t@),
{
    let e = xml_escape(t);
    cat3("        <string>", e.as_str(), "</string>\n")
}

/// The program and its arguments in a LaunchAgent.
fn plist_lines(bin: &str, args: &Vec<String>) -> (r: String)
    ensures
        r@ == plist_strings(bin@, texts(args@)),
{
    let mut out = plist_line(bin);
    let n: usize = args.len();
    let mut i: usize = 0;
    let ghost words = texts(args@);
    assert(words.take(0) =~= Seq::empty());
    while i < n
        invariant
            i <= n,
            n == args@.len(),
            words == texts(args@),
            out@ == plist_strings(bin@, words.take(i as int)),
        decreases n - i,
    {
        let w = plist_line(args[i].as_str());
        proof {
            assert(words.take(i + 1).drop_last() =~= words.take(i as int));
            assert(words.take(i + 1).last() == args@[i as int]@);
        }
        out.append(w.as_str());
        i = i + 1;
    }
    assert(words.take(n as int) =~= words);
    out
}

/// The LaunchAgent.
fn plist_content(label: &str, bin: &str, args: &Vec<String>, stdout: &str, stderr: &str) -> (r:
    String)
    ensures
        r@ == plist_text(label@, bin@, texts(args@), stdout@, stderr@),
{
    let lines = plist_lines(bin, args);
    let o = xml_escape(stdout);
    let e = xml_escape(stderr);
    let mut out = cat(
        "<?xml version=\"1.0\" encoding=\"UTF-8\"?>\n<!DOCTYPE plist PUBLIC \"-//Apple//DTD PLIST 1.0//EN\" \"http://www.apple.com/DTDs/PropertyList-1.0.dtd\">\n<plist version=\"1.0\">\n<dict>\n<key>Label</key><string>",
        label,
    );
    out.append("</string>\n<key>ProgramArguments</key>\n    <array>\n");
    out.append(lines.as_str());
    out.append(
        "    </array>\n<key>RunAtLoad</key><true/>\n<key>KeepAlive</key><true/>\n<key>StandardOutPath</key><string>",
    );
    out.append(o.as_str());
    out.append("</string>\n<key>StandardErrorPath</key><string>");
    out.append(e.as_str());
    out.append("</string>\n</dict>\n</plist>\n");
    out
}

/// The command line in the registry.
fn registry_command(bin: &str, args: &Vec<String>) -> (r: String)
    ensures
        r@ == registry_line(bin@, texts(args@)),
{
    let mut out = cat3("\"", bin, "\"");
    let n: usize = args.len();
    let mut i: usize = 0;
    let ghost head = out@;
    let ghost words = texts(args@);
    assert(words.take(0) =~= Seq::empty());
    assert(out@ =~= head + quoted_args(words.take(0)));
    while i < n
        invariant
            i <= n,
            n == args@.len(),
            words == texts(args@),
            out@ == head + quoted_args(words.take(i as int)),
        decreases n - i,
    {
        proof {
            assert(words.take(i + 1).drop_last() =~= words.take(i as int));
            assert(words.take(i + 1).last() == args@[i as int]@);
        }
        out.append(" \"");
        out.append(args[i].as_str());
        out.append("\"");
        assert(out@ =~= head + quoted_args(words.take(i + 1)));
        i = i + 1;
    }
    assert(words.take(n as int) =~= words);
    out
}

/// A list of two texts.
fn two(a: &str, b: &str) -> (r: Vec<String>)
    ensures
        texts(r@) == seq![a@, b@],
{
    let mut v: Vec<String> = Vec::new();
    v.push(owned(a));
    v.push(owned(b));
    assert(texts(v@) =~= seq![a@, b@]);
    v
}

/// A list with one text more.
fn and(v: Vec<String>, a: &str) -> (r: Vec<String>)
    ensures
        texts(r@) == texts(v@).push(a@),
{
    let mut v = v;
    let ghost before = texts(v@);
    v.push(owned(a));
    assert(texts(v@) =~= before.push(a@));
    v
}

/// A command.
fn command(program: &str, args: Vec<String>, on_failure: OnFailure) -> (r: Command)
    ensures
        r@ == (CommandView { program: program@, args: texts(args@), on_failure }),
{
    Command { program: owned(program), args, on_failure }
}

/// What has to be done so that `bin` is started with `args` whenever the user logs in. `bin` is the
/// full path of the program.
pub fn install(service: &Service, label: &str, bin: &str, args: &Vec<String>) -> (r: InstallPlan)
    ensures
        r@ == install_plan(*service, label@, bin@, texts(args@)),
{
    let mut commands: Vec<Command> = Vec::new();
    match service {
        Service::Systemd => {
            let name = cat(label, ".service");
            commands.push(
                command("systemctl", two("--user", "daemon-reload"), OnFailure::Stop),
            );
            let a = and(and(two("--user", "enable"), "--now"), name.as_str());
            commands.push(command("systemctl", a, OnFailure::Stop));
            let content = unit_content(label, bin, args);
            let r = InstallPlan { file: Some(ServiceFile { name, content }), commands };
            proof {
                let want = install_plan(*service, label@, bin@, texts(args@)).commands;
                assert(r@.commands[0].args =~= want[0].args);
                assert(r@.commands[1].args =~= want[1].args);
                assert(r@.commands =~= want);
            }
            r
        },
        Service::Launchd { uid, plist_path, stdout, stderr } => {
            let path = plist_path.as_str();
            let n = decimal_text(*uid as u64);
            let domain = cat("gui/", n.as_str());
            commands.push(command("launchctl", two("unload", path), OnFailure::Ignore));
            let a = and(two("bootstrap", domain.as_str()), path);
            commands.push(command("launchctl", a, OnFailure::TryNext));
            commands.push(command("launchctl", two("load", path), OnFailure::Stop));
            let content = plist_content(label, bin, args, stdout.as_str(), stderr.as_str());
            let r = InstallPlan {
                file: Some(ServiceFile { name: cat(label, ".plist"), content }),
                commands,
            };
            proof {
                let want = install_plan(*service, label@, bin@, texts(args@)).commands;
                assert(r@.commands[0].args =~= want[0].args);
                assert(r@.commands[1].args =~= want[1].args);
                assert(r@.commands[2].args =~= want[2].args);
                assert(r@.commands =~= want);
            }
            r
        },
        Service::Registry => {
            let line = registry_command(bin, args);
            let a = and(and(and(two("add", RUN_KEY), "/v"), label), "/t");
            let b = and(and(and(and(a, "REG_SZ"), "/d"), line.as_str()), "/f");
            commands.push(command("reg", b, OnFailure::Stop));
            let r = InstallPlan { file: None, commands };
            proof {
                let want = install_plan(*service, label@, bin@, texts(args@)).commands;
                assert(r@.commands[0].args =~= want[0].args);
                assert(r@.commands =~= want);
            }
            r
        },
    }
}

/// What has to be done so that the program is not started any more.
pub fn uninstall(service: &Service, label: &str) -> (r: UninstallPlan)
    ensures
        r@ == uninstall_plan(*service, label@),
{
    let mut before: Vec<Command> = Vec::new();
    let mut after: Vec<Command> = Vec::new();
    match service {
        Service::Systemd => {
            let name = cat(label, ".service");
            let a = and(and(two("--user", "disable"), "--now"), name.as_str());
            before.push(command("systemctl", a, OnFailure::Ignore));
            after.push(
                command("systemctl", two("--user", "daemon-reload"), OnFailure::Ignore),
            );
            let r = UninstallPlan { before, remove: Some(name), after };
            proof {
                let want = uninstall_plan(*service, label@);
                assert(r@.before[0].args =~= want.before[0].args);
                assert(r@.after[0].args =~= want.after[0].args);
                assert(r@.before =~= want.before);
                assert(r@.after =~= want.after);
            }
            r
        },
        Service::Launchd { uid, plist_path, .. } => {
            let n = decimal_text(*uid as u64);
            let domain = cat3("gui/", n.as_str(), "/");
            let target = cat(domain.as_str(), label);
            before.push(command("launchctl", two("bootout", target.as_str()), OnFailure::Ignore));
            before.push(
                command("launchctl", two("unload", plist_path.as_str()), OnFailure::Ignore),
            );
            let r = UninstallPlan { before, remove: Some(cat(label, ".plist")), after };
            proof {
                let want = uninstall_plan(*service, label@);
                assert(r@.before =~= want.before);
                assert(r@.after =~= want.after);
            }
            r
        },
        Service::Registry => {
            let a = and(and(and(two("delete", RUN_KEY), "/v"), label), "/f");
            before.push(command("reg", a, OnFailure::Ignore));
            let r = UninstallPlan { before, remove: None, after };
            proof {
                let want = uninstall_plan(*service, label@);
                assert(r@.before[0].args =~= want.before[0].args);
                assert(r@.before =~= want.before);
                assert(r@.after =~= want.after);
            }
            r
        },
    }
}

/// What is removed when the program is uninstalled is what was written when it was installed.
pub proof fn uninstall_removes_what_install_wrote(
    service: Service,
    label: Seq<char>,
    bin: Seq<char>,
    args: Seq<Seq<char>>,
)
    ensures
        match install_plan(service, label, bin, args).file {
            Some((name, _)) => uninstall_plan(service, label).remove == Some(name),
            None => uninstall_plan(service, label).remove is None,
        },
{
}

/// Which command comes after the one at `at` has gone well or not, if there is one; an error where
/// the whole has failed.
pub open spec fn command_after(commands: Seq<CommandView>, at: int, ok: bool) -> Result<
    Option<int>,
    int,
> {
    let then = commands[at].on_failure;
    let next = if ok && then == OnFailure::TryNext {
        at + 2
    } else {
        at + 1
    };
    if !ok && then == OnFailure::Stop {
        Err(at)
    } else if next < commands.len() {
        Ok(Some(next))
    } else {
        Ok(None)
    }
}

/// Which command to run after the one at `at`, where it has gone well or not: `Err` where the whole
/// has failed with it, and `Ok(None)` where nothing is left to run.
pub fn after_command(commands: &Vec<Command>, at: usize, ok: bool) -> (r: Result<
    Option<usize>,
    usize,
>)
    requires
        at < commands@.len(),
    ensures
        match command_after(command_views(commands@), at as int, ok) {
            Ok(Some(next)) => r is Ok && r->Ok_0 is Some && r->Ok_0->Some_0 == next,
            Ok(None) => r is Ok && r->Ok_0 is None,
            Err(failed) => r is Err && r->Err_0 == failed,
        },
{
    assert(command_views(commands@)[at as int] == commands@[at as int]@);
    let then = commands[at].on_failure;
    if !ok && then == OnFailure::Stop {
        return Err(at);
    }
    let step: usize = if ok && then == OnFailure::TryNext {
        2
    } else {
        1
    };
    if commands.len() - at > step {
        Ok(Some(at + step))
    } else {
        Ok(None)
    }
}

/// What a shell takes from one word. In quotes every character up to the next quote stands for
/// itself; outside them a backslash takes the next character as it is.
pub open spec fn shell_reads(w: Seq<char>, in_quotes: bool) -> Seq<char>
    decreases w.len(),
{
    if w.len() == 0 {
        Seq::empty()
    } else if in_quotes {
        if w[0] == '\'' {
            shell_reads(w.skip(1), false)
        } else {
            seq![w[0]] + shell_reads(w.skip(1), true)
        }
    } else if w[0] == '\'' {
        shell_reads(w.skip(1), true)
    } else if w[0] == '\\' && w.len() > 1 {
        seq![w[1]] + shell_reads(w.skip(2), false)
    } else {
        seq![w[0]] + shell_reads(w.skip(1), false)
    }
}

/// A shell takes the inside of a quoted word for the text.
proof fn lemma_reads_inside(t: Seq<char>)
    ensures
        shell_reads(replaced(t, '\'', "'\\''"@) + "'"@, true) == t,
    decreases t.len(),
{
    reveal_strlit("'\\''");
    reveal_strlit("'");
    let with = "'\\''"@;
    if t.len() == 0 {
        let w = replaced(t, '\'', with) + "'"@;
        assert(w.len() == 1 && w[0] == '\'');
        assert(w.skip(1) =~= Seq::empty());
        assert(shell_reads(w.skip(1), false) =~= Seq::empty());
        assert(shell_reads(w, true) =~= t);
    } else {
        let rest = t.drop_first();
        let inner = replaced(rest, '\'', with) + "'"@;
        lemma_reads_inside(rest);
        replacing_works_piece_by_piece(seq![t[0]], rest, '\'', with);
        assert(seq![t[0]] + rest =~= t);
        let w = replaced(t, '\'', with) + "'"@;
        if t[0] == '\'' {
            assert(replaced(seq![t[0]], '\'', with) == with);
            assert(w =~= with + inner);
            assert(w.skip(1).skip(2).skip(1) =~= inner);
            assert(shell_reads(w.skip(1).skip(2), false) == shell_reads(inner, true));
            assert(shell_reads(w.skip(1), false) == seq!['\''] + shell_reads(
                w.skip(1).skip(2),
                false,
            ));
            assert(shell_reads(w, true) == shell_reads(w.skip(1), false));
        } else {
            replacing_what_is_not_there(seq![t[0]], '\'', with);
            assert(w =~= seq![t[0]] + inner);
            assert(w.skip(1) =~= inner);
        }
        assert(seq![t[0]] + rest =~= t);
    }
}

/// A shell takes a plain word for itself.
proof fn lemma_reads_plain(t: Seq<char>)
    requires
        forall|i: int| 0 <= i < t.len() ==> is_plain(#[trigger] t[i]),
    ensures
        shell_reads(t, false) == t,
    decreases t.len(),
{
    if t.len() > 0 {
        assert(is_plain(t[0]));
        let rest = t.skip(1);
        assert forall|i: int| 0 <= i < rest.len() implies is_plain(#[trigger] rest[i]) by {
            assert(rest[i] == t[i + 1]);
        }
        lemma_reads_plain(rest);
        assert(seq![t[0]] + rest =~= t);
    }
}

/// Whatever a text holds, a shell reads it back from the word that stands for it.
pub proof fn shells_read_words_back(t: Seq<char>)
    ensures
        shell_reads(quoted(t), false) == t,
{
    if forall|i: int| 0 <= i < t.len() ==> is_plain(#[trigger] t[i]) {
        lemma_reads_plain(t);
    } else {
        reveal_strlit("'");
        let inner = replaced(t, '\'', "'\\''"@) + "'"@;
        let w = quoted(t);
        assert(w =~= "'"@ + inner);
        assert(w.skip(1) =~= inner);
        lemma_reads_inside(t);
    }
}

/// A text stands for itself only where it holds nothing but ASCII letters and digits and a few signs
/// that no shell minds.
pub proof fn only_plain_words_stand_bare(t: Seq<char>)
    requires
        quoted(t) == t,
    ensures
        forall|i: int|
            0 <= i < t.len() ==> {
                let c = #[trigger] t[i];
                '0' <= c <= '9' || 'a' <= c <= 'z' || 'A' <= c <= 'Z' || c == '_' || c == '/' || c
                    == '.' || c == '-' || c == ':'
            },
{
    if !(forall|i: int| 0 <= i < t.len() ==> is_plain(#[trigger] t[i])) {
        reveal_strlit("'");
        lemma_replacing_shortens_nothing(t);
        assert(quoted(t).len() > t.len());
    }
}

/// What stands for a text in quotes is no shorter.
proof fn lemma_replacing_shortens_nothing(t: Seq<char>)
    ensures
        replaced(t, '\'', "'\\''"@).len() >= t.len(),
    decreases t.len(),
{
    reveal_strlit("'\\''");
    if t.len() > 0 {
        lemma_replacing_shortens_nothing(t.drop_last());
    }
}

/// Escaping works character by character: the three characters that XML gives a meaning become what
/// stands for them, and every other stays as it is.
pub proof fn escaping_works_by_character(a: Seq<char>, b: Seq<char>, c: char)
    ensures
        escaped(a + b) == escaped(a) + escaped(b),
        escaped(seq![c]) == if c == '&' {
            "&amp;"@
        } else if c == '<' {
            "&lt;"@
        } else if c == '>' {
            "&gt;"@
        } else {
            seq![c]
        },
{
    let x = replaced(a, '&', "&amp;"@);
    let y = replaced(b, '&', "&amp;"@);
    replacing_works_piece_by_piece(a, b, '&', "&amp;"@);
    replacing_works_piece_by_piece(x, y, '<', "&lt;"@);
    replacing_works_piece_by_piece(
        replaced(x, '<', "&lt;"@),
        replaced(y, '<', "&lt;"@),
        '>',
        "&gt;"@,
    );
    reveal_strlit("&amp;");
    reveal_strlit("&lt;");
    reveal_strlit("&gt;");
    let t = seq![c];
    if c == '&' {
        replacing_what_is_not_there("&amp;"@, '<', "&lt;"@);
        replacing_what_is_not_there("&amp;"@, '>', "&gt;"@);
    } else {
        replacing_what_is_not_there(t, '&', "&amp;"@);
        if c == '<' {
            replacing_works_piece_by_piece(t, t, '<', "&lt;"@);
            replacing_what_is_not_there("&lt;"@, '>', "&gt;"@);
        } else {
            replacing_what_is_not_there(t, '<', "&lt;"@);
            if c == '>' {
                replacing_works_piece_by_piece(t, t, '>', "&gt;"@);
            } else {
                replacing_what_is_not_there(t, '>', "&gt;"@);
            }
        }
    }
}

/// Every argument stands in the command line, in order and once, whichever mechanism starts the
/// program.
pub proof fn arguments_stand_in_order(
    bin: Seq<char>,
    a: Seq<Seq<char>>,
    b: Seq<Seq<char>>,
    word: Seq<char>,
)
    ensures
        a.len() > 0 && b.len() > 0 ==> joined_words(a + b) == joined_words(a) + " "@ + joined_words(
            b,
        ),
        joined_words(seq![word]) == quoted(word),
        plist_strings(bin, a + b).len() == plist_strings(bin, a).len() + plist_strings(
            bin,
            b,
        ).len() - plist_strings(bin, Seq::empty()).len(),
        plist_strings(bin, a).is_prefix_of(plist_strings(bin, a + b)),
        plist_strings(bin, a.push(word)) == plist_strings(bin, a) + ("        <string>"@ + escaped(
            word,
        ) + "</string>\n"@),
        quoted_args(a + b) == quoted_args(a) + quoted_args(b),
        quoted_args(seq![word]) == " \""@ + word + "\""@,
    decreases b.len(),
{
    assert(a.push(word).drop_last() =~= a);
    assert(seq![word].drop_last() =~= Seq::empty());
    reveal_with_fuel(quoted_args, 2);
    assert(quoted_args(seq![word]) =~= " \""@ + word + "\""@);
    if b.len() == 0 {
        assert(b =~= Seq::empty());
        assert(a + b =~= a);
        assert(quoted_args(a) + quoted_args(b) =~= quoted_args(a));
        let t = plist_strings(bin, a);
        assert(t.subrange(0, t.len() as int) =~= t);
    } else {
        let c = b.drop_last();
        arguments_stand_in_order(bin, a, c, word);
        assert((a + b).drop_last() =~= a + c);
        assert(quoted_args(a + b) =~= quoted_args(a) + quoted_args(b));
        let p = plist_strings(bin, a);
        let q = plist_strings(bin, a + c);
        assert(plist_strings(bin, a + b) == q + plist_string(b.last()));
        assert(p =~= plist_strings(bin, a + b).subrange(0, p.len() as int));
        if a.len() > 0 {
            if c.len() == 0 {
                assert(a + c =~= a);
            } else {
                assert(joined_words(a) + " "@ + joined_words(c) + " "@ + quoted(b.last())
                    =~= joined_words(a) + " "@ + (joined_words(c) + " "@ + quoted(b.last())));
            }
        }
    }
}

/// What starts at login is the program that was asked for, with its arguments: the unit holds the
/// command line, and so does the value in the registry.
pub proof fn right_program_is_started(label: Seq<char>, bin: Seq<char>, args: Seq<Seq<char>>)
    ensures
        exists|a: Seq<char>, b: Seq<char>|
            install_plan(Service::Systemd, label, bin, args).file == Some(
                (
                    label + ".service"@,
                    #[trigger] (a + ("\nExecStart="@ + quoted(bin) + " "@ + joined_words(args)
                        + "\nRestart=on-failure\n"@) + b),
                ),
            ),
        install_plan(Service::Registry, label, bin, args).commands.len() == 1,
        install_plan(Service::Registry, label, bin, args).commands[0].args[3] == label,
        install_plan(Service::Registry, label, bin, args).commands[0].args[7] == "\""@ + bin + "\""@
            + quoted_args(args),
{
    reveal_strlit("\nAfter=network.target\n\n[Service]\nExecStart=");
    reveal_strlit("\nExecStart=");
    reveal_strlit("\nRestart=on-failure\nRestartSec=5\n\n[Install]\nWantedBy=default.target\n");
    reveal_strlit("\nRestart=on-failure\n");
    let head = "\nAfter=network.target\n\n[Service]\nExecStart="@;
    let tail = "\nRestart=on-failure\nRestartSec=5\n\n[Install]\nWantedBy=default.target\n"@;
    let h = head.len() - "\nExecStart="@.len();
    let k = "\nRestart=on-failure\n"@.len() as int;
    let a = "[Unit]\nDescription=Union — "@ + label + head.take(h);
    let b = tail.skip(k);
    assert(head =~= head.take(h) + "\nExecStart="@);
    assert(tail =~= "\nRestart=on-failure\n"@ + b);
    assert(unit_text(label, bin, args) =~= a + ("\nExecStart="@ + quoted(bin) + " "@ + joined_words(
        args,
    ) + "\nRestart=on-failure\n"@) + b);
}

/// What undoes an installation names what was installed: the same unit, the same file, the same value
/// of the registry.
pub proof fn uninstall_names_what_was_installed(
    service: Service,
    label: Seq<char>,
    bin: Seq<char>,
    args: Seq<Seq<char>>,
)
    ensures
        ({
            let i = install_plan(service, label, bin, args).commands;
            let u = uninstall_plan(service, label).before;
            &&& service is Systemd ==> u[0].args.last() == i[1].args.last() && u[0].args.last()
                == label + ".service"@
            &&& service is Launchd ==> u[1].args.last() == i[2].args.last() && u[1].args.last()
                == service->plist_path@ && u[1] == i[0]
            &&& service is Registry ==> u[0].args[3] == i[0].args[3] && u[0].args[1]
                == i[0].args[1] && u[0].args[3] == label
        }),
{
}

/// One command is run after the other; a failure stops the whole where it should and nowhere else;
/// and a command that stands in for another is run only where that one failed.
pub proof fn commands_are_run_in_order(commands: Seq<CommandView>, at: int, ok: bool)
    requires
        0 <= at < commands.len(),
    ensures
        ({
            let r = command_after(commands, at, ok);
            let kind = commands[at].on_failure;
            let next = if ok && kind is TryNext {
                at + 2
            } else {
                at + 1
            };
            &&& r is Err <==> !ok && kind is Stop
            &&& r is Err ==> r->Err_0 == at
            &&& r is Ok && r->Ok_0 is Some ==> r->Ok_0->Some_0 == next && next < commands.len()
            &&& r is Ok && r->Ok_0 is None ==> next >= commands.len()
        }),
{
}

} // verus!
