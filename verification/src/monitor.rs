//! What the control panel shows of a running program.

use crate::panel::{lacking, validate, ClientForm, Mode, ServerForm};
use crate::status::{
    client_snapshot_views, focus_snapshot_view, ClientSnapshot, ClientSnapshotView, FocusSnapshot,
    StatusSnapshot,
};
use crate::text::{
    cat, cat3, decimal, decimal_text, owned, signed_decimal, signed_text, trim, trimmed,
};
use std::collections::VecDeque;
use vstd::prelude::*;

verus! {

/// The number of lines of output that are kept.
pub const LOG_BUFFER_LINES: usize = 400;

/// Milliseconds after which the status is read again.
pub const SNAPSHOT_AGE: u64 = 800;

/// Seconds after which a status counts as stale.
pub const STALE_AFTER: u64 = 5;

/// Whether the status has to be read again: it was never read, or that was a while ago.
pub fn needs_snapshot(elapsed_ms: Option<u64>) -> (r: bool)
    ensures
        r == match elapsed_ms {
            Some(t) => t > SNAPSHOT_AGE,
            None => true,
        },
{
    match elapsed_ms {
        Some(t) => t > SNAPSHOT_AGE,
        None => true,
    }
}

/// How a program does that was started.
#[derive(Debug, Clone, Copy, PartialEq, Eq, Structural)]
pub enum DaemonState {
    Idle,
    /// It runs, with this number.
    Running(u32),
    /// It has ended well.
    Succeeded,
    /// It has ended badly, with this code if there is one.
    Broke(Option<i32>),
}

impl DaemonState {
    pub open spec fn words(self) -> Seq<char> {
        match self {
            DaemonState::Idle => "idle"@,
            DaemonState::Running(pid) => "running (pid "@ + decimal(pid as nat) + ")"@,
            DaemonState::Succeeded => "exited (ok)"@,
            DaemonState::Broke(Some(c)) => "exited (code Some("@ + signed_decimal(c as int) + "))"@,
            DaemonState::Broke(None) => "exited (code None)"@,
        }
    }

    pub fn is_running(self) -> (r: bool)
        ensures
            r == (self is Running),
    {
        match self {
            DaemonState::Running(_) => true,
            _ => false,
        }
    }

    /// The state in words.
    pub fn status_text(self) -> (r: String)
        ensures
            r@ == self.words(),
    {
        match self {
            DaemonState::Idle => owned("idle"),
            DaemonState::Running(pid) => {
                let d = decimal_text(pid as u64);
                cat3("running (pid ", d.as_str(), ")")
            },
            DaemonState::Succeeded => owned("exited (ok)"),
            DaemonState::Broke(code) => match code {
                Some(c) => {
                    let d = signed_text(c);
                    cat3("exited (code Some(", d.as_str(), "))")
                },
                None => owned("exited (code None)"),
            },
        }
    }

    /// The state after a look at the program: it has ended, or there is nothing new. Once it has
    /// ended, that stays.
    pub fn reap(self, exited: Option<(bool, Option<i32>)>) -> (r: DaemonState)
        ensures
            r == match (self, exited) {
                (DaemonState::Running(_), Some((true, _))) => DaemonState::Succeeded,
                (DaemonState::Running(_), Some((false, code))) => DaemonState::Broke(code),
                _ => self,
            },
    {
        match self {
            DaemonState::Running(_) => match exited {
                Some((success, code)) => if success {
                    DaemonState::Succeeded
                } else {
                    DaemonState::Broke(code)
                },
                None => self,
            },
            _ => self,
        }
    }
}

/// How a test of the connection does.
#[derive(Debug, PartialEq, Eq)]
pub enum TestStatus {
    Idle,
    Running,
    /// It went well; with what there is to say.
    Passed(String),
    /// It failed; with the reason.
    Failed(String),
}

/// How the process of a test ended.
#[derive(Debug, PartialEq, Eq)]
pub enum TestExit {
    /// It ran, and ended with this code unless it was killed.
    Ran { code: Option<i32>, stdout: String, stderr: String },
    /// It could not be started, for this reason.
    NotStarted(String),
}

/// What the result of a test says: whether it passed, and the words for it.
pub open spec fn test_result_view(e: TestExit) -> (bool, Seq<char>) {
    match e {
        TestExit::Ran { code: Some(c), stdout, stderr } => if c == 0 {
            (
                true,
                if trimmed(stdout@).len() == 0 {
                    "Handshake OK"@
                } else {
                    trimmed(stdout@)
                },
            )
        } else if c == 2 {
            (false, "Fingerprint mismatch: "@ + trimmed(stderr@))
        } else {
            (
                false,
                "Failed (code "@ + signed_decimal(c as int) + "): "@ + trimmed(stderr@),
            )
        },
        TestExit::Ran { code: None, .. } => (false, "Process killed"@),
        TestExit::NotStarted(why) => (false, "Spawn failed: "@ + why@),
    }
}

/// The result of a test.
pub fn test_result(e: &TestExit) -> (r: TestStatus)
    ensures
        match r {
            TestStatus::Passed(t) => test_result_view(*e) == (true, t@),
            TestStatus::Failed(t) => test_result_view(*e) == (false, t@),
            _ => false,
        },
{
    match e {
        TestExit::Ran { code, stdout, stderr } => match code {
            Some(c) => {
                let why = trim(stderr.as_str());
                if *c == 0 {
                    let said = trim(stdout.as_str());
                    if said.is_empty() {
                        TestStatus::Passed(owned("Handshake OK"))
                    } else {
                        TestStatus::Passed(owned(said))
                    }
                } else if *c == 2 {
                    TestStatus::Failed(cat("Fingerprint mismatch: ", why))
                } else {
                    let d = signed_text(*c);
                    let head = cat3("Failed (code ", d.as_str(), "): ");
                    TestStatus::Failed(cat(head.as_str(), why))
                }
            },
            None => TestStatus::Failed(owned("Process killed")),
        },
        TestExit::NotStarted(why) => TestStatus::Failed(cat("Spawn failed: ", why.as_str())),
    }
}

/// Whether a test can be started: the form is complete and no test is running.
pub fn can_test(mode: Mode, server: &ServerForm, client: &ClientForm, test: &TestStatus) -> (r:
    bool)
    ensures
        r == (lacking(mode, server@, client@) is None && !(test is Running)),
{
    let running = match test {
        TestStatus::Running => true,
        _ => false,
    };
    validate(mode, server, client).is_ok() && !running
}

/// Something that the user did in the panel, and how it went.
#[derive(Debug, PartialEq, Eq)]
pub enum PanelEvent {
    Reloaded,
    /// The configuration was saved in this file.
    Saved(String),
    SaveFailed(String),
    Stopped,
    Started,
    StartFailed(String),
}

/// What the status line says of an event.
pub open spec fn status_words(e: PanelEvent) -> Seq<char> {
    match e {
        PanelEvent::Reloaded => "Config reloaded from disk"@,
        PanelEvent::Saved(path) => "Saved to "@ + path@,
        PanelEvent::SaveFailed(why) => "Save failed: "@ + why@,
        PanelEvent::Stopped => "Daemon stopped"@,
        PanelEvent::Started => "Daemon started"@,
        PanelEvent::StartFailed(why) => "Start failed: "@ + why@,
    }
}

/// The status line after an event.
pub fn status_line(e: &PanelEvent) -> (r: String)
    ensures
        r@ == status_words(*e),
{
    match e {
        PanelEvent::Reloaded => owned("Config reloaded from disk"),
        PanelEvent::Saved(path) => cat("Saved to ", path.as_str()),
        PanelEvent::SaveFailed(why) => cat("Save failed: ", why.as_str()),
        PanelEvent::Stopped => owned("Daemon stopped"),
        PanelEvent::Started => owned("Daemon started"),
        PanelEvent::StartFailed(why) => cat("Start failed: ", why.as_str()),
    }
}

/// What the button for the program does.
#[derive(Debug, PartialEq, Eq)]
pub enum DaemonButton {
    Stop,
    Start,
    /// It cannot be used, for this reason.
    Blocked(String),
}

/// What the button for the program does: it stops the program while it runs; otherwise it starts
/// it, once the form of the current mode is complete.
pub fn daemon_button(state: DaemonState, mode: Mode, server: &ServerForm, client: &ClientForm) -> (r:
    DaemonButton)
    ensures
        match r {
            DaemonButton::Stop => state is Running,
            DaemonButton::Start => !(state is Running) && lacking(mode, server@, client@) is None,
            DaemonButton::Blocked(t) => !(state is Running) && lacking(mode, server@, client@)
                is Some && t@ == "Cannot start: "@ + lacking(
                mode,
                server@,
                client@,
            )->Some_0.words(),
        },
{
    if state.is_running() {
        return DaemonButton::Stop;
    }
    match validate(mode, server, client) {
        Ok(_) => DaemonButton::Start,
        Err(e) => DaemonButton::Blocked(cat("Cannot start: ", e.text())),
    }
}

/// The last lines that a program has printed.
#[derive(Debug)]
pub struct LogBuffer {
    lines: VecDeque<String>,
}

/// What several lines say.
pub open spec fn line_views(v: Seq<String>) -> Seq<Seq<char>> {
    v.map_values(|s: String| s@)
}

impl View for LogBuffer {
    type V = Seq<Seq<char>>;

    closed spec fn view(&self) -> Seq<Seq<char>> {
        line_views(self.lines@)
    }
}

/// The lines after one more was printed: the oldest is dropped where there are too many.
pub open spec fn logged(lines: Seq<Seq<char>>, line: Seq<char>) -> Seq<Seq<char>> {
    if lines.len() >= LOG_BUFFER_LINES {
        lines.drop_first().push(line)
    } else {
        lines.push(line)
    }
}

/// Lines, with line breaks between them.
pub open spec fn joined_lines(lines: Seq<Seq<char>>) -> Seq<char>
    decreases lines.len(),
{
    if lines.len() == 0 {
        Seq::empty()
    } else if lines.len() == 1 {
        lines[0]
    } else {
        joined_lines(lines.drop_last()) + "\n"@ + lines.last()
    }
}

impl LogBuffer {
    pub fn new() -> (r: Self)
        ensures
            r@ == Seq::<Seq<char>>::empty(),
    {
        let r = LogBuffer { lines: VecDeque::new() };
        assert(r@ =~= Seq::empty());
        r
    }

    /// A line was printed.
    pub fn push_log(&mut self, line: String)
        ensures
            final(self)@ == logged(old(self)@, line@),
    {
        if self.lines.len() >= LOG_BUFFER_LINES {
            let _ = self.lines.pop_front();
            assert(self@ =~= old(self)@.drop_first());
        }
        let ghost before = self@;
        self.lines.push_back(line);
        assert(self@ =~= before.push(line@));
    }

    /// All lines, with line breaks between them.
    pub fn snapshot_logs(&self) -> (r: String)
        ensures
            r@ == joined_lines(self@),
    {
        let n: usize = self.lines.len();
        let mut out = String::new();
        let mut i: usize = 0;
        assert(self@.take(0) =~= Seq::empty());
        assert(out@ =~= joined_lines(self@.take(0)));
        while i < n
            invariant
                i <= n,
                n == self.lines@.len(),
                out@ == joined_lines(self@.take(i as int)),
            decreases n - i,
        {
            proof {
                assert(self@.take(i + 1).drop_last() =~= self@.take(i as int));
                assert(self@.take(i + 1).last() == self.lines@[i as int]@);
            }
            if i > 0 {
                out.append("\n");
            } else {
                assert(self@.take(0) =~= Seq::empty());
            }
            out.append(self.lines[i].as_str());
            assert(out@ =~= joined_lines(self@.take(i + 1)));
            i = i + 1;
        }
        assert(self@.take(n as int) =~= self@);
        out
    }
}

/// The buffer holds the last lines, and never more than it should.
pub proof fn log_keeps_the_last_lines(lines: Seq<Seq<char>>, line: Seq<char>)
    requires
        lines.len() <= LOG_BUFFER_LINES,
    ensures
        logged(lines, line).len() <= LOG_BUFFER_LINES,
        logged(lines, line).last() == line,
        logged(lines, line).is_suffix_of(lines.push(line)),
{
    assert(LOG_BUFFER_LINES == 400);
    let all = lines.push(line);
    let kept = logged(lines, line);
    assert(all.subrange(all.len() - kept.len(), all.len() as int) =~= kept);
}

/// One client as it is shown.
#[derive(Debug, PartialEq, Eq)]
pub struct ClientRow {
    pub hostname: String,
    pub position: String,
    pub screen: String,
}

/// What a [`ClientRow`] says.
pub struct ClientRowView {
    pub hostname: Seq<char>,
    pub position: Seq<char>,
    pub screen: Seq<char>,
}

impl View for ClientRow {
    type V = ClientRowView;

    open spec fn view(&self) -> ClientRowView {
        ClientRowView {
            hostname: self.hostname@,
            position: self.position@,
            screen: self.screen@,
        }
    }
}

/// What several rows say.
pub open spec fn row_views(v: Seq<ClientRow>) -> Seq<ClientRowView> {
    v.map_values(|r: ClientRow| r@)
}

/// The server's status as it is shown.
#[derive(Debug, PartialEq, Eq)]
pub struct RuntimePanel {
    /// A warning, where the status is stale.
    pub stale: Option<String>,
    pub pid: String,
    pub listening_on: String,
    pub fingerprint: String,
    pub focus: String,
    pub clients: Vec<ClientRow>,
    pub sessions_opened: String,
    pub focus_switches: String,
    pub auth_failures: String,
    pub clipboard_text_bytes: u64,
    pub clipboard_image_bytes: u64,
}

/// How a screen is shown.
pub open spec fn screen_words(s: Option<(u32, u32)>) -> Seq<char> {
    match s {
        Some((w, h)) => decimal(w as nat) + "x"@ + decimal(h as nat),
        None => "—"@,
    }
}

/// How the focus is shown.
pub open spec fn focus_words(f: Option<Seq<char>>) -> Seq<char> {
    match f {
        Some(h) => "→ "@ + h,
        None => "local"@,
    }
}

/// How old a status is, in seconds.
pub open spec fn status_age(now: u64, written: u64) -> nat {
    if now > written {
        (now - written) as nat
    } else {
        0
    }
}

/// The warning about a status of some age.
pub open spec fn stale_words(age: nat) -> Option<Seq<char>> {
    if age > STALE_AFTER {
        Some("snapshot stale ("@ + decimal(age) + "s old)"@)
    } else {
        None
    }
}

/// How clients are shown.
pub open spec fn rows_of(cs: Seq<ClientSnapshotView>) -> Seq<ClientRowView> {
    Seq::new(
        cs.len(),
        |i: int|
            ClientRowView {
                hostname: cs[i].hostname,
                position: cs[i].position,
                screen: screen_words(cs[i].screen),
            },
    )
}

/// How a screen is shown.
fn screen_text(s: Option<(u32, u32)>) -> (r: String)
    ensures
        r@ == screen_words(s),
{
    match s {
        Some((w, h)) => {
            let a = decimal_text(w as u64);
            let b = decimal_text(h as u64);
            cat3(a.as_str(), "x", b.as_str())
        },
        None => owned("—"),
    }
}

/// How clients are shown.
fn client_rows(cs: &Vec<ClientSnapshot>) -> (r: Vec<ClientRow>)
    ensures
        row_views(r@) == rows_of(client_snapshot_views(cs@)),
{
    let ghost want = rows_of(client_snapshot_views(cs@));
    let n: usize = cs.len();
    let mut out: Vec<ClientRow> = Vec::new();
    let mut i: usize = 0;
    assert(row_views(out@) =~= want.take(0));
    while i < n
        invariant
            i <= n,
            n == cs@.len(),
            want == rows_of(client_snapshot_views(cs@)),
            row_views(out@) == want.take(i as int),
        decreases n - i,
    {
        let c = &cs[i];
        let row = ClientRow {
            hostname: c.hostname.clone(),
            position: c.position.clone(),
            screen: screen_text(c.screen),
        };
        let ghost before = row_views(out@);
        let ghost v = row@;
        out.push(row);
        proof {
            assert(row_views(out@) =~= before.push(v));
            assert(client_snapshot_views(cs@)[i as int] == cs@[i as int]@);
            assert(want[i as int] == v);
            assert(want.take(i + 1) =~= want.take(i as int).push(want[i as int]));
        }
        i = i + 1;
    }
    assert(want.take(n as int) =~= want);
    out
}

/// The server's status as it is shown at a time.
pub fn runtime_panel(snap: &StatusSnapshot, now_unix: u64) -> (r: RuntimePanel)
    ensures
        (match r.stale {
            Some(t) => Some(t@),
            None => None,
        }) == stale_words(status_age(now_unix, snap.timestamp_unix)),
        r.pid@ == decimal(snap.pid as nat),
        r.listening_on@ == snap.listening_on@,
        r.fingerprint@ == snap.fingerprint_hex@,
        r.focus@ == focus_words(focus_snapshot_view(snap.focus)),
        row_views(r.clients@) == rows_of(client_snapshot_views(snap.clients@)),
        r.sessions_opened@ == decimal(snap.metrics.sessions_opened as nat),
        r.focus_switches@ == decimal(snap.metrics.focus_switches as nat),
        r.auth_failures@ == decimal(snap.metrics.auth_failures as nat),
        r.clipboard_text_bytes == snap.metrics.clipboard_text_bytes,
        r.clipboard_image_bytes == snap.metrics.clipboard_image_bytes,
{
    let age: u64 = if now_unix > snap.timestamp_unix {
        now_unix - snap.timestamp_unix
    } else {
        0
    };
    let stale = if age > STALE_AFTER {
        let d = decimal_text(age);
        Some(cat3("snapshot stale (", d.as_str(), "s old)"))
    } else {
        None
    };
    let focus = match &snap.focus {
        FocusSnapshot::Local => owned("local"),
        FocusSnapshot::Remote(h) => cat("→ ", h.as_str()),
    };
    RuntimePanel {
        stale,
        pid: decimal_text(snap.pid as u64),
        listening_on: snap.listening_on.clone(),
        fingerprint: snap.fingerprint_hex.clone(),
        focus,
        clients: client_rows(&snap.clients),
        sessions_opened: decimal_text(snap.metrics.sessions_opened),
        focus_switches: decimal_text(snap.metrics.focus_switches),
        auth_failures: decimal_text(snap.metrics.auth_failures),
        clipboard_text_bytes: snap.metrics.clipboard_text_bytes,
        clipboard_image_bytes: snap.metrics.clipboard_image_bytes,
    }
}

/// A test has passed if and only if it ran to its end with the code for success; a mismatch of
/// fingerprints, which has a code of its own, is named as such; and what is said ends with what the
/// test itself said.
pub proof fn tests_pass_on_success_only(e: TestExit)
    ensures
        test_result_view(e).0 <==> e is Ran && e->code == Some(0i32),
        e is Ran && e->code is Some && e->code != Some(0i32) ==> trimmed(e->stderr@).is_suffix_of(
            test_result_view(e).1,
        ),
        e is Ran && e->code == Some(0i32) && trimmed(e->stdout@).len() > 0 ==> test_result_view(e).1
            == trimmed(e->stdout@),
        e is Ran && e->code is Some && e->code != Some(0i32) ==> ("Fingerprint mismatch: "@ + trimmed(
            e->stderr@,
        ) == test_result_view(e).1 <==> e->code == Some(2i32)),
{
    reveal_strlit("Fingerprint mismatch: ");
    reveal_strlit("Failed (code ");
    if e is Ran && e->code is Some && e->code != Some(0i32) {
        let why = trimmed(e->stderr@);
        let said = test_result_view(e).1;
        assert(said.subrange(said.len() - why.len(), said.len() as int) =~= why);
        if e->code != Some(2i32) {
            assert(said[1] == 'a');
            assert(("Fingerprint mismatch: "@ + why)[1] == 'i');
        }
    }
}

/// A status is called stale once it is more than five seconds old, and a clock that went backwards
/// makes none stale.
pub proof fn old_statuses_are_stale(now: u64, written: u64)
    ensures
        stale_words(status_age(now, written)) is Some <==> now > written + 5,
        now > written + 5 ==> stale_words(status_age(now, written)) == Some(
            "snapshot stale ("@ + decimal((now - written) as nat) + "s old)"@,
        ),
{
}

/// Every client is shown, in order, with its name, its place, and the width and the height of its
/// screen if it has told them.
pub proof fn every_client_is_shown(cs: Seq<ClientSnapshotView>, i: int, w: u32, h: u32)
    requires
        0 <= i < cs.len(),
    ensures
        rows_of(cs).len() == cs.len(),
        rows_of(cs)[i].hostname == cs[i].hostname,
        rows_of(cs)[i].position == cs[i].position,
        cs[i].screen == Some((w, h)) ==> rows_of(cs)[i].screen == decimal(w as nat) + "x"@
            + decimal(h as nat),
        cs[i].screen is None ==> rows_of(cs)[i].screen == "—"@,
{
}

/// The focus is shown by the name of the client that has it.
pub proof fn focus_is_shown(f: Option<Seq<char>>)
    ensures
        f is None ==> focus_words(f) == "local"@,
        f is Some ==> f->Some_0.is_suffix_of(focus_words(f)) && focus_words(f).len()
            == f->Some_0.len() + 2,
{
    reveal_strlit("→ ");
    if f is Some {
        let t = focus_words(f);
        assert(t.subrange(2, t.len() as int) =~= f->Some_0);
    }
}

/// Lines are shown in order, each once, with a line break between any two that follow each other.
pub proof fn lines_are_shown_in_order(a: Seq<Seq<char>>, b: Seq<Seq<char>>, line: Seq<char>)
    requires
        a.len() > 0,
        b.len() > 0,
    ensures
        joined_lines(a + b) == joined_lines(a) + "\n"@ + joined_lines(b),
        joined_lines(seq![line]) == line,
    decreases b.len(),
{
    assert((a + b).drop_last() =~= a + b.drop_last());
    if b.len() > 1 {
        lines_are_shown_in_order(a, b.drop_last(), line);
        assert(joined_lines(a) + "\n"@ + joined_lines(b.drop_last()) + "\n"@ + b.last()
            =~= joined_lines(a) + "\n"@ + (joined_lines(b.drop_last()) + "\n"@ + b.last()));
    } else {
        assert(a + b.drop_last() =~= a);
    }
}

/// No line is dropped before there are four hundred.
pub proof fn log_drops_nothing_early(lines: Seq<Seq<char>>, line: Seq<char>)
    ensures
        lines.len() < 400 ==> logged(lines, line) == lines.push(line),
        lines.len() == 400 ==> logged(lines, line).len() == 400,
{
}

/// A status is read again if it was never read, or more than 800 milliseconds ago.
pub proof fn statuses_are_read_again(t: u64, again: bool, first: bool)
    requires
        call_ensures(needs_snapshot, (Some(t),), again),
        call_ensures(needs_snapshot, (None::<u64>,), first),
    ensures
        again <==> t > 800,
        first,
{
}

/// A program that runs is seen to end, well or badly, as soon as it has ended; and what has been
/// seen of its end stays, whatever is looked at later.
pub proof fn endings_are_final(
    s: DaemonState,
    seen: Option<(bool, Option<i32>)>,
    r: DaemonState,
    later: Option<(bool, Option<i32>)>,
    q: DaemonState,
)
    requires
        call_ensures(DaemonState::reap, (s, seen), r),
        call_ensures(DaemonState::reap, (r, later), q),
    ensures
        seen is None ==> r == s,
        !(s is Running) ==> r == s,
        s is Running && seen is Some ==> !(r is Running) && !(r is Idle),
        s is Running && seen is Some ==> (r is Succeeded <==> seen->Some_0.0),
        s is Running && seen is Some && r is Broke ==> r->Broke_0 == seen->Some_0.1,
        !(r is Running) ==> q == r,
{
}

/// The button stops a program that runs, and starts one that does not if the form is complete.
pub proof fn button_does_what_can_be_done(
    state: DaemonState,
    mode: Mode,
    server: &ServerForm,
    client: &ClientForm,
    r: DaemonButton,
)
    requires
        call_ensures(daemon_button, (state, mode, server, client), r),
    ensures
        r is Stop <==> state is Running,
        r is Start <==> !(state is Running) && lacking(mode, server@, client@) is None,
        r is Blocked <==> !(state is Running) && lacking(mode, server@, client@) is Some,
        r is Blocked ==> lacking(mode, server@, client@)->Some_0.words().is_suffix_of(
            r->Blocked_0@,
        ),
{
    if r is Blocked {
        let why = lacking(mode, server@, client@)->Some_0.words();
        let t = r->Blocked_0@;
        assert(t.subrange(t.len() - why.len(), t.len() as int) =~= why);
    }
}

} // verus!
