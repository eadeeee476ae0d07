//! The forms of the control panel: what they hold, when they are complete, and how they are saved
//! and loaded.

use crate::client::{fingerprint_digits, shown_fingerprint_is_read};
use crate::clipboard::DEFAULT_LIMIT_BYTES;
use crate::config::{ClientLayout, Position};
use crate::digest::{hex_decode, hex_of, is_hex, unhex};
use crate::protocol::DEFAULT_PORT;
use crate::text::{
    owned, replace_char, replaced, replacing_by_nothing_leaves_the_others, same_text, trim, trimmed,
};
use vstd::prelude::*;

verus! {

#[derive(Debug, Clone, Copy, PartialEq, Eq, Structural)]
pub enum Mode {
    Server,
    Client,
}

#[derive(Debug, PartialEq, Eq)]
pub struct HotkeyForm {
    pub forward_label: String,
    pub backward_label: String,
    pub require_ctrl: bool,
    pub require_alt: bool,
    pub require_meta: bool,
}

/// What a [`HotkeyForm`] says.
pub struct HotkeyFormView {
    pub forward: Seq<char>,
    pub backward: Seq<char>,
    pub require_ctrl: bool,
    pub require_alt: bool,
    pub require_meta: bool,
}

impl View for HotkeyForm {
    type V = HotkeyFormView;

    open spec fn view(&self) -> HotkeyFormView {
        HotkeyFormView {
            forward: self.forward_label@,
            backward: self.backward_label@,
            require_ctrl: self.require_ctrl,
            require_alt: self.require_alt,
            require_meta: self.require_meta,
        }
    }
}

impl Default for HotkeyForm {
    fn default() -> (r: Self)
        ensures
            r@ == (HotkeyFormView {
                forward: "RightArrow"@,
                backward: "LeftArrow"@,
                require_ctrl: true,
                require_alt: true,
                require_meta: false,
            }),
    {
        HotkeyForm {
            forward_label: owned("RightArrow"),
            backward_label: owned("LeftArrow"),
            require_ctrl: true,
            require_alt: true,
            require_meta: false,
        }
    }
}

/// The form for the server.
#[derive(Debug, PartialEq, Eq)]
pub struct ServerForm {
    pub port: u16,
    pub bind: String,
    pub psk: String,
    pub cert_dir: String,
    pub clipboard_limit_kb: u64,
    pub notify_on_focus: bool,
    pub overlay_on_focus: bool,
    pub hotkey: HotkeyForm,
    pub layout: Vec<ClientLayout>,
    pub new_layout_host: String,
    pub new_layout_position: Position,
}

/// Where the clients of a form sit, in order.
pub open spec fn layout_view(l: Seq<ClientLayout>) -> Seq<(Seq<char>, Position)> {
    l.map_values(|e: ClientLayout| (e.hostname@, e.position))
}

/// What a [`ServerForm`] says.
pub struct ServerFormView {
    pub port: u16,
    pub bind: Seq<char>,
    pub psk: Seq<char>,
    pub cert_dir: Seq<char>,
    pub clipboard_limit_kb: u64,
    pub notify_on_focus: bool,
    pub overlay_on_focus: bool,
    pub hotkey: HotkeyFormView,
    pub layout: Seq<(Seq<char>, Position)>,
    pub new_layout_host: Seq<char>,
    pub new_layout_position: Position,
}

impl View for ServerForm {
    type V = ServerFormView;

    open spec fn view(&self) -> ServerFormView {
        ServerFormView {
            port: self.port,
            bind: self.bind@,
            psk: self.psk@,
            cert_dir: self.cert_dir@,
            clipboard_limit_kb: self.clipboard_limit_kb,
            notify_on_focus: self.notify_on_focus,
            overlay_on_focus: self.overlay_on_focus,
            hotkey: self.hotkey@,
            layout: layout_view(self.layout@),
            new_layout_host: self.new_layout_host@,
            new_layout_position: self.new_layout_position,
        }
    }
}

impl ServerForm {
    /// The form as it is at first, with the usual directory for the certificate.
    pub fn new(cert_dir: String) -> (r: Self)
        ensures
            r@ == (ServerFormView {
                port: DEFAULT_PORT,
                bind: "0.0.0.0"@,
                psk: Seq::empty(),
                cert_dir: cert_dir@,
                clipboard_limit_kb: (DEFAULT_LIMIT_BYTES / 1024) as u64,
                notify_on_focus: true,
                overlay_on_focus: false,
                hotkey: HotkeyFormView {
                    forward: "RightArrow"@,
                    backward: "LeftArrow"@,
                    require_ctrl: true,
                    require_alt: true,
                    require_meta: false,
                },
                layout: Seq::empty(),
                new_layout_host: Seq::empty(),
                new_layout_position: Position::Right,
            }),
    {
        let r = ServerForm {
            port: DEFAULT_PORT,
            bind: owned("0.0.0.0"),
            psk: String::new(),
            cert_dir,
            clipboard_limit_kb: (DEFAULT_LIMIT_BYTES / 1024) as u64,
            notify_on_focus: true,
            overlay_on_focus: false,
            hotkey: HotkeyForm::default(),
            layout: Vec::new(),
            new_layout_host: String::new(),
            new_layout_position: Position::Right,
        };
        assert(r@.layout =~= Seq::empty());
        assert(r@.psk =~= Seq::empty());
        assert(r@.new_layout_host =~= Seq::empty());
        r
    }

    /// Whether the host that is being entered can be added: it has a name that is not listed yet.
    pub fn can_add(&self) -> (r: bool)
        ensures
            r == addable(self@),
    {
        let host = trim(self.new_layout_host.as_str());
        if host.is_empty() {
            return false;
        }
        let n: usize = self.layout.len();
        let mut i: usize = 0;
        while i < n
            invariant
                i <= n,
                n == self.layout@.len(),
                host@ == trimmed(self@.new_layout_host),
                host@.len() > 0,
                forall|j: int| 0 <= j < i ==> (#[trigger] self@.layout[j]).0 != host@,
            decreases n - i,
        {
            assert(self@.layout[i as int].0 == self.layout@[i as int].hostname@);
            if same_text(self.layout[i].hostname.as_str(), host) {
                return false;
            }
            i = i + 1;
        }
        true
    }

    /// Adds the host that is being entered, if it can be added.
    pub fn add_layout(&mut self)
        ensures
            final(self)@ == if addable(old(self)@) {
                ServerFormView {
                    layout: old(self)@.layout.push(
                        (trimmed(old(self)@.new_layout_host), old(self)@.new_layout_position),
                    ),
                    new_layout_host: Seq::empty(),
                    ..old(self)@
                }
            } else {
                old(self)@
            },
    {
        if !self.can_add() {
            return ;
        }
        let hostname = owned(trim(self.new_layout_host.as_str()));
        self.layout.push(ClientLayout { hostname, position: self.new_layout_position });
        self.new_layout_host = String::new();
        assert(self@.layout =~= old(self)@.layout.push(
            (trimmed(old(self)@.new_layout_host), old(self)@.new_layout_position),
        ));
        assert(self@.new_layout_host =~= Seq::empty());
    }

    /// Takes a host off the list.
    pub fn remove_layout(&mut self, i: usize)
        requires
            i < old(self)@.layout.len(),
        ensures
            final(self)@ == (ServerFormView {
                layout: old(self)@.layout.remove(i as int),
                ..old(self)@
            }),
    {
        let _ = self.layout.remove(i);
        assert(self@.layout =~= old(self)@.layout.remove(i as int));
    }
}

/// The host that is being entered can be added.
pub open spec fn addable(f: ServerFormView) -> bool {
    let host = trimmed(f.new_layout_host);
    host.len() > 0 && forall|j: int| 0 <= j < f.layout.len() ==> (#[trigger] f.layout[j]).0 != host
}

/// No host is listed twice.
pub open spec fn hosts_unique(l: Seq<(Seq<char>, Position)>) -> bool {
    forall|i: int, j: int| 0 <= i < j < l.len() ==> (#[trigger] l[i]).0 != (#[trigger] l[j]).0
}

/// Adding a host never lists one twice.
pub proof fn adding_lists_no_host_twice(f: ServerFormView)
    requires
        hosts_unique(f.layout),
        addable(f),
    ensures
        hosts_unique(f.layout.push((trimmed(f.new_layout_host), f.new_layout_position))),
{
}

/// The form for a client.
#[derive(Debug, PartialEq, Eq)]
pub struct ClientForm {
    pub discover: bool,
    pub server_addr: String,
    pub port: u16,
    pub hostname: String,
    pub psk: String,
    pub fingerprint_hex: String,
    pub clipboard_limit_kb: u64,
    pub notify_on_focus: bool,
    pub overlay_on_focus: bool,
}

/// What a [`ClientForm`] says.
pub struct ClientFormView {
    pub discover: bool,
    pub server_addr: Seq<char>,
    pub port: u16,
    pub hostname: Seq<char>,
    pub psk: Seq<char>,
    pub fingerprint_hex: Seq<char>,
    pub clipboard_limit_kb: u64,
    pub notify_on_focus: bool,
    pub overlay_on_focus: bool,
}

impl View for ClientForm {
    type V = ClientFormView;

    open spec fn view(&self) -> ClientFormView {
        ClientFormView {
            discover: self.discover,
            server_addr: self.server_addr@,
            port: self.port,
            hostname: self.hostname@,
            psk: self.psk@,
            fingerprint_hex: self.fingerprint_hex@,
            clipboard_limit_kb: self.clipboard_limit_kb,
            notify_on_focus: self.notify_on_focus,
            overlay_on_focus: self.overlay_on_focus,
        }
    }
}

impl ClientForm {
    /// The form as it is at first, with the name of this host.
    pub fn new(hostname: String) -> (r: Self)
        ensures
            r@ == (ClientFormView {
                discover: false,
                server_addr: "127.0.0.1"@,
                port: DEFAULT_PORT,
                hostname: hostname@,
                psk: Seq::empty(),
                fingerprint_hex: Seq::empty(),
                clipboard_limit_kb: (DEFAULT_LIMIT_BYTES / 1024) as u64,
                notify_on_focus: true,
                overlay_on_focus: false,
            }),
    {
        let r = ClientForm {
            discover: false,
            server_addr: owned("127.0.0.1"),
            port: DEFAULT_PORT,
            hostname,
            psk: String::new(),
            fingerprint_hex: String::new(),
            clipboard_limit_kb: (DEFAULT_LIMIT_BYTES / 1024) as u64,
            notify_on_focus: true,
            overlay_on_focus: false,
        };
        assert(r@.psk =~= Seq::empty());
        assert(r@.fingerprint_hex =~= Seq::empty());
        r
    }
}

/// What a form still lacks.
#[derive(Debug, Clone, Copy, PartialEq, Eq, Structural)]
pub enum FormError {
    EmptyPsk,
    EmptyHostname,
    EmptyServer,
    BadFingerprint,
}

impl FormError {
    pub open spec fn words(self) -> Seq<char> {
        match self {
            FormError::EmptyPsk => "PSK must not be empty"@,
            FormError::EmptyHostname => "Hostname must not be empty"@,
            FormError::EmptyServer => "Server address required (or enable discover)"@,
            FormError::BadFingerprint => "Fingerprint must be 64 hex chars"@,
        }
    }

    /// The error in words.
    pub fn text(self) -> (r: &'static str)
        ensures
            r@ == self.words(),
    {
        match self {
            FormError::EmptyPsk => "PSK must not be empty",
            FormError::EmptyHostname => "Hostname must not be empty",
            FormError::EmptyServer => "Server address required (or enable discover)",
            FormError::BadFingerprint => "Fingerprint must be 64 hex chars",
        }
    }
}

/// The digits of a fingerprint, without what people write around and between them.
pub open spec fn entered_digits(t: Seq<char>) -> Seq<char> {
    replaced(trimmed(t), ':', ""@)
}

/// What the form of the current mode still lacks, if anything.
pub open spec fn lacking(mode: Mode, server: ServerFormView, client: ClientFormView) -> Option<
    FormError,
> {
    match mode {
        Mode::Server => if server.psk.len() == 0 {
            Some(FormError::EmptyPsk)
        } else {
            None
        },
        Mode::Client => if client.psk.len() == 0 {
            Some(FormError::EmptyPsk)
        } else if client.hostname.len() == 0 {
            Some(FormError::EmptyHostname)
        } else if !client.discover && client.server_addr.len() == 0 {
            Some(FormError::EmptyServer)
        } else if !client.discover && !(is_hex(entered_digits(client.fingerprint_hex))
            && entered_digits(client.fingerprint_hex).len() == 64) {
            Some(FormError::BadFingerprint)
        } else {
            None
        },
    }
}

/// Whether the form of the current mode is complete.
pub fn validate(mode: Mode, server: &ServerForm, client: &ClientForm) -> (r: Result<(), FormError>)
    ensures
        match r {
            Ok(_) => lacking(mode, server@, client@) is None,
            Err(e) => lacking(mode, server@, client@) == Some(e),
        },
{
    match mode {
        Mode::Server => {
            if server.psk.as_str().is_empty() {
                return Err(FormError::EmptyPsk);
            }
        },
        Mode::Client => {
            if client.psk.as_str().is_empty() {
                return Err(FormError::EmptyPsk);
            }
            if client.hostname.as_str().is_empty() {
                return Err(FormError::EmptyHostname);
            }
            if !client.discover {
                if client.server_addr.as_str().is_empty() {
                    return Err(FormError::EmptyServer);
                }
                let digits = replace_char(trim(client.fingerprint_hex.as_str()), ':', "");
                match hex_decode(digits.as_str()) {
                    Ok(b) => {
                        if b.len() != 32 {
                            return Err(FormError::BadFingerprint);
                        }
                    },
                    Err(_) => {
                        return Err(FormError::BadFingerprint);
                    },
                }
            }
        },
    }
    Ok(())
}

/// The digits of a fingerprint are the characters that were entered, in order, without the colons
/// between them and the white space around them; and the client reads the same.
pub proof fn digits_are_what_was_entered(t: Seq<char>)
    ensures
        entered_digits(t) == trimmed(t).filter(|c: char| c != ':'),
        entered_digits(t) == fingerprint_digits(t),
{
    replacing_by_nothing_leaves_the_others(trimmed(t), ':');
}

/// A form is complete if and only if nothing is missing that the program will need: the server needs
/// the passphrase; a client needs it too, and a name, and, unless it looks for the server itself, an
/// address and a fingerprint of 32 bytes. What is missing is named, the first thing first.
pub proof fn complete_forms_miss_nothing(server: ServerFormView, client: ClientFormView)
    ensures
        lacking(Mode::Server, server, client) == if server.psk.len() > 0 {
            None
        } else {
            Some(FormError::EmptyPsk)
        },
        ({
            let digits = trimmed(client.fingerprint_hex).filter(|c: char| c != ':');
            let addressed = client.discover || client.server_addr.len() > 0;
            let pinned = client.discover || is_hex(digits) && digits.len() == 64;
            let missing = lacking(Mode::Client, server, client);
            &&& missing is None <==> client.psk.len() > 0 && client.hostname.len() > 0
                && addressed && pinned
            &&& missing == Some(FormError::EmptyPsk) <==> client.psk.len() == 0
            &&& missing == Some(FormError::EmptyHostname) <==> client.psk.len() > 0
                && client.hostname.len() == 0
            &&& missing == Some(FormError::EmptyServer) <==> client.psk.len() > 0
                && client.hostname.len() > 0 && !addressed
            &&& missing == Some(FormError::BadFingerprint) <==> client.psk.len() > 0
                && client.hostname.len() > 0 && addressed && !pinned
        }),
{
    digits_are_what_was_entered(client.fingerprint_hex);
}

/// The fingerprint that the server shows can be entered as it is shown.
pub proof fn shown_fingerprint_can_be_entered(
    server: ServerFormView,
    client: ClientFormView,
    fp: Seq<u8>,
)
    requires
        fp.len() == 32,
        client.fingerprint_hex == hex_of(fp),
    ensures
        lacking(Mode::Client, server, client) != Some(FormError::BadFingerprint),
        unhex(entered_digits(client.fingerprint_hex)) == fp,
{
    shown_fingerprint_is_read(fp);
    digits_are_what_was_entered(client.fingerprint_hex);
}

/// A host can be added if it has a name and no host of that name is listed; the name is what was
/// entered but for the white space around it.
pub proof fn new_hosts_can_be_added(f: ServerFormView)
    ensures
        addable(f) <==> {
            let host = trimmed(f.new_layout_host);
            host.len() > 0 && !exists|j: int|
                0 <= j < f.layout.len() && (#[trigger] f.layout[j]).0 == host
        },
{
}

} // verus!
