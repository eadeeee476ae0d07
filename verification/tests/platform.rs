use union_kvm::announce::{
    hostname_default, overlay_binary_name, sanitize_instance_name, service_record,
};
use union_kvm::autostart::{
    after_command, install, shell_quote, uninstall, xml_escape, Command, OnFailure, Service,
    RUN_KEY,
};
use union_kvm::config::{
    default_bind, default_clipboard_limit, default_port, default_sni, HotkeyConfig, Position,
};
use union_kvm::lock_watch::{locked_hint, LockState, LockWatch};
use union_kvm::overlay::{banner, Banner};
use union_kvm::paths::{
    autostart_dir, config_dir, default_cert_dir, launch_log_dir, panel_config_dir, status_path,
    Base, DirVars, PathPlan, Platform,
};

const UNSET: DirVars = DirVars { config_dir: false, app_data: false, home: false };

fn plan(base: Base, parts: &[&str]) -> PathPlan {
    PathPlan { base, parts: parts.iter().map(|p| p.to_string()).collect() }
}

#[test]
fn configuration_directories() {
    let home = DirVars { home: true, ..UNSET };
    let all = DirVars { config_dir: true, app_data: true, home: true };
    let windows = DirVars { config_dir: false, app_data: true, home: true };
    assert_eq!(config_dir(Platform::Linux, all), plan(Base::ConfigDirVar, &[]));
    assert_eq!(config_dir(Platform::Windows, windows), plan(Base::AppData, &["Union"]));
    assert_eq!(
        config_dir(Platform::MacOs, home),
        plan(Base::Home, &["Library", "Application Support", "Union"])
    );
    assert_eq!(config_dir(Platform::Linux, home), plan(Base::Home, &[".config", "union"]));
    assert_eq!(config_dir(Platform::Windows, home), plan(Base::Home, &[".config", "union"]));
    assert_eq!(config_dir(Platform::MacOs, UNSET), plan(Base::Current, &[".config", "union"]));
    assert_eq!(
        status_path(Platform::Linux, home),
        plan(Base::Home, &[".config", "union", "runtime", "status.json"])
    );
    assert_eq!(default_cert_dir(true), plan(Base::Home, &[".config", "union", "certs"]));
    assert_eq!(default_cert_dir(false), plan(Base::Current, &[".config", "union", "certs"]));
    assert_eq!(
        panel_config_dir(Platform::Windows, home, true),
        plan(Base::UserProfile, &["AppData", "Roaming", "Union"])
    );
    assert_eq!(
        panel_config_dir(Platform::Windows, windows, true),
        plan(Base::AppData, &["Union"])
    );
    assert_eq!(
        panel_config_dir(Platform::Linux, home, true),
        plan(Base::Home, &[".config", "union"])
    );
}

#[test]
fn service_directories() {
    assert_eq!(
        autostart_dir(Platform::Linux, true, true),
        Some(plan(Base::XdgConfig, &["systemd", "user"]))
    );
    assert_eq!(
        autostart_dir(Platform::Linux, false, true),
        Some(plan(Base::Home, &[".config", "systemd", "user"]))
    );
    assert_eq!(autostart_dir(Platform::Linux, false, false), None);
    assert_eq!(
        autostart_dir(Platform::MacOs, true, true),
        Some(plan(Base::Home, &["Library", "LaunchAgents"]))
    );
    assert_eq!(autostart_dir(Platform::MacOs, true, false), None);
    assert_eq!(autostart_dir(Platform::Windows, true, true), None);
    assert_eq!(launch_log_dir(true), plan(Base::Home, &["Library", "Logs", "Union"]));
    assert_eq!(launch_log_dir(false), plan(Base::Tmp, &[]));
}

#[test]
fn quoting() {
    assert_eq!(shell_quote("/usr/bin/a-b_c.d:e9"), "/usr/bin/a-b_c.d:e9");
    assert_eq!(shell_quote(""), "");
    assert_eq!(shell_quote("a b"), "'a b'");
    assert_eq!(shell_quote("it's"), "'it'\\''s'");
    assert_eq!(shell_quote("é"), "'é'");
    assert_eq!(xml_escape("a<b>&amp;"), "a&lt;b&gt;&amp;amp;");
}

fn cmd(program: &str, args: &[&str], on_failure: OnFailure) -> Command {
    Command {
        program: program.into(),
        args: args.iter().map(|a| a.to_string()).collect(),
        on_failure,
    }
}

fn args() -> Vec<String> {
    vec!["--config".into(), "/home/me/my file".into()]
}

#[test]
fn systemd() {
    let p = install(&Service::Systemd, "dev.union.server", "/usr/bin/union-server", &args());
    let file = p.file.unwrap();
    assert_eq!(file.name, "dev.union.server.service");
    assert_eq!(
        file.content,
        "[Unit]\nDescription=Union — dev.union.server\nAfter=network.target\n\n[Service]\n\
         ExecStart=/usr/bin/union-server --config '/home/me/my file'\nRestart=on-failure\n\
         RestartSec=5\n\n[Install]\nWantedBy=default.target\n"
    );
    assert_eq!(
        p.commands,
        vec![
            cmd("systemctl", &["--user", "daemon-reload"], OnFailure::Stop),
            cmd(
                "systemctl",
                &["--user", "enable", "--now", "dev.union.server.service"],
                OnFailure::Stop
            ),
        ]
    );
    let none = install(&Service::Systemd, "l", "b", &vec![]).file.unwrap();
    assert!(none.content.contains("ExecStart=b \n"));
    let u = uninstall(&Service::Systemd, "dev.union.server");
    assert_eq!(u.remove.as_deref(), Some("dev.union.server.service"));
    assert_eq!(
        u.before,
        vec![cmd(
            "systemctl",
            &["--user", "disable", "--now", "dev.union.server.service"],
            OnFailure::Ignore
        )]
    );
    assert_eq!(u.after, vec![cmd("systemctl", &["--user", "daemon-reload"], OnFailure::Ignore)]);
}

#[test]
fn launchd() {
    let service = Service::Launchd {
        uid: 501,
        plist_path: "/p/l.plist".into(),
        stdout: "/o&".into(),
        stderr: "/e".into(),
    };
    let p = install(&service, "l", "/b<", &args());
    let file = p.file.unwrap();
    assert_eq!(file.name, "l.plist");
    assert_eq!(
        file.content,
        "<?xml version=\"1.0\" encoding=\"UTF-8\"?>\n<!DOCTYPE plist PUBLIC \"-//Apple//DTD PLIST 1.0//EN\" \"http://www.apple.com/DTDs/PropertyList-1.0.dtd\">\n<plist version=\"1.0\">\n<dict>\n<key>Label</key><string>l</string>\n<key>ProgramArguments</key>\n    <array>\n        <string>/b&lt;</string>\n        <string>--config</string>\n        <string>/home/me/my file</string>\n    </array>\n<key>RunAtLoad</key><true/>\n<key>KeepAlive</key><true/>\n<key>StandardOutPath</key><string>/o&amp;</string>\n<key>StandardErrorPath</key><string>/e</string>\n</dict>\n</plist>\n"
    );
    assert_eq!(
        p.commands,
        vec![
            cmd("launchctl", &["unload", "/p/l.plist"], OnFailure::Ignore),
            cmd("launchctl", &["bootstrap", "gui/501", "/p/l.plist"], OnFailure::TryNext),
            cmd("launchctl", &["load", "/p/l.plist"], OnFailure::Stop),
        ]
    );
    let u = uninstall(&service, "l");
    assert_eq!(u.remove.as_deref(), Some("l.plist"));
    assert_eq!(
        u.before,
        vec![
            cmd("launchctl", &["bootout", "gui/501/l"], OnFailure::Ignore),
            cmd("launchctl", &["unload", "/p/l.plist"], OnFailure::Ignore),
        ]
    );
    assert!(u.after.is_empty());
}

#[test]
fn commands_one_after_the_other() {
    let all = vec![
        cmd("a", &[], OnFailure::Ignore),
        cmd("b", &[], OnFailure::TryNext),
        cmd("c", &[], OnFailure::Stop),
        cmd("d", &[], OnFailure::Stop),
    ];
    assert_eq!(after_command(&all, 0, true), Ok(Some(1)));
    assert_eq!(after_command(&all, 0, false), Ok(Some(1)));
    assert_eq!(after_command(&all, 1, true), Ok(Some(3)));
    assert_eq!(after_command(&all, 1, false), Ok(Some(2)));
    assert_eq!(after_command(&all, 2, true), Ok(Some(3)));
    assert_eq!(after_command(&all, 2, false), Err(2));
    assert_eq!(after_command(&all, 3, true), Ok(None));
    assert_eq!(after_command(&all, 3, false), Err(3));
    let last = vec![cmd("b", &[], OnFailure::TryNext)];
    assert_eq!(after_command(&last, 0, true), Ok(None));
    assert_eq!(after_command(&last, 0, false), Ok(None));
}

#[test]
fn registry() {
    let p = install(&Service::Registry, "l", "C:\\b.exe", &args());
    assert!(p.file.is_none());
    assert_eq!(
        p.commands,
        vec![cmd(
            "reg",
            &[
                "add",
                RUN_KEY,
                "/v",
                "l",
                "/t",
                "REG_SZ",
                "/d",
                "\"C:\\b.exe\" \"--config\" \"/home/me/my file\"",
                "/f"
            ],
            OnFailure::Stop
        )]
    );
    let u = uninstall(&Service::Registry, "l");
    assert_eq!(u.remove, None);
    assert_eq!(
        u.before,
        vec![cmd("reg", &["delete", RUN_KEY, "/v", "l", "/f"], OnFailure::Ignore)]
    );
}

#[test]
fn announced_names() {
    assert_eq!(sanitize_instance_name("my.host_1"), "my-host-1");
    assert_eq!(sanitize_instance_name("--é--a--"), "a");
    assert_eq!(sanitize_instance_name("..."), "union-server");
    assert_eq!(sanitize_instance_name(""), "union-server");
    let r = service_record("My PC!", "abcd");
    assert_eq!((r.instance.as_str(), r.host.as_str()), ("My-PC", "My-PC.local."));
    assert_eq!((r.fp.as_str(), r.v.as_str()), ("abcd", "2"));
}

#[test]
fn host_names() {
    assert_eq!(hostname_default(Some(" h ".into()), None, "f"), " h ");
    assert_eq!(hostname_default(None, Some(b" box\n".to_vec()), "f"), "box");
    assert_eq!(hostname_default(None, Some(vec![0xff]), "f"), "f");
    assert_eq!(hostname_default(None, None, "this-host"), "this-host");
    assert_eq!(overlay_binary_name(Platform::Windows), "union-overlay.exe");
    assert_eq!(overlay_binary_name(Platform::Linux), "union-overlay");
}

#[test]
fn locking() {
    let mut w = LockWatch::new();
    assert_eq!(w.observe(None), None);
    assert_eq!(w.observe(Some(false)), None);
    assert_eq!(w.observe(Some(true)), Some(LockState::Locked));
    assert_eq!(w.observe(None), None);
    assert_eq!(w.observe(Some(true)), None);
    assert_eq!(w.observe(Some(false)), Some(LockState::Unlocked));
    let mut w = LockWatch::new();
    assert_eq!(w.observe(Some(true)), Some(LockState::Locked));
    assert_eq!(locked_hint(true, b"yes\n"), Some(true));
    assert_eq!(locked_hint(true, b"no\n"), Some(false));
    assert_eq!(locked_hint(false, b"yes\n"), None);
    assert_eq!(locked_hint(true, &[0xff]), None);
}

#[test]
fn defaults() {
    assert_eq!(default_port(), 24800);
    assert_eq!(default_bind(), "0.0.0.0");
    assert_eq!(default_clipboard_limit(), 1024 * 1024);
    assert_eq!(default_sni(), "union-server");
    let hk = HotkeyConfig::default();
    assert_eq!((hk.cycle_forward_key, hk.cycle_backward_key), (0x4F, 0x50));
    assert!(hk.require_ctrl && hk.require_alt && !hk.require_meta);
    for p in Position::all() {
        assert_eq!(Position::from_str(p.as_str()), Some(p));
    }
    assert_eq!(Position::from_str("Left"), None);
}

#[test]
fn the_banner() {
    assert_eq!(banner(0, 800), Banner::FadeIn(0));
    assert_eq!(banner(149, 800), Banner::FadeIn(149));
    assert_eq!(banner(150, 800), Banner::Hold);
    assert_eq!(banner(949, 800), Banner::Hold);
    assert_eq!(banner(950, 800), Banner::FadeOut(0));
    assert_eq!(banner(1099, 800), Banner::FadeOut(149));
    assert_eq!(banner(1100, 800), Banner::Gone);
}
