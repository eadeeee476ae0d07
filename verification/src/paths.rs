//! Where the program keeps its files on each platform.

use crate::text::{owned, texts};
use vstd::prelude::*;

verus! {

#[derive(Debug, Clone, Copy, PartialEq, Eq, Structural)]
pub enum Platform {
    Linux,
    MacOs,
    Windows,
}

/// The directory that a path starts from.
#[derive(Debug, Clone, Copy, PartialEq, Eq, Structural)]
pub enum Base {
    /// The value of `UNION_CONFIG_DIR`.
    ConfigDirVar,
    /// The value of `APPDATA`.
    AppData,
    /// The value of `HOME`.
    Home,
    /// The value of `USERPROFILE`.
    UserProfile,
    /// The value of `XDG_CONFIG_HOME`.
    XdgConfig,
    /// The directory for temporary files.
    Tmp,
    /// The current directory.
    Current,
}

/// Which of the variables that paths start from are set.
#[derive(Debug, Clone, Copy, PartialEq, Eq, Structural)]
pub struct DirVars {
    pub config_dir: bool,
    pub app_data: bool,
    pub home: bool,
}

/// A path: where it starts, and the names to follow from there.
#[derive(Debug, PartialEq, Eq)]
pub struct PathPlan {
    pub base: Base,
    pub parts: Vec<String>,
}

impl View for PathPlan {
    type V = (Base, Seq<Seq<char>>);

    open spec fn view(&self) -> (Base, Seq<Seq<char>>) {
        (self.base, texts(self.parts@))
    }
}

/// The home directory, or the current one where there is none.
pub open spec fn home_or_here(home: bool) -> Base {
    if home {
        Base::Home
    } else {
        Base::Current
    }
}

/// The directory of the configuration: the one that the variable names, or that of the platform.
pub open spec fn config_dir_of(platform: Platform, vars: DirVars) -> (Base, Seq<Seq<char>>) {
    if vars.config_dir {
        (Base::ConfigDirVar, Seq::empty())
    } else if platform == Platform::Windows && vars.app_data {
        (Base::AppData, seq!["Union"@])
    } else if platform == Platform::MacOs && vars.home {
        (Base::Home, seq!["Library"@, "Application Support"@, "Union"@])
    } else {
        (home_or_here(vars.home), seq![".config"@, "union"@])
    }
}

/// The directory of the configuration.
pub fn config_dir(platform: Platform, vars: DirVars) -> (r: PathPlan)
    ensures
        r@ == config_dir_of(platform, vars),
{
    let mut parts: Vec<String> = Vec::new();
    let base = if vars.config_dir {
        Base::ConfigDirVar
    } else if platform == Platform::Windows && vars.app_data {
        parts.push(owned("Union"));
        Base::AppData
    } else if platform == Platform::MacOs && vars.home {
        parts.push(owned("Library"));
        parts.push(owned("Application Support"));
        parts.push(owned("Union"));
        Base::Home
    } else {
        parts.push(owned(".config"));
        parts.push(owned("union"));
        if vars.home {
            Base::Home
        } else {
            Base::Current
        }
    };
    let r = PathPlan { base, parts };
    assert(r@.1 =~= config_dir_of(platform, vars).1);
    r
}

/// The file in which the running server describes itself.
pub fn status_path(platform: Platform, vars: DirVars) -> (r: PathPlan)
    ensures
        r@.0 == config_dir_of(platform, vars).0,
        r@.1 == config_dir_of(platform, vars).1 + seq!["runtime"@, "status.json"@],
{
    let dir = config_dir(platform, vars);
    let mut parts = dir.parts;
    parts.push(owned("runtime"));
    parts.push(owned("status.json"));
    let r = PathPlan { base: dir.base, parts };
    assert(r@.1 =~= config_dir_of(platform, vars).1 + seq!["runtime"@, "status.json"@]);
    r
}

/// The directory of the server's certificate, unless the configuration names another.
pub fn default_cert_dir(home: bool) -> (r: PathPlan)
    ensures
        r@ == (home_or_here(home), seq![".config"@, "union"@, "certs"@]),
{
    let mut parts: Vec<String> = Vec::new();
    parts.push(owned(".config"));
    parts.push(owned("union"));
    parts.push(owned("certs"));
    let base = if home {
        Base::Home
    } else {
        Base::Current
    };
    let r = PathPlan { base, parts };
    assert(r@.1 =~= seq![".config"@, "union"@, "certs"@]);
    r
}

/// The directory of the configuration as the control panel finds it: on Windows the profile of the
/// user is looked at too.
pub fn panel_config_dir(platform: Platform, vars: DirVars, user_profile: bool) -> (r: PathPlan)
    ensures
        r@ == if platform == Platform::Windows && !vars.config_dir && !vars.app_data
            && user_profile {
            (Base::UserProfile, seq!["AppData"@, "Roaming"@, "Union"@])
        } else {
            config_dir_of(platform, vars)
        },
{
    if platform == Platform::Windows && !vars.config_dir && !vars.app_data && user_profile {
        let mut parts: Vec<String> = Vec::new();
        parts.push(owned("AppData"));
        parts.push(owned("Roaming"));
        parts.push(owned("Union"));
        let r = PathPlan { base: Base::UserProfile, parts };
        assert(r@.1 =~= seq!["AppData"@, "Roaming"@, "Union"@]);
        return r;
    }
    config_dir(platform, vars)
}

/// The directory for what is started at login: `None` where there is no such directory, because
/// the variable that it hangs on is not set or the platform keeps no files for this.
pub fn autostart_dir(platform: Platform, xdg: bool, home: bool) -> (r: Option<PathPlan>)
    ensures
        (match r {
            Some(p) => Some(p@),
            None => None,
        }) == match platform {
            Platform::Linux => if xdg {
                Some((Base::XdgConfig, seq!["systemd"@, "user"@]))
            } else if home {
                Some((Base::Home, seq![".config"@, "systemd"@, "user"@]))
            } else {
                None
            },
            Platform::MacOs => if home {
                Some((Base::Home, seq!["Library"@, "LaunchAgents"@]))
            } else {
                None
            },
            Platform::Windows => None,
        },
{
    let mut parts: Vec<String> = Vec::new();
    match platform {
        Platform::Linux => {
            if xdg {
                parts.push(owned("systemd"));
                parts.push(owned("user"));
                let r = PathPlan { base: Base::XdgConfig, parts };
                assert(r@.1 =~= seq!["systemd"@, "user"@]);
                return Some(r);
            }
            if !home {
                return None;
            }
            parts.push(owned(".config"));
            parts.push(owned("systemd"));
            parts.push(owned("user"));
            let r = PathPlan { base: Base::Home, parts };
            assert(r@.1 =~= seq![".config"@, "systemd"@, "user"@]);
            Some(r)
        },
        Platform::MacOs => {
            if !home {
                return None;
            }
            parts.push(owned("Library"));
            parts.push(owned("LaunchAgents"));
            let r = PathPlan { base: Base::Home, parts };
            assert(r@.1 =~= seq!["Library"@, "LaunchAgents"@]);
            Some(r)
        },
        Platform::Windows => None,
    }
}

/// The directory for what a LaunchAgent prints.
pub fn launch_log_dir(home: bool) -> (r: PathPlan)
    ensures
        r@ == if home {
            (Base::Home, seq!["Library"@, "Logs"@, "Union"@])
        } else {
            (Base::Tmp, Seq::empty())
        },
{
    let mut parts: Vec<String> = Vec::new();
    if !home {
        let r = PathPlan { base: Base::Tmp, parts };
        assert(r@.1 =~= Seq::empty());
        return r;
    }
    parts.push(owned("Library"));
    parts.push(owned("Logs"));
    parts.push(owned("Union"));
    let r = PathPlan { base: Base::Home, parts };
    assert(r@.1 =~= seq!["Library"@, "Logs"@, "Union"@]);
    r
}

/// The variable wins on every platform; without it the directory lies in the user's own directory,
/// under a name of the program; and it does not change with what is not looked at.
pub proof fn variable_wins(platform: Platform, vars: DirVars)
    ensures
        vars.config_dir <==> config_dir_of(platform, vars) == (
            Base::ConfigDirVar,
            Seq::<Seq<char>>::empty(),
        ),
        !vars.config_dir && vars.home && !(platform is Windows && vars.app_data) ==> config_dir_of(
            platform,
            vars,
        ).0 == Base::Home,
        !vars.config_dir && !vars.home && !(platform is Windows && vars.app_data) ==> config_dir_of(
            platform,
            vars,
        ).0 == Base::Current,
        !vars.config_dir && platform is Windows && vars.app_data ==> config_dir_of(platform, vars)
            == (Base::AppData, seq!["Union"@]),
        !vars.config_dir ==> config_dir_of(platform, vars).1.len() > 0 && {
            let last = config_dir_of(platform, vars).1.last();
            last == if platform is Linux || platform is MacOs && !vars.home || platform is Windows
                && !vars.app_data {
                "union"@
            } else {
                "Union"@
            }
        },
        platform is Linux ==> config_dir_of(platform, vars) == config_dir_of(
            platform,
            DirVars { app_data: !vars.app_data, ..vars },
        ),
{
    assert(Seq::<Seq<char>>::empty().len() == 0);
}

/// What is started at login is kept in a directory of the platform, in the one that the variable
/// names where there is one, and otherwise in the user's own; on Windows there is none.
pub proof fn login_files_lie_with_the_user(
    platform: Platform,
    xdg: bool,
    home: bool,
    r: Option<PathPlan>,
)
    requires
        call_ensures(autostart_dir, (platform, xdg, home), r),
    ensures
        r is Some <==> platform is Linux && (xdg || home) || platform is MacOs && home,
        platform is Linux && xdg ==> r->Some_0@ == (Base::XdgConfig, seq!["systemd"@, "user"@]),
        r is Some && !(platform is Linux && xdg) ==> r->Some_0@.0 == Base::Home,
        r is Some && platform is Linux ==> r->Some_0@.1.last() == "user"@,
        r is Some && platform is MacOs ==> r->Some_0@.1.last() == "LaunchAgents"@,
{
}

/// The panel finds the directory where the program does, but on Windows without the usual variable,
/// where it goes by the user's profile.
pub proof fn panel_finds_the_directory(
    platform: Platform,
    vars: DirVars,
    user_profile: bool,
    r: PathPlan,
    program: PathPlan,
)
    requires
        call_ensures(panel_config_dir, (platform, vars, user_profile), r),
        call_ensures(config_dir, (platform, vars), program),
    ensures
        !(platform is Windows) || vars.config_dir || vars.app_data || !user_profile ==> r@
            == program@,
        r@.0 == Base::UserProfile <==> platform is Windows && !vars.config_dir && !vars.app_data
            && user_profile,
        r@.0 == Base::UserProfile ==> r@.1 == seq!["AppData"@, "Roaming"@, "Union"@],
{
}

/// The status file lies in the directory of the configuration.
pub proof fn status_lies_with_the_configuration(
    platform: Platform,
    vars: DirVars,
    dir: PathPlan,
    file: PathPlan,
)
    requires
        call_ensures(config_dir, (platform, vars), dir),
        call_ensures(status_path, (platform, vars), file),
    ensures
        file@.0 == dir@.0,
        dir@.1.is_prefix_of(file@.1),
        file@.1.len() == dir@.1.len() + 2,
        file@.1.last() == "status.json"@,
{
    assert(file@.1.subrange(0, dir@.1.len() as int) =~= dir@.1);
}

} // verus!
