//! Uninstalling: the package removal commands of each distribution and the
//! checks made along the way.

use vstd::prelude::*;
use crate::models::string_views;
use crate::os_detection::{os_debug_name, os_debug_name_spec, OsType};
use crate::services::{commands_view, joined};
use crate::text::{chars_of, contains, contains_str, owned};

verus! {

/// The commands that remove the WireGuard packages: `before` and `after`
/// run around `main` and their outcomes do not count; `main` is the command
/// whose outcome decides; `launch_error_prefix` goes before the error of a
/// `main` that cannot be started; `qrencode_build` says whether a local
/// `qrencode-4.1.1` build is uninstalled and deleted first.
pub struct RemovalPlan {
    pub before: Vec<Vec<String>>,
    pub main: Vec<String>,
    pub after: Vec<Vec<String>>,
    pub launch_error_prefix: String,
    pub qrencode_build: bool,
}

/// A removal plan as plain text.
#[verifier::ext_equal]
pub struct RemovalView {
    pub before: Seq<Seq<Seq<char>>>,
    pub main: Seq<Seq<char>>,
    pub after: Seq<Seq<Seq<char>>>,
    pub launch_error_prefix: Seq<char>,
    pub qrencode_build: bool,
}

impl View for RemovalPlan {
    type V = RemovalView;

    open spec fn view(&self) -> RemovalView {
        RemovalView {
            before: commands_view(self.before@),
            main: string_views(self.main@),
            after: commands_view(self.after@),
            launch_error_prefix: self.launch_error_prefix@,
            qrencode_build: self.qrencode_build,
        }
    }
}

/// A plan with only a main command.
pub open spec fn simple_removal(main: Seq<Seq<char>>) -> RemovalView {
    RemovalView {
        before: Seq::<Seq<Seq<char>>>::empty(),
        main,
        after: Seq::<Seq<Seq<char>>>::empty(),
        launch_error_prefix: "Failed to execute package removal command: "@,
        qrencode_build: false,
    }
}

/// How each distribution's WireGuard packages are removed, given the major
/// version of the distribution; an unknown distribution is refused.
pub open spec fn removal_spec(os: OsType, major_version: u32) -> Result<RemovalView, Seq<char>> {
    match os {
        OsType::Ubuntu | OsType::Debian | OsType::Raspbian => Ok(
            simple_removal(
                seq!["apt-get"@, "remove"@, "-y"@, "wireguard"@, "wireguard-tools"@, "qrencode"@],
            ),
        ),
        OsType::Fedora => Ok(
            RemovalView {
                before: Seq::<Seq<Seq<char>>>::empty(),
                main: seq!["dnf"@, "remove"@, "-y"@, "--noautoremove"@, "wireguard-tools"@, "qrencode"@],
                after: if major_version < 32 {
                    seq![
                        seq!["dnf"@, "remove"@, "-y"@, "--noautoremove"@, "wireguard-dkms"@],
                        seq!["dnf"@, "copr"@, "disable"@, "-y"@, "jdoss/wireguard"@],
                    ]
                } else {
                    Seq::<Seq<Seq<char>>>::empty()
                },
                launch_error_prefix: "Failed to remove base packages: "@,
                qrencode_build: false,
            },
        ),
        OsType::Centos | OsType::AlmaLinux | OsType::Rocky => Ok(
            RemovalView {
                before: Seq::<Seq<Seq<char>>>::empty(),
                main: seq!["yum"@, "remove"@, "-y"@, "--noautoremove"@, "wireguard-tools"@],
                after: if major_version == 8 {
                    seq![
                        seq!["yum"@, "remove"@, "-y"@, "--noautoremove"@, "kmod-wireguard"@, "qrencode"@],
                    ]
                } else {
                    Seq::<Seq<Seq<char>>>::empty()
                },
                launch_error_prefix: "Failed to remove base packages: "@,
                qrencode_build: false,
            },
        ),
        OsType::Oracle => Ok(
            simple_removal(
                seq!["yum"@, "remove"@, "-y"@, "--noautoremove"@, "wireguard-tools"@, "qrencode"@],
            ),
        ),
        OsType::Arch => Ok(
            simple_removal(seq!["pacman"@, "-Rs"@, "--noconfirm"@, "wireguard-tools"@, "qrencode"@]),
        ),
        OsType::Alpine => Ok(
            RemovalView {
                before: seq![seq!["sh"@, "-c"@, "rm -rf qrencode-*"@]],
                main: seq!["apk"@, "del"@, "wireguard-tools"@, "libqrencode"@, "libqrencode-tools"@],
                after: Seq::<Seq<Seq<char>>>::empty(),
                launch_error_prefix: "Failed to execute package removal command: "@,
                qrencode_build: true,
            },
        ),
        OsType::Unknown => Err("Unsupported OS type: "@ + os_debug_name_spec(os)),
    }
}

/// A command from its words.
fn command_of(parts: Vec<&str>) -> (r: Vec<String>)
    ensures
        string_views(r@) == parts@.map_values(|p: &str| p@),
{
    let mut r: Vec<String> = Vec::new();
    let mut i: usize = 0;
    while i < parts.len()
        invariant
            i <= parts.len(),
            string_views(r@) == parts@.map_values(|p: &str| p@).take(i as int),
        decreases parts.len() - i,
    {
        let ghost before = r@;
        let w = owned(parts[i]);
        r.push(w);
        assert(r@ == before.push(w));
        assert(string_views(r@) =~= string_views(before).push(w@));
        assert(string_views(r@) =~= parts@.map_values(|p: &str| p@).take(i + 1));
        i += 1;
    }
    assert(parts@.map_values(|p: &str| p@).take(i as int) =~= parts@.map_values(|p: &str| p@));
    r
}

/// How the distribution's WireGuard packages are removed.
pub fn removal_plan(os: OsType, major_version: u32) -> (r: Result<RemovalPlan, String>)
    ensures
        match r {
            Ok(p) => removal_spec(os, major_version) == Ok::<RemovalView, Seq<char>>(p@),
            Err(e) => removal_spec(os, major_version) == Err::<RemovalView, Seq<char>>(e@),
        },
{
    let mut before: Vec<Vec<String>> = Vec::new();
    let mut after: Vec<Vec<String>> = Vec::new();
    let plain = "Failed to execute package removal command: ";
    let base = "Failed to remove base packages: ";
    let (main, prefix, build) = match os {
        OsType::Ubuntu | OsType::Debian | OsType::Raspbian => (
            command_of(vec!["apt-get", "remove", "-y", "wireguard", "wireguard-tools", "qrencode"]),
            plain,
            false,
        ),
        OsType::Fedora => {
            if major_version < 32 {
                after.push(command_of(vec!["dnf", "remove", "-y", "--noautoremove", "wireguard-dkms"]));
                after.push(command_of(vec!["dnf", "copr", "disable", "-y", "jdoss/wireguard"]));
            }
            (
                command_of(vec!["dnf", "remove", "-y", "--noautoremove", "wireguard-tools", "qrencode"]),
                base,
                false,
            )
        },
        OsType::Centos | OsType::AlmaLinux | OsType::Rocky => {
            if major_version == 8 {
                after.push(
                    command_of(vec!["yum", "remove", "-y", "--noautoremove", "kmod-wireguard", "qrencode"]),
                );
            }
            (command_of(vec!["yum", "remove", "-y", "--noautoremove", "wireguard-tools"]), base, false)
        },
        OsType::Oracle => (
            command_of(vec!["yum", "remove", "-y", "--noautoremove", "wireguard-tools", "qrencode"]),
            plain,
            false,
        ),
        OsType::Arch => (
            command_of(vec!["pacman", "-Rs", "--noconfirm", "wireguard-tools", "qrencode"]),
            plain,
            false,
        ),
        OsType::Alpine => {
            before.push(command_of(vec!["sh", "-c", "rm -rf qrencode-*"]));
            (command_of(vec!["apk", "del", "wireguard-tools", "libqrencode", "libqrencode-tools"]), plain, true)
        },
        OsType::Unknown => {
            let name = os_debug_name(os);
            return Err(joined("Unsupported OS type: ", name.as_str()));
        },
    };
    let plan = RemovalPlan {
        before,
        main,
        after,
        launch_error_prefix: owned(prefix),
        qrencode_build: build,
    };
    assert(plan@ =~~= removal_spec(os, major_version)->Ok_0);
    Ok(plan)
}

/// Whether a failed removal only says the packages are already gone.
pub open spec fn packages_already_gone(stderr: Seq<char>) -> bool {
    contains(stderr, "not installed"@) || contains(stderr, "No match"@)
}

/// The outcome of the main removal command: a failure is tolerated when the
/// packages are already gone.
pub fn package_removal_outcome(success: bool, stderr: &str) -> (r: Result<(), String>)
    ensures
        r is Ok <==> (success || packages_already_gone(stderr@)),
        r matches Err(e) ==> e@ == "Failed to remove packages: "@ + stderr@,
{
    if success {
        return Ok(());
    }
    let c = chars_of(stderr);
    if contains_str(&c, "not installed") || contains_str(&c, "No match") {
        return Ok(());
    }
    Err(joined("Failed to remove packages: ", stderr))
}

/// The command that tells whether the WireGuard service still runs.
pub open spec fn status_command_spec(interface: Seq<char>, os: OsType) -> Seq<Seq<char>> {
    if os == OsType::Alpine {
        seq!["rc-service"@, "wg-quick."@ + interface, "status"@]
    } else {
        seq!["systemctl"@, "is-active"@, "--quiet"@, "wg-quick@"@ + interface]
    }
}

/// The command that tells whether the WireGuard service still runs.
pub fn service_status_command(interface: &str, os: OsType) -> (r: Vec<String>)
    ensures
        string_views(r@) == status_command_spec(interface@, os),
{
    if os == OsType::Alpine {
        let service = joined("wg-quick.", interface);
        command_of(vec!["rc-service", service.as_str(), "status"])
    } else {
        let unit = joined("wg-quick@", interface);
        command_of(vec!["systemctl", "is-active", "--quiet", unit.as_str()])
    }
}

/// Whether `sysctl --system` is run after the configuration files are
/// removed: everywhere but on Alpine.
pub fn reloads_sysctl(os: OsType) -> (r: bool)
    ensures
        r == (os != OsType::Alpine),
{
    os != OsType::Alpine
}

/// The final check: the service must no longer run and the configuration
/// directory must be gone.
pub fn uninstall_verdict(service_running: bool, config_dir_exists: bool) -> (r: Result<(), String>)
    ensures
        r is Ok <==> !service_running && !config_dir_exists,
        service_running ==> (r matches Err(e) && e@
            == "WireGuard service is still running - uninstall may have failed"@),
        !service_running && config_dir_exists ==> (r matches Err(e) && e@
            == "WireGuard configuration directory still exists - cleanup may have failed"@),
{
    if service_running {
        return Err(owned("WireGuard service is still running - uninstall may have failed"));
    }
    if config_dir_exists {
        return Err(owned("WireGuard configuration directory still exists - cleanup may have failed"));
    }
    Ok(())
}

} // verus!
