//! Starting, enabling and stopping WireGuard services: the commands run for
//! each init system, and what each command's outcome leads to.

use vstd::prelude::*;
use crate::models::string_views;
use crate::os_detection::OsType;
use crate::text::{chars_of, contains, contains_str, extend_str, option_text, owned, string_of};

verus! {

/// What a failed exit of a step's command leads to.
#[derive(Clone, Copy, Debug, PartialEq, Eq, Structural)]
pub enum OnFailure {
    /// The sequence stops with the error prefix and the command's standard error.
    Fail,
    /// A warning is printed and the sequence goes on.
    Warn,
    /// The sequence goes on silently.
    Ignore,
}

/// One command of a service sequence and how its outcome is handled.
pub struct ServiceStep {
    /// The program and its arguments.
    pub command: Vec<String>,
    /// Put before the error of a command that could not be started, or that
    /// failed with `OnFailure::Fail`.
    pub error_prefix: String,
    /// Whether a command that could not be started ends the sequence.
    pub launch_fatal: bool,
    pub on_failure: OnFailure,
    /// The warning printed on a failed exit with `OnFailure::Warn`.
    pub warning: String,
    /// Whether the warning is followed by the command's standard error.
    pub warning_with_stderr: bool,
    /// Printed when the command succeeds.
    pub success_note: Option<String>,
    /// The step is skipped when this path exists.
    pub unless_exists: Option<String>,
}

/// A step as plain text.
#[verifier::ext_equal]
pub struct StepView {
    pub command: Seq<Seq<char>>,
    pub error_prefix: Seq<char>,
    pub launch_fatal: bool,
    pub on_failure: OnFailure,
    pub warning: Seq<char>,
    pub warning_with_stderr: bool,
    pub success_note: Option<Seq<char>>,
    pub unless_exists: Option<Seq<char>>,
}

impl View for ServiceStep {
    type V = StepView;

    open spec fn view(&self) -> StepView {
        StepView {
            command: string_views(self.command@),
            error_prefix: self.error_prefix@,
            launch_fatal: self.launch_fatal,
            on_failure: self.on_failure,
            warning: self.warning@,
            warning_with_stderr: self.warning_with_stderr,
            success_note: option_text(self.success_note),
            unless_exists: option_text(self.unless_exists),
        }
    }
}

/// The steps of a sequence as plain text.
pub open spec fn steps_view(s: Seq<ServiceStep>) -> Seq<StepView> {
    s.map_values(|x: ServiceStep| x@)
}

/// How a finished command exited: successfully or not, with its standard
/// error as text.
pub struct CommandStatus {
    pub success: bool,
    pub stderr: String,
}

/// What the outcome of a step's command leads to.
#[derive(Debug)]
pub enum StepResult {
    /// Go on.
    Proceed,
    /// Print this note and go on.
    Note(String),
    /// Print this warning and go on.
    Warning(String),
    /// Stop the sequence with this error.
    Stop(String),
}

/// What the outcome of a step's command leads to: `Err` is a command that
/// could not be started, with the message of the error.
pub open spec fn step_result_spec(step: StepView, launched: Result<(bool, Seq<char>), Seq<char>>) -> (
    int,
    Seq<char>,
) {
    match launched {
        Err(e) => if step.launch_fatal {
            (3, step.error_prefix + e)
        } else {
            (0, Seq::<char>::empty())
        },
        Ok(st) => if st.0 {
            match step.success_note {
                Some(n) => (1, n),
                None => (0, Seq::<char>::empty()),
            }
        } else {
            match step.on_failure {
                OnFailure::Fail => (3, step.error_prefix + st.1),
                OnFailure::Warn => (
                    2,
                    if step.warning_with_stderr {
                        step.warning + st.1
                    } else {
                        step.warning
                    },
                ),
                OnFailure::Ignore => (0, Seq::<char>::empty()),
            }
        },
    }
}

/// A step result as a kind (0 proceed, 1 note, 2 warning, 3 stop) and its text.
pub open spec fn result_view(r: StepResult) -> (int, Seq<char>) {
    match r {
        StepResult::Proceed => (0, Seq::<char>::empty()),
        StepResult::Note(s) => (1, s@),
        StepResult::Warning(s) => (2, s@),
        StepResult::Stop(s) => (3, s@),
    }
}

/// A command's outcome as plain values.
pub open spec fn launched_view(o: Result<CommandStatus, String>) -> Result<(bool, Seq<char>), Seq<char>> {
    match o {
        Ok(st) => Ok((st.success, st.stderr@)),
        Err(e) => Err(e@),
    }
}

/// What the outcome of a step's command leads to.
pub fn step_result(step: &ServiceStep, outcome: &Result<CommandStatus, String>) -> (r: StepResult)
    ensures
        result_view(r) == step_result_spec(step@, launched_view(*outcome)),
{
    match outcome {
        Err(e) => {
            if step.launch_fatal {
                StepResult::Stop(joined(step.error_prefix.as_str(), e.as_str()))
            } else {
                StepResult::Proceed
            }
        },
        Ok(st) => {
            if st.success {
                match &step.success_note {
                    Some(n) => StepResult::Note(n.clone()),
                    None => StepResult::Proceed,
                }
            } else {
                match step.on_failure {
                    OnFailure::Fail => StepResult::Stop(
                        joined(step.error_prefix.as_str(), st.stderr.as_str()),
                    ),
                    OnFailure::Warn => {
                        if step.warning_with_stderr {
                            StepResult::Warning(joined(step.warning.as_str(), st.stderr.as_str()))
                        } else {
                            StepResult::Warning(step.warning.clone())
                        }
                    },
                    OnFailure::Ignore => StepResult::Proceed,
                }
            }
        },
    }
}

/// `a` followed by `b`.
pub fn joined(a: &str, b: &str) -> (r: String)
    ensures
        r@ == a@ + b@,
{
    let mut v = chars_of(a);
    extend_str(&mut v, b);
    string_of(&v)
}

/// `a`, `b` and `c` one after another.
pub fn joined3(a: &str, b: &str, c: &str) -> (r: String)
    ensures
        r@ == a@ + b@ + c@,
{
    let mut v = chars_of(a);
    extend_str(&mut v, b);
    extend_str(&mut v, c);
    string_of(&v)
}

// ---------------------------------------------------------------------------
// Starting the service after installation
// ---------------------------------------------------------------------------

/// An installation step: a failed exit prints the warning; a command that
/// cannot be started ends the installation with `what` and the error.
pub open spec fn install_step(command: Seq<Seq<char>>, what: Seq<char>, warning: Seq<char>, note: Option<Seq<char>>) -> StepView {
    StepView {
        command,
        error_prefix: what + ": "@,
        launch_fatal: true,
        on_failure: OnFailure::Warn,
        warning,
        warning_with_stderr: false,
        success_note: note,
        unless_exists: None,
    }
}

/// The systemd steps: reload sysctl, start and enable `wg-quick@<nic>`.
pub open spec fn systemd_setup_spec(nic: Seq<char>) -> Seq<StepView> {
    let unit = "wg-quick@"@ + nic;
    seq![
        install_step(
            seq!["sysctl"@, "--system"@],
            "Failed to reload sysctl configuration"@,
            "Warning: Failed to reload sysctl configuration"@,
            None,
        ),
        install_step(
            seq!["systemctl"@, "start"@, unit],
            "Failed to start WireGuard service"@,
            "Warning: Failed to start WireGuard service"@,
            Some("WireGuard service '"@ + unit + "' started successfully"@),
        ),
        install_step(
            seq!["systemctl"@, "enable"@, unit],
            "Failed to enable WireGuard service at boot"@,
            "Warning: Failed to enable WireGuard service at boot"@,
            Some("WireGuard service '"@ + unit + "' enabled at boot"@),
        ),
    ]
}

/// The Fedora steps that restrict `/etc/wireguard` before systemd starts it.
pub open spec fn fedora_permission_spec() -> Seq<StepView> {
    seq![
        install_step(
            seq!["chmod"@, "-v"@, "700"@, "/etc/wireguard"@],
            "Failed to set directory permissions on /etc/wireguard"@,
            "Warning: Failed to set directory permissions"@,
            None,
        ),
        install_step(
            seq!["sh"@, "-c"@, "chmod -v 600 /etc/wireguard/*"@],
            "Failed to set file permissions on /etc/wireguard files"@,
            "Warning: Failed to set file permissions"@,
            None,
        ),
    ]
}

/// The OpenRC steps of Alpine: apply sysctl and add it at boot, link, start
/// and add the `wg-quick.<nic>` service.
pub open spec fn openrc_setup_spec(nic: Seq<char>) -> Seq<StepView> {
    let service = "wg-quick."@ + nic;
    seq![
        install_step(
            seq!["sysctl"@, "-p"@, "/etc/sysctl.d/wg.conf"@],
            "Failed to apply sysctl configuration"@,
            "Warning: Failed to apply sysctl configuration"@,
            None,
        ),
        install_step(
            seq!["rc-update"@, "add"@, "sysctl"@],
            "Failed to add sysctl to boot services"@,
            "Warning: Failed to add sysctl to boot services"@,
            None,
        ),
        install_step(
            seq!["ln"@, "-s"@, "/etc/init.d/wg-quick"@, "/etc/init.d/"@ + service],
            "Failed to create service symlink"@,
            "Warning: Failed to create service symlink"@,
            None,
        ),
        install_step(
            seq!["rc-service"@, service, "start"@],
            "Failed to start WireGuard service"@,
            "Warning: Failed to start WireGuard service"@,
            None,
        ),
        install_step(
            seq!["rc-update"@, "add"@, service],
            "Failed to enable WireGuard service at boot"@,
            "Warning: Failed to enable WireGuard service at boot"@,
            None,
        ),
    ]
}

/// The steps that configure and start the WireGuard service after
/// installation: OpenRC on Alpine, systemd after restricting permissions on
/// Fedora, systemd otherwise (an unknown distribution too).
pub open spec fn service_setup_spec(os: OsType, nic: Seq<char>) -> Seq<StepView> {
    match os {
        OsType::Alpine => openrc_setup_spec(nic),
        OsType::Fedora => fedora_permission_spec() + systemd_setup_spec(nic),
        _ => systemd_setup_spec(nic),
    }
}

/// A command of two to four words.
fn command(a: &str, b: &str, c: Option<&str>, d: Option<&str>) -> (r: Vec<String>)
    ensures
        string_views(r@) == seq![a@, b@] + match c {
            Some(x) => seq![x@],
            None => Seq::<Seq<char>>::empty(),
        } + match d {
            Some(x) => seq![x@],
            None => Seq::<Seq<char>>::empty(),
        },
{
    let mut r: Vec<String> = Vec::new();
    r.push(owned(a));
    r.push(owned(b));
    match c {
        Some(x) => r.push(owned(x)),
        None => {},
    }
    match d {
        Some(x) => r.push(owned(x)),
        None => {},
    }
    proof {
        let e = Seq::<Seq<char>>::empty();
        let tc = match c {
            Some(x) => seq![x@],
            None => e,
        };
        let td = match d {
            Some(x) => seq![x@],
            None => e,
        };
        assert(string_views(r@) =~= seq![a@, b@] + tc + td);
    }
    r
}

/// An installation step, as `install_step` describes it.
fn make_install_step(command: Vec<String>, what: &str, warning: &str, note: Option<String>) -> (r: ServiceStep)
    ensures
        r@ == install_step(string_views(command@), what@, warning@, option_text(note)),
{
    ServiceStep {
        command,
        error_prefix: joined(what, ": "),
        launch_fatal: true,
        on_failure: OnFailure::Warn,
        warning: owned(warning),
        warning_with_stderr: false,
        success_note: note,
        unless_exists: None,
    }
}

/// Appends the systemd steps.
fn push_systemd_setup(steps: &mut Vec<ServiceStep>, nic: &str)
    ensures
        steps_view(final(steps)@) == steps_view(old(steps)@) + systemd_setup_spec(nic@),
{
    let ghost before = steps@;
    let unit = joined("wg-quick@", nic);
    steps.push(
        make_install_step(
            command("sysctl", "--system", None, None),
            "Failed to reload sysctl configuration",
            "Warning: Failed to reload sysctl configuration",
            None,
        ),
    );
    steps.push(
        make_install_step(
            command("systemctl", "start", Some(unit.as_str()), None),
            "Failed to start WireGuard service",
            "Warning: Failed to start WireGuard service",
            Some(joined3("WireGuard service '", unit.as_str(), "' started successfully")),
        ),
    );
    steps.push(
        make_install_step(
            command("systemctl", "enable", Some(unit.as_str()), None),
            "Failed to enable WireGuard service at boot",
            "Warning: Failed to enable WireGuard service at boot",
            Some(joined3("WireGuard service '", unit.as_str(), "' enabled at boot")),
        ),
    );
    assert(steps_view(steps@) =~~= steps_view(before) + systemd_setup_spec(nic@));
}

/// The steps that configure and start the WireGuard service after
/// installation.
pub fn service_setup_steps(os: OsType, nic: &str) -> (r: Vec<ServiceStep>)
    ensures
        steps_view(r@) == service_setup_spec(os, nic@),
{
    let mut steps: Vec<ServiceStep> = Vec::new();
    assert(steps_view(steps@) =~= Seq::<StepView>::empty());
    match os {
        OsType::Alpine => {
            let service = joined("wg-quick.", nic);
            let link = joined("/etc/init.d/", service.as_str());
            steps.push(
                make_install_step(
                    command("sysctl", "-p", Some("/etc/sysctl.d/wg.conf"), None),
                    "Failed to apply sysctl configuration",
                    "Warning: Failed to apply sysctl configuration",
                    None,
                ),
            );
            steps.push(
                make_install_step(
                    command("rc-update", "add", Some("sysctl"), None),
                    "Failed to add sysctl to boot services",
                    "Warning: Failed to add sysctl to boot services",
                    None,
                ),
            );
            steps.push(
                make_install_step(
                    command("ln", "-s", Some("/etc/init.d/wg-quick"), Some(link.as_str())),
                    "Failed to create service symlink",
                    "Warning: Failed to create service symlink",
                    None,
                ),
            );
            steps.push(
                make_install_step(
                    command("rc-service", service.as_str(), Some("start"), None),
                    "Failed to start WireGuard service",
                    "Warning: Failed to start WireGuard service",
                    None,
                ),
            );
            steps.push(
                make_install_step(
                    command("rc-update", "add", Some(service.as_str()), None),
                    "Failed to enable WireGuard service at boot",
                    "Warning: Failed to enable WireGuard service at boot",
                    None,
                ),
            );
            assert(steps_view(steps@) =~~= service_setup_spec(os, nic@));
        },
        OsType::Fedora => {
            steps.push(
                make_install_step(
                    command("chmod", "-v", Some("700"), Some("/etc/wireguard")),
                    "Failed to set directory permissions on /etc/wireguard",
                    "Warning: Failed to set directory permissions",
                    None,
                ),
            );
            steps.push(
                make_install_step(
                    command("sh", "-c", Some("chmod -v 600 /etc/wireguard/*"), None),
                    "Failed to set file permissions on /etc/wireguard files",
                    "Warning: Failed to set file permissions",
                    None,
                ),
            );
            assert(steps_view(steps@) =~~= fedora_permission_spec());
            push_systemd_setup(&mut steps, nic);
        },
        _ => {
            push_systemd_setup(&mut steps, nic);
            assert(steps_view(steps@) =~~= service_setup_spec(os, nic@));
        },
    }
    steps
}

// ---------------------------------------------------------------------------
// Enabling and disabling an added interface
// ---------------------------------------------------------------------------

/// The init system found on the machine.
#[derive(Clone, Copy, Debug, PartialEq, Eq, Structural)]
pub enum InitSystem {
    Systemd,
    OpenRc,
    Neither,
}

/// systemd when `systemctl --version` succeeded, else OpenRC when
/// `rc-service --version` did.
pub fn detect_init_system(systemd_answers: bool, openrc_answers: bool) -> (r: InitSystem)
    ensures
        r == (if systemd_answers {
            InitSystem::Systemd
        } else if openrc_answers {
            InitSystem::OpenRc
        } else {
            InitSystem::Neither
        }),
{
    if systemd_answers {
        InitSystem::Systemd
    } else if openrc_answers {
        InitSystem::OpenRc
    } else {
        InitSystem::Neither
    }
}

/// A step of managing an interface.
pub open spec fn manage_step(
    command: Seq<Seq<char>>,
    error_prefix: Seq<char>,
    launch_fatal: bool,
    on_failure: OnFailure,
    warning: Seq<char>,
    warning_with_stderr: bool,
    unless_exists: Option<Seq<char>>,
) -> StepView {
    StepView {
        command,
        error_prefix,
        launch_fatal,
        on_failure,
        warning,
        warning_with_stderr,
        success_note: None,
        unless_exists,
    }
}

/// The steps that enable and start an added interface, and the line printed
/// when they all went through; or the message when no init system is found.
pub open spec fn enable_interface_spec(init: InitSystem, name: Seq<char>) -> Result<
    (Seq<StepView>, Seq<char>),
    Seq<char>,
> {
    let unit = "wg-quick@"@ + name;
    let service = "wg-quick."@ + name;
    let enable_err = "Failed to enable interface "@ + name + ": "@;
    let start_err = "Failed to start interface "@ + name + ": "@;
    match init {
        InitSystem::Systemd => Ok(
            (
                seq![
                    manage_step(seq!["systemctl"@, "enable"@, unit], enable_err, true, OnFailure::Fail, Seq::<char>::empty(), false, None),
                    manage_step(seq!["systemctl"@, "start"@, unit], start_err, true, OnFailure::Fail, Seq::<char>::empty(), false, None),
                ],
                "✅ Interface "@ + name + " enabled and started (systemd)"@,
            ),
        ),
        InitSystem::OpenRc => Ok(
            (
                seq![
                    manage_step(
                        seq!["ln"@, "-s"@, "/etc/init.d/wg-quick"@, "/etc/init.d/"@ + service],
                        Seq::<char>::empty(),
                        false,
                        OnFailure::Warn,
                        "Warning: Failed to create service symlink for "@ + name,
                        false,
                        Some("/etc/init.d/"@ + service),
                    ),
                    manage_step(
                        seq!["rc-update"@, "add"@, service],
                        enable_err,
                        true,
                        OnFailure::Warn,
                        "Warning: Failed to add "@ + name + " to runlevel"@,
                        false,
                        None,
                    ),
                    manage_step(seq!["rc-service"@, service, "start"@], start_err, true, OnFailure::Fail, Seq::<char>::empty(), false, None),
                ],
                "✅ Interface "@ + name + " enabled and started (OpenRC)"@,
            ),
        ),
        InitSystem::Neither => Err("No supported init system found (systemd or OpenRC required)"@),
    }
}

/// A step of managing an interface, as `manage_step` describes it.
fn make_manage_step(
    command: Vec<String>,
    error_prefix: String,
    launch_fatal: bool,
    on_failure: OnFailure,
    warning: String,
    warning_with_stderr: bool,
    unless_exists: Option<String>,
) -> (r: ServiceStep)
    ensures
        r@ == manage_step(
            string_views(command@),
            error_prefix@,
            launch_fatal,
            on_failure,
            warning@,
            warning_with_stderr,
            option_text(unless_exists),
        ),
{
    ServiceStep {
        command,
        error_prefix,
        launch_fatal,
        on_failure,
        warning,
        warning_with_stderr,
        success_note: None,
        unless_exists,
    }
}

/// The steps that enable and start an added interface.
pub fn enable_interface_steps(init: InitSystem, name: &str) -> (r: Result<(Vec<ServiceStep>, String), String>)
    ensures
        match r {
            Ok(plan) => enable_interface_spec(init, name@) == Ok::<(Seq<StepView>, Seq<char>), Seq<char>>(
                (steps_view(plan.0@), plan.1@),
            ),
            Err(e) => enable_interface_spec(init, name@) == Err::<(Seq<StepView>, Seq<char>), Seq<char>>(
                e@,
            ),
        },
{
    let unit = joined("wg-quick@", name);
    let service = joined("wg-quick.", name);
    let mut steps: Vec<ServiceStep> = Vec::new();
    match init {
        InitSystem::Systemd => {
            steps.push(
                make_manage_step(
                    command("systemctl", "enable", Some(unit.as_str()), None),
                    joined3("Failed to enable interface ", name, ": "),
                    true,
                    OnFailure::Fail,
                    String::new(),
                    false,
                    None,
                ),
            );
            steps.push(
                make_manage_step(
                    command("systemctl", "start", Some(unit.as_str()), None),
                    joined3("Failed to start interface ", name, ": "),
                    true,
                    OnFailure::Fail,
                    String::new(),
                    false,
                    None,
                ),
            );
            let done = joined3("✅ Interface ", name, " enabled and started (systemd)");
            proof {
                let spec = enable_interface_spec(init, name@)->Ok_0;
                assert(steps_view(steps@) =~~= spec.0);
            }
            Ok((steps, done))
        },
        InitSystem::OpenRc => {
            let link = joined("/etc/init.d/", service.as_str());
            steps.push(
                make_manage_step(
                    command("ln", "-s", Some("/etc/init.d/wg-quick"), Some(link.as_str())),
                    String::new(),
                    false,
                    OnFailure::Warn,
                    joined("Warning: Failed to create service symlink for ", name),
                    false,
                    Some(link.clone()),
                ),
            );
            steps.push(
                make_manage_step(
                    command("rc-update", "add", Some(service.as_str()), None),
                    joined3("Failed to enable interface ", name, ": "),
                    true,
                    OnFailure::Warn,
                    joined3("Warning: Failed to add ", name, " to runlevel"),
                    false,
                    None,
                ),
            );
            steps.push(
                make_manage_step(
                    command("rc-service", service.as_str(), Some("start"), None),
                    joined3("Failed to start interface ", name, ": "),
                    true,
                    OnFailure::Fail,
                    String::new(),
                    false,
                    None,
                ),
            );
            let done = joined3("✅ Interface ", name, " enabled and started (OpenRC)");
            proof {
                let spec = enable_interface_spec(init, name@)->Ok_0;
                assert(steps_view(steps@) =~~= spec.0);
            }
            Ok((steps, done))
        },
        InitSystem::Neither => Err(owned("No supported init system found (systemd or OpenRC required)")),
    }
}

/// The steps that stop and disable an interface being removed, the file to
/// remove afterwards if it exists, and the line printed at the end.
pub open spec fn disable_interface_spec(init: InitSystem, name: Seq<char>) -> (
    Seq<StepView>,
    Option<Seq<char>>,
    Seq<char>,
) {
    let unit = "wg-quick@"@ + name;
    let service = "wg-quick."@ + name;
    let stop_err = "Failed to stop interface "@ + name + ": "@;
    let disable_err = "Failed to disable interface "@ + name + ": "@;
    match init {
        InitSystem::Systemd => (
            seq![
                manage_step(seq!["systemctl"@, "stop"@, unit], stop_err, true, OnFailure::Warn, "Warning: "@ + stop_err, true, None),
                manage_step(seq!["systemctl"@, "disable"@, unit], disable_err, true, OnFailure::Warn, "Warning: "@ + disable_err, true, None),
            ],
            None,
            "✅ Interface "@ + name + " disabled (systemd)"@,
        ),
        InitSystem::OpenRc => (
            seq![
                manage_step(seq!["rc-service"@, service, "stop"@], stop_err, true, OnFailure::Warn, "Warning: "@ + stop_err, true, None),
                manage_step(
                    seq!["rc-update"@, "del"@, service],
                    disable_err,
                    true,
                    OnFailure::Warn,
                    "Warning: Failed to remove "@ + name + " from runlevel"@,
                    false,
                    None,
                ),
            ],
            Some("/etc/init.d/"@ + service),
            "✅ Interface "@ + name + " disabled (OpenRC)"@,
        ),
        InitSystem::Neither => (Seq::<StepView>::empty(), None, "Warning: No supported init system found"@),
    }
}

/// The steps that stop and disable an interface being removed.
pub fn disable_interface_steps(init: InitSystem, name: &str) -> (r: (Vec<ServiceStep>, Option<String>, String))
    ensures
        disable_interface_spec(init, name@) == (steps_view(r.0@), option_text(r.1), r.2@),
{
    let unit = joined("wg-quick@", name);
    let service = joined("wg-quick.", name);
    let stop_err = joined3("Failed to stop interface ", name, ": ");
    let disable_err = joined3("Failed to disable interface ", name, ": ");
    let mut steps: Vec<ServiceStep> = Vec::new();
    match init {
        InitSystem::Systemd => {
            steps.push(
                make_manage_step(
                    command("systemctl", "stop", Some(unit.as_str()), None),
                    stop_err.clone(),
                    true,
                    OnFailure::Warn,
                    joined("Warning: ", stop_err.as_str()),
                    true,
                    None,
                ),
            );
            steps.push(
                make_manage_step(
                    command("systemctl", "disable", Some(unit.as_str()), None),
                    disable_err.clone(),
                    true,
                    OnFailure::Warn,
                    joined("Warning: ", disable_err.as_str()),
                    true,
                    None,
                ),
            );
            let done = joined3("✅ Interface ", name, " disabled (systemd)");
            assert(steps_view(steps@) =~~= disable_interface_spec(init, name@).0);
            (steps, None, done)
        },
        InitSystem::OpenRc => {
            steps.push(
                make_manage_step(
                    command("rc-service", service.as_str(), Some("stop"), None),
                    stop_err.clone(),
                    true,
                    OnFailure::Warn,
                    joined("Warning: ", stop_err.as_str()),
                    true,
                    None,
                ),
            );
            steps.push(
                make_manage_step(
                    command("rc-update", "del", Some(service.as_str()), None),
                    disable_err.clone(),
                    true,
                    OnFailure::Warn,
                    joined3("Warning: Failed to remove ", name, " from runlevel"),
                    false,
                    None,
                ),
            );
            let done = joined3("✅ Interface ", name, " disabled (OpenRC)");
            assert(steps_view(steps@) =~~= disable_interface_spec(init, name@).0);
            (steps, Some(joined("/etc/init.d/", service.as_str())), done)
        },
        InitSystem::Neither => {
            assert(steps_view(steps@) =~= Seq::<StepView>::empty());
            (steps, None, owned("Warning: No supported init system found"))
        },
    }
}

// ---------------------------------------------------------------------------
// Stopping the service when uninstalling
// ---------------------------------------------------------------------------

/// The command that stops the WireGuard service of `interface`.
pub open spec fn stop_service_spec(interface: Seq<char>, os: OsType) -> Seq<Seq<char>> {
    if os == OsType::Alpine {
        seq!["rc-service"@, "wg-quick."@ + interface, "stop"@]
    } else {
        seq!["systemctl"@, "stop"@, "wg-quick@"@ + interface]
    }
}

/// The command that stops the WireGuard service of `interface`.
pub fn stop_service_command(interface: &str, os: OsType) -> (r: Vec<String>)
    ensures
        string_views(r@) == stop_service_spec(interface@, os),
{
    if os == OsType::Alpine {
        let service = joined("wg-quick.", interface);
        let r = command("rc-service", service.as_str(), Some("stop"), None);
        assert(string_views(r@) =~= stop_service_spec(interface@, os));
        r
    } else {
        let unit = joined("wg-quick@", interface);
        let r = command("systemctl", "stop", Some(unit.as_str()), None);
        assert(string_views(r@) =~= stop_service_spec(interface@, os));
        r
    }
}

/// The commands that disable the WireGuard service of `interface`; only the
/// first one's outcome counts.
pub open spec fn disable_service_spec(interface: Seq<char>, os: OsType) -> Seq<Seq<Seq<char>>> {
    if os == OsType::Alpine {
        seq![
            seq!["rc-update"@, "del"@, "wg-quick."@ + interface],
            seq!["unlink"@, "/etc/init.d/wg-quick."@ + interface],
            seq!["rc-update"@, "del"@, "sysctl"@],
        ]
    } else {
        seq![seq!["systemctl"@, "disable"@, "wg-quick@"@ + interface]]
    }
}

/// The commands as plain text.
pub open spec fn commands_view(c: Seq<Vec<String>>) -> Seq<Seq<Seq<char>>> {
    c.map_values(|x: Vec<String>| string_views(x@))
}

/// The commands that disable the WireGuard service of `interface`.
pub fn disable_service_commands(interface: &str, os: OsType) -> (r: Vec<Vec<String>>)
    ensures
        commands_view(r@) == disable_service_spec(interface@, os),
{
    let mut r: Vec<Vec<String>> = Vec::new();
    if os == OsType::Alpine {
        let service = joined("wg-quick.", interface);
        let link = joined("/etc/init.d/wg-quick.", interface);
        r.push(command("rc-update", "del", Some(service.as_str()), None));
        let mut unlink: Vec<String> = Vec::new();
        unlink.push(owned("unlink"));
        unlink.push(link);
        r.push(unlink);
        r.push(command("rc-update", "del", Some("sysctl"), None));
        proof {
            assert(string_views(r@[1]@) =~= seq!["unlink"@, "/etc/init.d/wg-quick."@ + interface@]);
        }
        assert(commands_view(r@) =~~= disable_service_spec(interface@, os));
    } else {
        let unit = joined("wg-quick@", interface);
        r.push(command("systemctl", "disable", Some(unit.as_str()), None));
        assert(commands_view(r@) =~~= disable_service_spec(interface@, os));
    }
    r
}

/// Put before the error of a first disabling command that cannot be started.
pub fn disable_service_launch_error(os: OsType) -> (r: String)
    ensures
        r@ == (if os == OsType::Alpine {
            "Failed to execute rc-update del: "@
        } else {
            "Failed to execute disable command: "@
        }),
{
    if os == OsType::Alpine {
        owned("Failed to execute rc-update del: ")
    } else {
        owned("Failed to execute disable command: ")
    }
}

/// Whether a failed service command only says that the service is gone.
pub open spec fn service_already_gone(stderr: Seq<char>) -> bool {
    contains(stderr, "not loaded"@) || contains(stderr, "not found"@)
}

/// The outcome of stopping or disabling the service: a failure is
/// tolerated when the service is already gone, otherwise it is `failure`
/// followed by the standard error.
pub fn service_command_outcome(success: bool, stderr: &str, failure: &str) -> (r: Result<(), String>)
    ensures
        r is Ok <==> (success || service_already_gone(stderr@)),
        r matches Err(e) ==> e@ == failure@ + stderr@,
{
    if success {
        return Ok(());
    }
    let c = chars_of(stderr);
    if contains_str(&c, "not loaded") || contains_str(&c, "not found") {
        return Ok(());
    }
    Err(joined(failure, stderr))
}

} // verus!
