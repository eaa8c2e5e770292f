//! Running as a user service: what is written, what is run, and when the service is healthy.

use crate::error::{outcome, Fault, SyncError};
use crate::interval::{format_duration, formatted_duration, Interval};
use crate::places::{join_path, path_joined};
use crate::quoting::{all_quoted, quote_all, shell_quote, shell_quoted, systemd_quote, unit_quoted};
use crate::text::{concat3, decimal, decimal_text, joined, views, views_push};
use vstd::prelude::*;

verus! {

/// A service manager.
#[derive(Clone, Copy, Debug, PartialEq, Eq, Structural)]
pub enum InitSystem {
    /// Whichever is running.
    Auto,
    Systemd,
    Dinit,
    Openrc,
}

impl Default for InitSystem {
    fn default() -> (r: Self)
        ensures
            r == InitSystem::Auto,
    {
        InitSystem::Auto
    }
}

/// How a service manager is called.
pub open spec fn manager_name(init: InitSystem) -> Seq<char> {
    match init {
        InitSystem::Auto => "automatic detection"@,
        InitSystem::Systemd => "systemd"@,
        InitSystem::Dinit => "dinit"@,
        InitSystem::Openrc => "OpenRC"@,
    }
}

/// How a service manager is called.
pub fn init_system_name(init: InitSystem) -> (r: String)
    ensures
        r@ == manager_name(init),
{
    match init {
        InitSystem::Auto => "automatic detection".to_owned(),
        InitSystem::Systemd => "systemd".to_owned(),
        InitSystem::Dinit => "dinit".to_owned(),
        InitSystem::Openrc => "OpenRC".to_owned(),
    }
}

/// A program and its arguments.
#[derive(Debug)]
pub struct Invocation {
    pub program: String,
    pub arguments: Vec<String>,
}

/// The view of a program and its arguments.
#[verifier::ext_equal]
pub struct InvocationView {
    pub program: Seq<char>,
    pub arguments: Seq<Seq<char>>,
}

impl View for Invocation {
    type V = InvocationView;

    open spec fn view(&self) -> InvocationView {
        InvocationView { program: self.program@, arguments: views(self.arguments@) }
    }
}

fn invocation(program: &str, texts: &[&str]) -> (r: Invocation)
    ensures
        r@.program == program@,
        r@.arguments.len() == texts@.len(),
        forall|i: int| 0 <= i < texts@.len() ==> #[trigger] r@.arguments[i] == texts@[i]@,
{
    let mut arguments: Vec<String> = Vec::new();
    let mut i: usize = 0;
    while i < texts.len()
        invariant
            i <= texts.len(),
            arguments@.len() == i,
            forall|k: int| 0 <= k < i ==> #[trigger] views(arguments@)[k] == texts@[k]@,
        decreases texts.len() - i,
    {
        let word = texts[i].to_owned();
        proof {
            views_push(arguments@, word);
        }
        arguments.push(word);
        i += 1;
    }
    Invocation { program: program.to_owned(), arguments }
}

/// How it is found out whether a service manager is running.
pub open spec fn probe_for(init: InitSystem) -> InvocationView {
    match init {
        InitSystem::Dinit => InvocationView {
            program: "dinitctl"@,
            arguments: seq!["--user"@, "list"@],
        },
        InitSystem::Openrc => InvocationView {
            program: "rc-status"@,
            arguments: seq!["--user"@],
        },
        _ => InvocationView {
            program: "systemctl"@,
            arguments: seq!["--user"@, "show-environment"@],
        },
    }
}

/// What is to be done to find the service manager.
#[derive(Debug)]
pub enum Resolution {
    /// Nothing more: it is found.
    Found(InitSystem),
    /// Run a program and see whether it succeeds.
    Probe(Invocation),
}

/// The view of what is to be done.
#[verifier::ext_equal]
pub enum ResolutionView {
    Found(InitSystem),
    Probe(InvocationView),
}

impl View for Resolution {
    type V = ResolutionView;

    open spec fn view(&self) -> ResolutionView {
        match *self {
            Resolution::Found(init) => ResolutionView::Found(init),
            Resolution::Probe(invocation) => ResolutionView::Probe(invocation@),
        }
    }
}

/// The service managers in the order in which they are looked for.
pub open spec fn candidates() -> Seq<InitSystem> {
    seq![InitSystem::Systemd, InitSystem::Dinit, InitSystem::Openrc]
}

/// What is to be done to find the service manager, after some probes were answered. One that is
/// asked for is taken; else the candidates are probed in order until one answers.
pub open spec fn resolution(requested: InitSystem, answers: Seq<bool>) -> Result<
    ResolutionView,
    Fault<Seq<char>>,
> {
    if requested != InitSystem::Auto {
        Ok(ResolutionView::Found(requested))
    } else if answers.len() > 0 && answers[0] {
        Ok(ResolutionView::Found(candidates()[0]))
    } else if answers.len() > 1 && answers[1] {
        Ok(ResolutionView::Found(candidates()[1]))
    } else if answers.len() > 2 && answers[2] {
        Ok(ResolutionView::Found(candidates()[2]))
    } else if answers.len() < 3 {
        Ok(ResolutionView::Probe(probe_for(candidates()[answers.len() as int])))
    } else {
        Err(Fault::NoServiceManager)
    }
}

fn probe(init: InitSystem) -> (r: Invocation)
    ensures
        r@ == probe_for(init),
{
    let r = match init {
        InitSystem::Dinit => invocation("dinitctl", &["--user", "list"]),
        InitSystem::Openrc => invocation("rc-status", &["--user"]),
        _ => invocation("systemctl", &["--user", "show-environment"]),
    };
    assert(r@ =~= probe_for(init));
    r
}

/// Finds the service manager: takes the answers of the probes so far.
pub fn resolve_init(requested: InitSystem, answers: &Vec<bool>) -> (r: Result<
    Resolution,
    SyncError,
>)
    ensures
        outcome(r) == resolution(requested, answers@),
{
    if !matches!(requested, InitSystem::Auto) {
        return Ok(Resolution::Found(requested));
    }
    if answers.len() > 0 && answers[0] {
        return Ok(Resolution::Found(InitSystem::Systemd));
    }
    if answers.len() > 1 && answers[1] {
        return Ok(Resolution::Found(InitSystem::Dinit));
    }
    if answers.len() > 2 && answers[2] {
        return Ok(Resolution::Found(InitSystem::Openrc));
    }
    if answers.len() == 0 {
        Ok(Resolution::Probe(probe(InitSystem::Systemd)))
    } else if answers.len() == 1 {
        Ok(Resolution::Probe(probe(InitSystem::Dinit)))
    } else if answers.len() == 2 {
        Ok(Resolution::Probe(probe(InitSystem::Openrc)))
    } else {
        Err(Fault::NoServiceManager)
    }
}

/// The first part of the systemd service file, up to the command.
pub open spec fn unit_head() -> Seq<char> {
    "[Unit]\nDescription=Sync configured folders with Proton Drive\nAfter=network-online.target\nWants=network-online.target\n\n[Service]\nType=oneshot\nEnvironment=PATH=%h/.local/bin:%h/.cargo/bin:/home/linuxbrew/.linuxbrew/bin:/usr/local/bin:/usr/bin:/bin\nEnvironment=PROTON_DRIVE_LOG_LEVEL=WARNING\nExecStart="@
}

/// The systemd service file.
pub open spec fn unit_text(binary: Seq<char>, config: Seq<char>) -> Seq<char> {
    unit_head() + unit_quoted(binary) + " --config "@ + unit_quoted(config)
        + " sync\nNice=10\nCPUWeight=25\nIOWeight=25\nMemoryHigh=512M\n"@
}

/// The systemd timer file.
pub open spec fn timer_text(interval: Interval) -> Seq<char> {
    "[Unit]\nDescription=Run pdrive-sync\n\n[Timer]\nOnBootSec=5min\nOnUnitInactiveSec="@ + decimal(
        interval.seconds as nat,
    ) + "s\nPersistent=true\n\n[Install]\nWantedBy=timers.target\n"@
}

/// The service file and the timer file of systemd.
pub fn systemd_units(binary: &str, config: &str, interval: Interval) -> (r: (String, String))
    ensures
        r.0@ == unit_text(binary@, config@),
        r.1@ == timer_text(interval),
{
    let mut service = "[Unit]\nDescription=Sync configured folders with Proton Drive\nAfter=network-online.target\nWants=network-online.target\n\n[Service]\nType=oneshot\nEnvironment=PATH=%h/.local/bin:%h/.cargo/bin:/home/linuxbrew/.linuxbrew/bin:/usr/local/bin:/usr/bin:/bin\nEnvironment=PROTON_DRIVE_LOG_LEVEL=WARNING\nExecStart=".to_owned();
    service.append(systemd_quote(binary).as_str());
    service.append(" --config ");
    service.append(systemd_quote(config).as_str());
    service.append(" sync\nNice=10\nCPUWeight=25\nIOWeight=25\nMemoryHigh=512M\n");
    let mut timer = "[Unit]\nDescription=Run pdrive-sync\n\n[Timer]\nOnBootSec=5min\nOnUnitInactiveSec=".to_owned();
    timer.append(decimal_text(interval.seconds).as_str());
    timer.append("s\nPersistent=true\n\n[Install]\nWantedBy=timers.target\n");
    (service, timer)
}

/// The command of a service that loops by itself.
pub open spec fn daemon_words(
    binary: Seq<char>,
    config: Seq<char>,
    interval: Interval,
) -> Seq<Seq<char>> {
    seq![
        binary,
        "--config"@,
        config,
        "daemon"@,
        "--interval"@,
        formatted_duration(interval.seconds, interval.nanos),
    ]
}

/// The dinit service file.
pub open spec fn dinit_text(binary: Seq<char>, config: Seq<char>, interval: Interval) -> Seq<
    char,
> {
    "type = process\ncommand = "@ + joined(
        all_quoted(daemon_words(binary, config, interval)),
        " "@,
    ) + "\nrestart = true\nsmooth-recovery = true\n"@
}

/// The dinit service file.
pub fn dinit_service(binary: &str, config: &str, interval: Interval) -> (r: String)
    requires
        interval.well_formed(),
    ensures
        r@ == dinit_text(binary@, config@, interval),
{
    let length = format_duration(interval);
    let command = invocation(
        binary,
        &[binary, "--config", config, "daemon", "--interval", length.as_str()],
    );
    assert(command@.arguments =~= daemon_words(binary@, config@, interval));
    let line = quote_all(&command.arguments);
    concat3(
        "type = process\ncommand = ",
        line.as_str(),
        "\nrestart = true\nsmooth-recovery = true\n",
    )
}

/// The arguments in the OpenRC service file.
pub open spec fn openrc_arguments(config: Seq<char>, interval: Interval) -> Seq<char> {
    "--config "@ + shell_quoted(config) + " daemon --interval "@ + shell_quoted(
        formatted_duration(interval.seconds, interval.nanos),
    )
}

/// The OpenRC service file. Its words are quoted twice: once for the file, and once for the
/// command line that is made of them.
pub open spec fn openrc_text(binary: Seq<char>, config: Seq<char>, interval: Interval) -> Seq<
    char,
> {
    "#!/sbin/openrc-run\ndescription=\"Sync configured folders with Proton Drive\"\nsupervisor=supervise-daemon\ncommand="@
        + shell_quoted(shell_quoted(binary)) + "\ncommand_args="@ + shell_quoted(
        openrc_arguments(config, interval),
    ) + "\nrespawn_delay=5\n"@
}

/// The OpenRC service file.
pub fn openrc_service(binary: &str, config: &str, interval: Interval) -> (r: String)
    requires
        interval.well_formed(),
    ensures
        r@ == openrc_text(binary@, config@, interval),
{
    let mut arguments = "--config ".to_owned();
    arguments.append(shell_quote(config).as_str());
    arguments.append(" daemon --interval ");
    arguments.append(shell_quote(format_duration(interval).as_str()).as_str());
    let mut text = "#!/sbin/openrc-run\ndescription=\"Sync configured folders with Proton Drive\"\nsupervisor=supervise-daemon\ncommand=".to_owned();
    text.append(shell_quote(shell_quote(binary).as_str()).as_str());
    text.append("\ncommand_args=");
    text.append(shell_quote(arguments.as_str()).as_str());
    text.append("\nrespawn_delay=5\n");
    text
}

/// One step of installing, removing or restarting the service.
#[derive(Debug)]
pub enum ServiceStep {
    /// Put a file in place, all at once.
    Write { path: String, contents: String },
    /// Let a file be run.
    MakeExecutable { path: String },
    /// Remove a file if it is there.
    Remove { path: String },
    /// Run a program, which must succeed.
    Run(Invocation),
    /// Run a program, whatever comes of it.
    Try(Invocation),
}

/// The view of a step.
#[verifier::ext_equal]
pub enum ServiceStepView {
    Write { path: Seq<char>, contents: Seq<char> },
    MakeExecutable { path: Seq<char> },
    Remove { path: Seq<char> },
    Run(InvocationView),
    Try(InvocationView),
}

impl View for ServiceStep {
    type V = ServiceStepView;

    open spec fn view(&self) -> ServiceStepView {
        match *self {
            ServiceStep::Write { path, contents } => ServiceStepView::Write {
                path: path@,
                contents: contents@,
            },
            ServiceStep::MakeExecutable { path } => ServiceStepView::MakeExecutable { path: path@ },
            ServiceStep::Remove { path } => ServiceStepView::Remove { path: path@ },
            ServiceStep::Run(invocation) => ServiceStepView::Run(invocation@),
            ServiceStep::Try(invocation) => ServiceStepView::Try(invocation@),
        }
    }
}

/// A call of `systemctl`.
pub open spec fn systemctl(arguments: Seq<Seq<char>>) -> InvocationView {
    InvocationView { program: "systemctl"@, arguments }
}

/// A call of `dinitctl`.
pub open spec fn dinitctl(arguments: Seq<Seq<char>>) -> InvocationView {
    InvocationView { program: "dinitctl"@, arguments }
}

/// A call of `rc-service`.
pub open spec fn rc_service(arguments: Seq<Seq<char>>) -> InvocationView {
    InvocationView { program: "rc-service"@, arguments }
}

/// A call of `rc-update`.
pub open spec fn rc_update(arguments: Seq<Seq<char>>) -> InvocationView {
    InvocationView { program: "rc-update"@, arguments }
}

/// The place of the systemd service file.
pub open spec fn unit_path(config_dir: Seq<char>) -> Seq<char> {
    path_joined(config_dir, "systemd/user/pdrive-sync.service"@)
}

/// The place of the systemd timer file.
pub open spec fn timer_path(config_dir: Seq<char>) -> Seq<char> {
    path_joined(config_dir, "systemd/user/pdrive-sync.timer"@)
}

/// The place of the dinit service file.
pub open spec fn dinit_path(config_dir: Seq<char>) -> Seq<char> {
    path_joined(config_dir, "dinit.d/pdrive-sync"@)
}

/// The place of the OpenRC service file.
pub open spec fn openrc_path(config_dir: Seq<char>) -> Seq<char> {
    path_joined(config_dir, "rc/init.d/pdrive-sync"@)
}

/// The steps that install the service with systemd: a oneshot service and a timer.
pub open spec fn systemd_installation(
    config_dir: Seq<char>,
    binary: Seq<char>,
    config: Seq<char>,
    interval: Interval,
) -> Seq<ServiceStepView> {
    seq![
        ServiceStepView::Write {
            path: unit_path(config_dir),
            contents: unit_text(binary, config),
        },
        ServiceStepView::Write {
            path: timer_path(config_dir),
            contents: timer_text(interval),
        },
        ServiceStepView::Run(systemctl(seq!["--user"@, "daemon-reload"@])),
        ServiceStepView::Run(
            systemctl(seq!["--user"@, "enable"@, "--now"@, "pdrive-sync.timer"@]),
        ),
    ]
}

/// The steps that install the service with systemd.
pub fn install_systemd(config_dir: &str, binary: &str, config: &str, interval: Interval) -> (r: Vec<
    ServiceStep,
>)
    ensures
        views(r@) == systemd_installation(config_dir@, binary@, config@, interval),
{
    let (service, timer) = systemd_units(binary, config, interval);
    let mut steps: Vec<ServiceStep> = Vec::new();
    steps.push(
        ServiceStep::Write {
            path: join_path(config_dir, "systemd/user/pdrive-sync.service"),
            contents: service,
        },
    );
    steps.push(
        ServiceStep::Write {
            path: join_path(config_dir, "systemd/user/pdrive-sync.timer"),
            contents: timer,
        },
    );
    let reload = invocation("systemctl", &["--user", "daemon-reload"]);
    assert(reload@ =~= systemctl(seq!["--user"@, "daemon-reload"@]));
    steps.push(ServiceStep::Run(reload));
    let enable = invocation("systemctl", &["--user", "enable", "--now", "pdrive-sync.timer"]);
    assert(enable@ =~= systemctl(seq!["--user"@, "enable"@, "--now"@, "pdrive-sync.timer"@]));
    steps.push(ServiceStep::Run(enable));
    assert(views(steps@) =~= systemd_installation(config_dir@, binary@, config@, interval));
    steps
}

/// The steps that install the service with dinit: a process that loops by itself.
pub open spec fn dinit_installation(
    config_dir: Seq<char>,
    binary: Seq<char>,
    config: Seq<char>,
    interval: Interval,
) -> Seq<ServiceStepView> {
    seq![
        ServiceStepView::Write {
            path: dinit_path(config_dir),
            contents: dinit_text(binary, config, interval),
        },
        ServiceStepView::Run(dinitctl(seq!["--user"@, "enable"@, "pdrive-sync"@])),
        ServiceStepView::Run(dinitctl(seq!["--user"@, "start"@, "pdrive-sync"@])),
    ]
}

/// The steps that install the service with dinit.
pub fn install_dinit(config_dir: &str, binary: &str, config: &str, interval: Interval) -> (r: Vec<
    ServiceStep,
>)
    requires
        interval.well_formed(),
    ensures
        views(r@) == dinit_installation(config_dir@, binary@, config@, interval),
{
    let mut steps: Vec<ServiceStep> = Vec::new();
    steps.push(
        ServiceStep::Write {
            path: join_path(config_dir, "dinit.d/pdrive-sync"),
            contents: dinit_service(binary, config, interval),
        },
    );
    let enable = invocation("dinitctl", &["--user", "enable", "pdrive-sync"]);
    assert(enable@ =~= dinitctl(seq!["--user"@, "enable"@, "pdrive-sync"@]));
    steps.push(ServiceStep::Run(enable));
    let start = invocation("dinitctl", &["--user", "start", "pdrive-sync"]);
    assert(start@ =~= dinitctl(seq!["--user"@, "start"@, "pdrive-sync"@]));
    steps.push(ServiceStep::Run(start));
    assert(views(steps@) =~= dinit_installation(config_dir@, binary@, config@, interval));
    steps
}

/// The steps that install the service with OpenRC: a process that loops by itself.
pub open spec fn openrc_installation(
    config_dir: Seq<char>,
    binary: Seq<char>,
    config: Seq<char>,
    interval: Interval,
) -> Seq<ServiceStepView> {
    seq![
        ServiceStepView::Write {
            path: openrc_path(config_dir),
            contents: openrc_text(binary, config, interval),
        },
        ServiceStepView::MakeExecutable { path: openrc_path(config_dir) },
        ServiceStepView::Run(rc_update(seq!["--user"@, "add"@, "pdrive-sync"@, "default"@])),
        ServiceStepView::Run(rc_service(seq!["--user"@, "pdrive-sync"@, "start"@])),
    ]
}

/// The steps that install the service with OpenRC.
pub fn install_openrc(config_dir: &str, binary: &str, config: &str, interval: Interval) -> (r: Vec<
    ServiceStep,
>)
    requires
        interval.well_formed(),
    ensures
        views(r@) == openrc_installation(config_dir@, binary@, config@, interval),
{
    let mut steps: Vec<ServiceStep> = Vec::new();
    let path = join_path(config_dir, "rc/init.d/pdrive-sync");
    steps.push(
        ServiceStep::Write {
            path: path.clone(),
            contents: openrc_service(binary, config, interval),
        },
    );
    steps.push(ServiceStep::MakeExecutable { path });
    let add = invocation("rc-update", &["--user", "add", "pdrive-sync", "default"]);
    assert(add@ =~= rc_update(seq!["--user"@, "add"@, "pdrive-sync"@, "default"@]));
    steps.push(ServiceStep::Run(add));
    let start = invocation("rc-service", &["--user", "pdrive-sync", "start"]);
    assert(start@ =~= rc_service(seq!["--user"@, "pdrive-sync"@, "start"@]));
    steps.push(ServiceStep::Run(start));
    assert(views(steps@) =~= openrc_installation(config_dir@, binary@, config@, interval));
    steps
}

/// The steps that install the service.
pub open spec fn installation(
    init: InitSystem,
    config_dir: Seq<char>,
    binary: Seq<char>,
    config: Seq<char>,
    interval: Interval,
) -> Seq<ServiceStepView> {
    match init {
        InitSystem::Dinit => dinit_installation(config_dir, binary, config, interval),
        InitSystem::Openrc => openrc_installation(config_dir, binary, config, interval),
        _ => systemd_installation(config_dir, binary, config, interval),
    }
}

/// The steps that install the service with a service manager that was found.
pub fn install_service(
    init: InitSystem,
    config_dir: &str,
    binary: &str,
    config: &str,
    interval: Interval,
) -> (r: Vec<ServiceStep>)
    requires
        init != InitSystem::Auto,
        interval.well_formed(),
    ensures
        views(r@) == installation(init, config_dir@, binary@, config@, interval),
{
    match init {
        InitSystem::Dinit => install_dinit(config_dir, binary, config, interval),
        InitSystem::Openrc => install_openrc(config_dir, binary, config, interval),
        _ => install_systemd(config_dir, binary, config, interval),
    }
}

/// The steps that stop and remove the service.
pub open spec fn removal_steps(init: InitSystem, config_dir: Seq<char>) -> Seq<ServiceStepView> {
    match init {
        InitSystem::Dinit => seq![
            ServiceStepView::Try(dinitctl(seq!["--user"@, "stop"@, "pdrive-sync"@])),
            ServiceStepView::Try(dinitctl(seq!["--user"@, "disable"@, "pdrive-sync"@])),
            ServiceStepView::Remove { path: dinit_path(config_dir) },
        ],
        InitSystem::Openrc => seq![
            ServiceStepView::Try(rc_service(seq!["--user"@, "pdrive-sync"@, "stop"@])),
            ServiceStepView::Try(
                rc_update(seq!["--user"@, "delete"@, "pdrive-sync"@, "default"@]),
            ),
            ServiceStepView::Remove { path: openrc_path(config_dir) },
        ],
        _ => seq![
            ServiceStepView::Try(
                systemctl(
                    seq![
                        "--user"@,
                        "disable"@,
                        "--now"@,
                        "pdrive-sync.timer"@,
                        "pdrive-sync.service"@,
                    ],
                ),
            ),
            ServiceStepView::Remove { path: unit_path(config_dir) },
            ServiceStepView::Remove { path: timer_path(config_dir) },
            ServiceStepView::Run(systemctl(seq!["--user"@, "daemon-reload"@])),
        ],
    }
}

/// The steps that stop and remove the service. Configuration and state are left.
pub fn uninstall_service(init: InitSystem, config_dir: &str) -> (r: Vec<ServiceStep>)
    requires
        init != InitSystem::Auto,
    ensures
        views(r@) == removal_steps(init, config_dir@),
{
    let mut steps: Vec<ServiceStep> = Vec::new();
    match init {
        InitSystem::Dinit => {
            let stop = invocation("dinitctl", &["--user", "stop", "pdrive-sync"]);
            assert(stop@ =~= dinitctl(seq!["--user"@, "stop"@, "pdrive-sync"@]));
            let disable = invocation("dinitctl", &["--user", "disable", "pdrive-sync"]);
            assert(disable@ =~= dinitctl(seq!["--user"@, "disable"@, "pdrive-sync"@]));
            steps.push(ServiceStep::Try(stop));
            steps.push(ServiceStep::Try(disable));
            steps.push(ServiceStep::Remove { path: join_path(config_dir, "dinit.d/pdrive-sync") });
        },
        InitSystem::Openrc => {
            let stop = invocation("rc-service", &["--user", "pdrive-sync", "stop"]);
            assert(stop@ =~= rc_service(seq!["--user"@, "pdrive-sync"@, "stop"@]));
            let delete = invocation("rc-update", &["--user", "delete", "pdrive-sync", "default"]);
            assert(delete@ =~= rc_update(seq!["--user"@, "delete"@, "pdrive-sync"@, "default"@]));
            steps.push(ServiceStep::Try(stop));
            steps.push(ServiceStep::Try(delete));
            steps.push(
                ServiceStep::Remove { path: join_path(config_dir, "rc/init.d/pdrive-sync") },
            );
        },
        _ => {
            let disable = invocation(
                "systemctl",
                &["--user", "disable", "--now", "pdrive-sync.timer", "pdrive-sync.service"],
            );
            assert(disable@ =~= systemctl(
                seq![
                    "--user"@,
                    "disable"@,
                    "--now"@,
                    "pdrive-sync.timer"@,
                    "pdrive-sync.service"@,
                ],
            ));
            let reload = invocation("systemctl", &["--user", "daemon-reload"]);
            assert(reload@ =~= systemctl(seq!["--user"@, "daemon-reload"@]));
            steps.push(ServiceStep::Try(disable));
            steps.push(
                ServiceStep::Remove {
                    path: join_path(config_dir, "systemd/user/pdrive-sync.service"),
                },
            );
            steps.push(
                ServiceStep::Remove {
                    path: join_path(config_dir, "systemd/user/pdrive-sync.timer"),
                },
            );
            steps.push(ServiceStep::Run(reload));
        },
    }
    assert(views(steps@) =~= removal_steps(init, config_dir@));
    steps
}

/// How the service is restarted.
pub open spec fn restart_command(init: InitSystem) -> InvocationView {
    match init {
        InitSystem::Dinit => dinitctl(seq!["--user"@, "restart"@, "pdrive-sync"@]),
        InitSystem::Openrc => rc_service(seq!["--user"@, "pdrive-sync"@, "restart"@]),
        _ => systemctl(seq!["--user"@, "restart"@, "pdrive-sync.service"@]),
    }
}

/// How the service is restarted.
pub fn restart_service(init: InitSystem) -> (r: Invocation)
    requires
        init != InitSystem::Auto,
    ensures
        r@ == restart_command(init),
{
    let r = match init {
        InitSystem::Dinit => invocation("dinitctl", &["--user", "restart", "pdrive-sync"]),
        InitSystem::Openrc => invocation("rc-service", &["--user", "pdrive-sync", "restart"]),
        _ => invocation("systemctl", &["--user", "restart", "pdrive-sync.service"]),
    };
    assert(r@ =~= restart_command(init));
    r
}

/// How the state of the service is shown.
pub open spec fn status_command(init: InitSystem) -> InvocationView {
    match init {
        InitSystem::Dinit => dinitctl(seq!["--user"@, "status"@, "pdrive-sync"@]),
        InitSystem::Openrc => rc_service(seq!["--user"@, "pdrive-sync"@, "status"@]),
        _ => systemctl(
            seq![
                "--user"@,
                "status"@,
                "pdrive-sync.service"@,
                "pdrive-sync.timer"@,
                "--no-pager"@,
            ],
        ),
    }
}

/// How the state of the service is shown.
pub fn service_status(init: InitSystem) -> (r: Invocation)
    requires
        init != InitSystem::Auto,
    ensures
        r@ == status_command(init),
{
    let r = match init {
        InitSystem::Dinit => invocation("dinitctl", &["--user", "status", "pdrive-sync"]),
        InitSystem::Openrc => invocation("rc-service", &["--user", "pdrive-sync", "status"]),
        _ => invocation(
            "systemctl",
            &["--user", "status", "pdrive-sync.service", "pdrive-sync.timer", "--no-pager"],
        ),
    };
    assert(r@ =~= status_command(init));
    r
}

/// How it is found out whether the systemd timer is active.
pub fn timer_probe() -> (r: Invocation)
    ensures
        r@ == systemctl(seq!["--user"@, "is-active"@, "--quiet"@, "pdrive-sync.timer"@]),
{
    let r = invocation("systemctl", &["--user", "is-active", "--quiet", "pdrive-sync.timer"]);
    assert(r@ =~= systemctl(seq!["--user"@, "is-active"@, "--quiet"@, "pdrive-sync.timer"@]));
    r
}

/// How it is found out whether the systemd service failed.
pub fn failure_probe() -> (r: Invocation)
    ensures
        r@ == systemctl(seq!["--user"@, "is-failed"@, "--quiet"@, "pdrive-sync.service"@]),
{
    let r = invocation("systemctl", &["--user", "is-failed", "--quiet", "pdrive-sync.service"]);
    assert(r@ =~= systemctl(seq!["--user"@, "is-failed"@, "--quiet"@, "pdrive-sync.service"@]));
    r
}

/// Whether the service is healthy: with systemd, that its timer is active and its last run did not
/// fail; else, that the manager reports it well.
pub open spec fn healthy(
    init: InitSystem,
    reported_well: bool,
    timer_active: bool,
    service_failed: bool,
) -> bool {
    if init == InitSystem::Systemd {
        timer_active && !service_failed
    } else {
        reported_well
    }
}

/// Checks that the service is healthy.
pub fn check_health(
    init: InitSystem,
    reported_well: bool,
    timer_active: bool,
    service_failed: bool,
) -> (r: Result<(), SyncError>)
    ensures
        r is Ok <==> healthy(init, reported_well, timer_active, service_failed),
        r matches Err(error) ==> error@ == (Fault::<Seq<char>>::Unhealthy {
            manager: manager_name(init),
        }),
{
    let well = if matches!(init, InitSystem::Systemd) {
        timer_active && !service_failed
    } else {
        reported_well
    };
    if well {
        Ok(())
    } else {
        Err(Fault::Unhealthy { manager: init_system_name(init) })
    }
}

/// What is installed is what is removed: every file that installing writes, uninstalling removes.
pub proof fn uninstalling_removes_what_was_installed(
    init: InitSystem,
    config_dir: Seq<char>,
    binary: Seq<char>,
    config: Seq<char>,
    interval: Interval,
    i: int,
)
    requires
        0 <= i < installation(init, config_dir, binary, config, interval).len(),
        installation(init, config_dir, binary, config, interval)[i] is Write,
    ensures
        removal_steps(init, config_dir).contains(
            ServiceStepView::Remove {
                path: installation(init, config_dir, binary, config, interval)[i]->Write_path,
            },
        ),
{
    let steps = removal_steps(init, config_dir);
    match init {
        InitSystem::Dinit => {
            assert(steps[2] == ServiceStepView::Remove { path: dinit_path(config_dir) });
        },
        InitSystem::Openrc => {
            assert(steps[2] == ServiceStepView::Remove { path: openrc_path(config_dir) });
        },
        _ => {
            assert(steps[1] == ServiceStepView::Remove { path: unit_path(config_dir) });
            assert(steps[2] == ServiceStepView::Remove { path: timer_path(config_dir) });
        },
    }
}

} // verus!
