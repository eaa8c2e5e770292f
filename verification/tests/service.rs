//! The user service: its files, and the commands that manage it.

use pdrive_sync::interval::Interval;
use pdrive_sync::service::{
    check_health, dinit_service, failure_probe, init_system_name, install_service, openrc_service,
    resolve_init, restart_service, service_status, systemd_units, timer_probe, uninstall_service,
    InitSystem, Invocation, Resolution, ServiceStep,
};

const HOUR: Interval = Interval {
    seconds: 3600,
    nanos: 0,
};

fn command(invocation: &Invocation) -> String {
    format!("{} {}", invocation.program, invocation.arguments.join(" "))
}

fn shown(steps: &[ServiceStep]) -> Vec<String> {
    steps
        .iter()
        .map(|step| match step {
            ServiceStep::Write { path, .. } => format!("write {path}"),
            ServiceStep::MakeExecutable { path } => format!("executable {path}"),
            ServiceStep::Remove { path } => format!("remove {path}"),
            ServiceStep::Run(invocation) => format!("run {}", command(invocation)),
            ServiceStep::Try(invocation) => format!("try {}", command(invocation)),
        })
        .collect()
}

#[test]
fn generated_service_files_use_the_public_service_name() {
    let binary = "/home/user name/.local/bin/pdrive-sync-rs";
    let config = "/home/user name/.config/pdrive-sync/config.toml";
    let (systemd_service, systemd_timer) = systemd_units(binary, config, HOUR);
    let dinit = dinit_service(binary, config, HOUR);
    let openrc = openrc_service(binary, config, HOUR);

    assert!(systemd_service.contains("pdrive-sync-rs"));
    assert!(systemd_service.contains("\"/home/user name/.local/bin/pdrive-sync-rs\""));
    assert!(systemd_service.contains("%h/.local/bin"));
    assert!(systemd_timer.contains("OnUnitInactiveSec=3600s"));
    assert!(systemd_service.contains("MemoryHigh=512M"));
    assert!(dinit.contains("\"/home/user name/.local/bin/pdrive-sync-rs\""));
    assert!(dinit.contains("daemon"));
    assert!(openrc.contains("supervisor=supervise-daemon"));
    assert!(openrc.contains("pdrive-sync-rs"));
}

#[test]
fn service_files_are_written_to_the_letter() {
    let (service, timer) = systemd_units("/bin/p", "/c", HOUR);
    assert_eq!(
        service,
        "[Unit]\nDescription=Sync configured folders with Proton Drive\nAfter=network-online.target\nWants=network-online.target\n\n[Service]\nType=oneshot\nEnvironment=PATH=%h/.local/bin:%h/.cargo/bin:/home/linuxbrew/.linuxbrew/bin:/usr/local/bin:/usr/bin:/bin\nEnvironment=PROTON_DRIVE_LOG_LEVEL=WARNING\nExecStart=\"/bin/p\" --config \"/c\" sync\nNice=10\nCPUWeight=25\nIOWeight=25\nMemoryHigh=512M\n"
    );
    assert_eq!(
        timer,
        "[Unit]\nDescription=Run pdrive-sync\n\n[Timer]\nOnBootSec=5min\nOnUnitInactiveSec=3600s\nPersistent=true\n\n[Install]\nWantedBy=timers.target\n"
    );
    let interval = Interval {
        seconds: 5400,
        nanos: 0,
    };
    assert_eq!(
        dinit_service("/bin/p", "/c", interval),
        "type = process\ncommand = \"/bin/p\" \"--config\" \"/c\" \"daemon\" \"--interval\" \"1h 30m\"\nrestart = true\nsmooth-recovery = true\n"
    );
    assert_eq!(
        openrc_service("/bin/p", "/c", HOUR),
        "#!/sbin/openrc-run\ndescription=\"Sync configured folders with Proton Drive\"\nsupervisor=supervise-daemon\ncommand=''\"'\"'/bin/p'\"'\"''\ncommand_args='--config '\"'\"'/c'\"'\"' daemon --interval '\"'\"'1h'\"'\"''\nrespawn_delay=5\n"
    );
}

#[test]
fn the_service_manager_is_found_by_asking() {
    assert!(matches!(
        resolve_init(InitSystem::Dinit, &Vec::new()).unwrap(),
        Resolution::Found(InitSystem::Dinit)
    ));
    let probe = |answers: Vec<bool>| match resolve_init(InitSystem::Auto, &answers).unwrap() {
        Resolution::Probe(invocation) => command(&invocation),
        Resolution::Found(init) => init_system_name(init),
    };
    assert_eq!(probe(vec![]), "systemctl --user show-environment");
    assert_eq!(probe(vec![true]), "systemd");
    assert_eq!(probe(vec![false]), "dinitctl --user list");
    assert_eq!(probe(vec![false, true]), "dinit");
    assert_eq!(probe(vec![false, false]), "rc-status --user");
    assert_eq!(probe(vec![false, false, true]), "OpenRC");
    assert_eq!(
        resolve_init(InitSystem::Auto, &vec![false, false, false])
            .err()
            .unwrap()
            .message(),
        "no running systemd, dinit, or OpenRC user service manager was detected"
    );
    assert_eq!(init_system_name(InitSystem::Auto), "automatic detection");
}

#[test]
fn installing_writes_then_starts() {
    assert_eq!(
        shown(&install_service(InitSystem::Systemd, "/cfg", "/bin/p", "/c", HOUR)),
        vec![
            "write /cfg/systemd/user/pdrive-sync.service",
            "write /cfg/systemd/user/pdrive-sync.timer",
            "run systemctl --user daemon-reload",
            "run systemctl --user enable --now pdrive-sync.timer",
        ]
    );
    assert_eq!(
        shown(&install_service(InitSystem::Dinit, "/cfg", "/bin/p", "/c", HOUR)),
        vec![
            "write /cfg/dinit.d/pdrive-sync",
            "run dinitctl --user enable pdrive-sync",
            "run dinitctl --user start pdrive-sync",
        ]
    );
    assert_eq!(
        shown(&install_service(InitSystem::Openrc, "/cfg", "/bin/p", "/c", HOUR)),
        vec![
            "write /cfg/rc/init.d/pdrive-sync",
            "executable /cfg/rc/init.d/pdrive-sync",
            "run rc-update --user add pdrive-sync default",
            "run rc-service --user pdrive-sync start",
        ]
    );
}

#[test]
fn uninstalling_stops_then_removes() {
    assert_eq!(
        shown(&uninstall_service(InitSystem::Systemd, "/cfg")),
        vec![
            "try systemctl --user disable --now pdrive-sync.timer pdrive-sync.service",
            "remove /cfg/systemd/user/pdrive-sync.service",
            "remove /cfg/systemd/user/pdrive-sync.timer",
            "run systemctl --user daemon-reload",
        ]
    );
    assert_eq!(
        shown(&uninstall_service(InitSystem::Dinit, "/cfg")),
        vec![
            "try dinitctl --user stop pdrive-sync",
            "try dinitctl --user disable pdrive-sync",
            "remove /cfg/dinit.d/pdrive-sync",
        ]
    );
    assert_eq!(
        shown(&uninstall_service(InitSystem::Openrc, "/cfg")),
        vec![
            "try rc-service --user pdrive-sync stop",
            "try rc-update --user delete pdrive-sync default",
            "remove /cfg/rc/init.d/pdrive-sync",
        ]
    );
}

#[test]
fn health_is_what_the_manager_reports() {
    assert_eq!(
        command(&service_status(InitSystem::Systemd)),
        "systemctl --user status pdrive-sync.service pdrive-sync.timer --no-pager"
    );
    assert_eq!(
        command(&service_status(InitSystem::Dinit)),
        "dinitctl --user status pdrive-sync"
    );
    assert_eq!(
        command(&service_status(InitSystem::Openrc)),
        "rc-service --user pdrive-sync status"
    );
    assert_eq!(
        command(&timer_probe()),
        "systemctl --user is-active --quiet pdrive-sync.timer"
    );
    assert_eq!(
        command(&failure_probe()),
        "systemctl --user is-failed --quiet pdrive-sync.service"
    );
    assert!(check_health(InitSystem::Systemd, false, true, false).is_ok());
    assert_eq!(
        check_health(InitSystem::Systemd, true, true, true)
            .unwrap_err()
            .message(),
        "systemd reported an inactive or failed service"
    );
    assert!(check_health(InitSystem::Systemd, true, false, false).is_err());
    assert!(check_health(InitSystem::Dinit, true, false, true).is_ok());
    assert_eq!(
        check_health(InitSystem::Openrc, false, true, false)
            .unwrap_err()
            .message(),
        "OpenRC reported an inactive or failed service"
    );
}

#[test]
fn each_manager_restarts_the_service() {
    assert_eq!(
        command(&restart_service(InitSystem::Systemd)),
        "systemctl --user restart pdrive-sync.service"
    );
    assert_eq!(
        command(&restart_service(InitSystem::Dinit)),
        "dinitctl --user restart pdrive-sync"
    );
    assert_eq!(
        command(&restart_service(InitSystem::Openrc)),
        "rc-service --user pdrive-sync restart"
    );
}
