use marzban_node::config::Settings;
use marzban_node::runtime::{
    core_install_info, detect_sing_box_version, detect_xray_version, missing_core_info,
    page_size_bytes, process_rss_bytes, push_log, rss_pages, unix_timestamp, version_wait,
    CoreAction, CoreError, LogBuffer, Poll, VersionWait, XrayCore, CORE_VERSION_TIMEOUT,
};
use marzban_node::xray_config::{ApiSettings, CoreKind, XrayConfig};

const HY2: &str = r#"{"inbounds":[{"tag":"HY2","port":8443,"protocol":"hysteria","settings":{"version":2,"users":[{"auth":"secret"}]},"streamSettings":{"network":"hysteria"}}]}"#;
const HY2_VLESS: &str = r#"{"inbounds":[{"tag":"HY2","port":8443,"protocol":"hysteria","settings":{"version":2,"users":[{"auth":"secret"}]},"streamSettings":{"network":"hysteria"}},{"tag":"VLESS","protocol":"vless","port":443,"settings":{"clients":[{"id":"11111111-1111-1111-1111-111111111111"}]}}]}"#;
const VLESS: &str = r#"{"inbounds":[{"tag":"VLESS","protocol":"vless","port":443}]}"#;

fn api_settings() -> ApiSettings {
    ApiSettings {
        host: "127.0.0.1".to_owned(),
        port: 62051,
        ssl_cert_file: "/tmp/cert.pem".to_owned(),
        ssl_key_file: "/tmp/key.pem".to_owned(),
        peer_ip: "127.0.0.1".to_owned(),
        allowed_inbounds: vec![],
    }
}

fn settings(xray: &str, sing_box: &str) -> Settings {
    Settings {
        service_host: "127.0.0.1".to_owned(),
        service_port: 62050,
        xray_api_host: "127.0.0.1".to_owned(),
        xray_api_port: 62051,
        xray_executable_path: xray.to_owned(),
        xray_assets_path: "/root/assets".to_owned(),
        sing_box_executable_path: sing_box.to_owned(),
        ssl_cert_file: "/root/cert.pem".to_owned(),
        ssl_key_file: "/root/key.pem".to_owned(),
        ssl_client_cert_file: None,
        debug: false,
        inbounds: vec![],
    }
}

fn config(raw: &str) -> XrayConfig {
    XrayConfig::from_controller_json(raw, &api_settings()).unwrap()
}

/// Starts a core whose executables behave: returns the programs that were run.
fn start(core: &mut XrayCore, raw: &str, output: &[u8], pid: u32) -> Vec<String> {
    let mut programs = Vec::new();
    match core.start(&config(raw), Poll::Exited) {
        CoreAction::DetectVersion(_, command) => {
            assert_eq!(command.args, vec!["version"]);
            assert!(command.stdin.is_none());
            programs.push(command.program);
        }
        other => panic!("unexpected action: {:?}", other),
    }
    match core.version_output(Ok(output.to_vec())) {
        CoreAction::Spawn(command) => {
            assert!(command.stdin.is_some());
            programs.push(command.program);
        }
        other => panic!("unexpected action: {:?}", other),
    }
    match core.spawned(Ok(pid), Some(1_700_000_000)) {
        CoreAction::Done(Ok(())) => {}
        other => panic!("unexpected action: {:?}", other),
    }
    programs
}

#[test]
fn new_does_not_require_xray_executable() {
    let core = XrayCore::new(settings("missing-xray", "missing-sing-box"));

    assert!(core.is_ok());
}

#[test]
fn installed_cores_report_configured_binary_versions() {
    let xray = "/root/xray";
    let sing_box = "/root/sing-box";
    let mut core = XrayCore::new(settings(xray, sing_box)).unwrap();

    let installed = core.detected_cores(
        Some(detect_xray_version(Ok(b"Xray 26.6.27\n".to_vec()))),
        Some(detect_sing_box_version(Ok(
            b"sing-box version 1.13.0\n".to_vec()
        ))),
        0,
    );

    assert_eq!(installed.get("xray").unwrap().installed, true);
    assert_eq!(installed.get("xray").unwrap().version.as_deref(), Some("26.6.27"));
    assert_eq!(installed.get("xray").unwrap().path.as_deref(), Some(xray));
    assert_eq!(installed.get("sing-box").unwrap().installed, true);
    assert_eq!(
        installed.get("sing-box").unwrap().version.as_deref(),
        Some("1.13.0")
    );
    assert_eq!(installed.get("sing-box").unwrap().path.as_deref(), Some(sing_box));
    assert_eq!(installed.xray.source, "configured_path");
    assert!(installed.get("v2ray").is_none());
}

#[test]
fn installed_cores_report_missing_binaries() {
    let mut core = XrayCore::new(settings("missing-xray", "missing-sing-box")).unwrap();

    let missing = || Some(Err(CoreError::Io("No such file or directory".to_owned())));
    let installed = core.detected_cores(missing(), missing(), 0);

    assert_eq!(installed.xray.installed, false);
    assert_eq!(installed.xray.version, None);
    assert_eq!(installed.sing_box.installed, false);
    assert_eq!(installed.sing_box.version, None);
    assert_eq!(installed.xray.source, "configured_path:xray");
    assert_eq!(installed.sing_box.source, "configured_path:sing-box");
}

#[test]
fn installed_core_detection_times_out_slow_version_command() {
    let mut core = XrayCore::new(settings("/root/xray", "missing-sing-box")).unwrap();

    assert!(CORE_VERSION_TIMEOUT < 4_500_000_000);
    let error = match version_wait(CoreKind::Xray, Poll::Running, 3_000_000_000) {
        VersionWait::GiveUp(error) => error,
        other => panic!("unexpected step: {:?}", other),
    };
    assert_eq!(error.message(), "Xray version detection timed out");
    let installed = core.detected_cores(Some(detect_xray_version(Err(error))), None, 0);

    assert_eq!(installed.xray.installed, false);
    assert_eq!(installed.xray.version, None);
}

#[test]
fn hysteria2_only_starts_sing_box_without_xray() {
    let mut core = XrayCore::new(settings("missing-xray", "/root/sing-box")).unwrap();

    let programs = start(&mut core, HY2, b"sing-box version 1.13.0\n", 7);

    assert_eq!(programs, vec!["/root/sing-box", "/root/sing-box"]);
    assert!(core.is_started(Poll::Running));
    assert_eq!(core.core_kind(Poll::Running), Some("sing-box"));
    assert!(core.last_core_restart_at().is_some());
    assert_eq!(core.configured_inbound_ports()[0].tag, "HY2");
    assert_eq!(core.configured_inbound_ports()[0].port, 8443);
    assert_eq!(core.version(), "sing-box 1.13.0");
    core.stop();
}

#[test]
fn xray_only_starts_xray_without_sing_box() {
    let mut core = XrayCore::new(settings("/root/xray", "missing-sing-box")).unwrap();

    let programs = start(&mut core, VLESS, b"Xray 26.6.27\n", 7);

    assert_eq!(programs, vec!["/root/xray", "/root/xray"]);
    assert!(core.is_started(Poll::Running));
    assert_eq!(core.core_kind(Poll::Running), Some("xray"));
    core.stop();
}

#[test]
fn hy2_with_xray_protocols_starts_only_sing_box() {
    let mut core = XrayCore::new(settings("missing-xray", "/root/sing-box")).unwrap();

    let programs = start(&mut core, HY2_VLESS, b"sing-box version 1.13.0\n", 7);

    assert_eq!(programs, vec!["/root/sing-box", "/root/sing-box"]);
    assert!(core.is_started(Poll::Running));
    assert!(!core.xray_api_available(Poll::Running));
    assert_eq!(core.core_kind(Poll::Running), Some("sing-box"));
    core.stop();
}

#[test]
fn exited_core_reports_no_current_core() {
    let mut core = XrayCore::new(settings("/root/xray", "missing-sing-box")).unwrap();

    start(&mut core, VLESS, b"Xray 26.6.27\n", 7);

    assert!(!core.is_started(Poll::Exited));
    assert_eq!(core.core_kind(Poll::Running), None);
    core.stop();
}

#[test]
fn commands_of_the_cores() {
    let mut core = XrayCore::new(settings("/root/xray", "/root/sing-box")).unwrap();
    core.start(&config(VLESS), Poll::Exited);
    match core.version_output(Ok(b"Xray 1.0\n".to_vec())) {
        CoreAction::Spawn(command) => {
            assert_eq!(command.args, vec!["run", "-config", "stdin:"]);
            assert_eq!(
                command.envs,
                vec![("XRAY_LOCATION_ASSET".to_owned(), "/root/assets".to_owned())]
            );
            assert_eq!(command.stdin, Some(config(VLESS).to_json()));
        }
        other => panic!("unexpected action: {:?}", other),
    }
    let mut core = XrayCore::new(settings("/root/xray", "/root/sing-box")).unwrap();
    core.start(&config(HY2), Poll::Exited);
    match core.version_output(Ok(b"sing-box 1.2\n".to_vec())) {
        CoreAction::Spawn(command) => {
            assert_eq!(command.args, vec!["run", "-c", "/dev/stdin"]);
            assert!(command.envs.is_empty());
            assert_eq!(command.stdin, config(HY2).sing_box_json());
        }
        other => panic!("unexpected action: {:?}", other),
    }
}

#[test]
fn start_is_refused_while_running() {
    let mut core = XrayCore::new(settings("/root/xray", "/root/sing-box")).unwrap();
    start(&mut core, VLESS, b"Xray 1.0\n", 7);
    match core.start(&config(HY2), Poll::Running) {
        CoreAction::Done(Err(error)) => assert_eq!(error.message(), "Core is started already"),
        other => panic!("unexpected action: {:?}", other),
    }
    assert_eq!(core.child(), Some((CoreKind::Xray, 7)));
    assert!(matches!(
        core.start(&config(HY2), Poll::Failed),
        CoreAction::DetectVersion(CoreKind::SingBox, _)
    ));
}

#[test]
fn start_without_inbounds_needs_no_core() {
    let mut core = XrayCore::new(settings("/root/xray", "/root/sing-box")).unwrap();
    match core.start(&config("{}"), Poll::Exited) {
        CoreAction::Done(Err(error)) => assert_eq!(
            error.message(),
            "No core is required for the selected inbounds"
        ),
        other => panic!("unexpected action: {:?}", other),
    }
}

#[test]
fn failed_starts_run_nothing() {
    let mut core = XrayCore::new(settings("/root/xray", "/root/sing-box")).unwrap();
    core.start(&config(VLESS), Poll::Exited);
    match core.version_output(Ok(b"nothing here\n".to_vec())) {
        CoreAction::Done(Err(error)) => {
            assert_eq!(error.message(), "Failed to detect Xray version")
        }
        other => panic!("unexpected action: {:?}", other),
    }
    core.start(&config(VLESS), Poll::Exited);
    core.version_output(Ok(b"Xray 1.0\n".to_vec()));
    match core.spawned(Err(CoreError::StdinUnavailable), None) {
        CoreAction::Done(Err(error)) => assert_eq!(error.message(), "Core stdin is unavailable"),
        other => panic!("unexpected action: {:?}", other),
    }
    assert!(!core.is_started(Poll::Running));
    assert_eq!(core.version(), "unknown");
    assert!(matches!(core.spawned(Ok(1), None), CoreAction::Ignored));
    assert!(matches!(core.version_output(Ok(vec![])), CoreAction::Ignored));
}

#[test]
fn stop_resets_and_logs() {
    let mut core = XrayCore::new(settings("/root/xray", "/root/sing-box")).unwrap();
    start(&mut core, HY2, b"sing-box version 1.13.0\n", 7);
    core.push_log("line".to_owned());
    core.stop();
    assert_eq!(core.logs_snapshot(), vec!["line", "sing-box core stopped"]);
    assert_eq!(core.version(), "unknown");
    assert!(core.configured_inbound_ports().is_empty());
    assert_eq!(core.last_core_restart_at(), Some(1_700_000_000));
    core.stop();
    assert_eq!(core.logs_snapshot().len(), 2);
    start(&mut core, VLESS, b"Xray 1\n", 8);
    assert!(matches!(
        core.restart(&config(HY2)),
        CoreAction::DetectVersion(CoreKind::SingBox, _)
    ));
    assert_eq!(core.logs_snapshot()[2], "Xray core stopped");
}

#[test]
fn log_keeps_the_last_hundred_lines() {
    let mut log = LogBuffer::new();
    for i in 0..250 {
        push_log(&mut log, format!("line {}", i));
    }
    let lines = log.snapshot();
    assert_eq!(lines.len(), 100);
    assert_eq!(lines[0], "line 150");
    assert_eq!(lines[99], "line 249");
    assert_eq!(log.dropped(), 150);
}

#[test]
fn output_kept_aside_is_added_in_order() {
    let mut core = XrayCore::new(settings("x", "s")).unwrap();
    core.push_log("first".to_owned());
    let mut aside = LogBuffer::new();
    push_log(&mut aside, "second".to_owned());
    core.absorb_logs(aside.take());
    assert!(aside.snapshot().is_empty());
    assert_eq!(core.logs_snapshot(), vec!["first", "second"]);
    for i in 0..130 {
        push_log(&mut aside, format!("line {}", i));
    }
    core.absorb_logs(aside.take());
    assert_eq!(core.logs_snapshot().len(), 100);
    assert_eq!(core.logs_snapshot()[0], "line 30");
    assert_eq!(core.logs_dropped(), 32);
}

#[test]
fn version_is_the_first_word_after_the_prefix() {
    let found = detect_xray_version(Ok(b"hello\r\nXray 1.8.4 (Xray, Penetrates Everything.)\r\n".to_vec()));
    assert_eq!(found.unwrap(), "1.8.4");
    let found = detect_sing_box_version(Ok(b"sing-box 1.9\n".to_vec()));
    assert_eq!(found.unwrap(), "1.9");
    let error = detect_sing_box_version(Ok(b"sing-box version \nsing-box 2\n".to_vec())).unwrap_err();
    assert_eq!(error.message(), "Failed to detect sing-box version");
    let error = detect_xray_version(Ok(vec![0xff, 0xfe])).unwrap_err();
    assert_eq!(error.message(), "Failed to detect Xray version");
    assert_eq!(
        detect_xray_version(Ok(b"Xray \xff1.0\n".to_vec())).unwrap(),
        "\u{fffd}1.0"
    );
    let error = detect_xray_version(Err(CoreError::Io("gone".to_owned()))).unwrap_err();
    assert_eq!(error.message(), "gone");
}

#[test]
fn version_commands_are_waited_for() {
    assert!(matches!(
        version_wait(CoreKind::Xray, Poll::Running, 2_999_999_999),
        VersionWait::Sleep
    ));
    assert!(matches!(
        version_wait(CoreKind::Xray, Poll::Exited, u64::MAX),
        VersionWait::Collect
    ));
    assert!(matches!(
        version_wait(CoreKind::SingBox, Poll::Failed, 0),
        VersionWait::Abandon
    ));
    match version_wait(CoreKind::SingBox, Poll::Running, 3_000_000_000) {
        VersionWait::GiveUp(error) => {
            assert_eq!(error.message(), "sing-box version detection timed out")
        }
        other => panic!("unexpected step: {:?}", other),
    }
}

#[test]
fn installed_cores_stay_valid_for_a_minute() {
    let mut core = XrayCore::new(settings("x", "s")).unwrap();
    assert!(core.installed_cores(0).is_none());
    let cores = core.detected_cores(None, Some(Ok("1".to_owned())), 10);
    assert_eq!(core.installed_cores(10 + 59_999_999_999), Some(cores.clone()));
    assert_eq!(core.installed_cores(0), Some(cores));
    assert!(core.installed_cores(10 + 60_000_000_000).is_none());
}

#[test]
fn install_entries() {
    let info = core_install_info("xray", "/x", Ok("1".to_owned()));
    assert!(info.installed);
    assert_eq!(info.source, "configured_path");
    let info = core_install_info("xray", "/x", Err(CoreError::AlreadyStarted));
    assert_eq!(info, missing_core_info("xray", "/x"));
    assert_eq!(info.path, Some("/x".to_owned()));
}

#[test]
fn resident_memory_out_of_statm() {
    assert_eq!(page_size_bytes(), 4096);
    assert_eq!(rss_pages("100 25 3 0 0 0 0\n"), Some(25));
    assert_eq!(process_rss_bytes("100 25 3 0 0 0 0\n"), Some(25 * 4096));
    assert_eq!(process_rss_bytes("100"), None);
    assert_eq!(process_rss_bytes("100 x"), None);
    let mut core = XrayCore::new(settings("/root/xray", "s")).unwrap();
    assert_eq!(core.core_rss_bytes(Some("1 2")), None);
    start(&mut core, VLESS, b"Xray 1\n", 9);
    assert_eq!(core.core_rss_bytes(Some("1 2")), Some(8192));
    assert_eq!(core.core_rss_bytes(None), None);
}

#[test]
fn timestamps_are_whole_seconds() {
    assert_eq!(unix_timestamp(Some(1_999_999_999)), Some(1));
    assert_eq!(unix_timestamp(None), None);
}
