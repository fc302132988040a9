use juju_hooks::bridge::CommandOutcome;
use juju_hooks::{
    action_fail, action_get, action_set, close_port, config_get, config_get_all, decode_text,
    is_leader, log, open_port, process_output, reboot, relation_get, relation_get_by_unit,
    relation_ids, relation_list, relation_set, run_command, run_command_no_args, status_set,
    storage_get, storage_get_location, storage_list, unit_get_private_addr,
    unit_get_public_addr, Context, JujuError, Relation, Status, StatusType, Transport,
};
use std::cell::RefCell;

type Calls = RefCell<Vec<(String, Vec<String>)>>;

fn ok(stdout: &str) -> Result<CommandOutcome, JujuError> {
    Ok(CommandOutcome {
        succeeded: true,
        stdout: stdout.as_bytes().to_vec(),
        stderr: Vec::new(),
    })
}

fn failed(stderr: &str) -> Result<CommandOutcome, JujuError> {
    Ok(CommandOutcome {
        succeeded: false,
        stdout: Vec::new(),
        stderr: stderr.as_bytes().to_vec(),
    })
}

fn record(calls: &Calls, program: &str, argv: &Vec<String>) {
    calls.borrow_mut().push((program.to_string(), argv.clone()));
}

fn call(program: &str, argv: &[&str]) -> (String, Vec<String>) {
    (program.to_string(), argv.iter().map(|a| a.to_string()).collect())
}

#[test]
fn exit_zero_is_success_whatever_was_printed() {
    let outcome = CommandOutcome {
        succeeded: true,
        stdout: b"noise".to_vec(),
        stderr: vec![0xff, 0xfe],
    };
    assert_eq!(process_output(outcome).unwrap(), 0);
}

#[test]
fn exit_non_zero_carries_standard_error() {
    let outcome = CommandOutcome {
        succeeded: false,
        stdout: b"ignored".to_vec(),
        stderr: b"permission denied\n".to_vec(),
    };
    match process_output(outcome) {
        Err(JujuError::IoError(m)) => assert_eq!(m, "permission denied\n"),
        other => panic!("unexpected: {:?}", other),
    }
}

#[test]
fn undecodable_standard_error_is_a_decode_failure() {
    let outcome = CommandOutcome {
        succeeded: false,
        stdout: Vec::new(),
        stderr: vec![b'a', 0xff],
    };
    match process_output(outcome) {
        Err(JujuError::FromUtf8Error(m)) => assert_eq!(m, "invalid utf-8"),
        other => panic!("unexpected: {:?}", other),
    }
}

#[test]
fn bytes_decode_without_loss() {
    assert_eq!(decode_text("héllo ✓".as_bytes().to_vec()).unwrap(), "héllo ✓");
    assert_eq!(decode_text(Vec::new()).unwrap(), "");
    match decode_text(vec![0xc3, 0x28]) {
        Err(JujuError::FromUtf8Error(m)) => assert_eq!(m, "invalid utf-8"),
        other => panic!("unexpected: {:?}", other),
    }
    assert!(decode_text(vec![0xed, 0xa0, 0x80]).is_err());
    assert!(decode_text(vec![0xc0, 0x80]).is_err());
}

#[test]
fn errors_print_their_message() {
    assert_eq!(JujuError::new("boom".to_string()).to_string(), "boom");
    assert!(matches!(JujuError::new("boom".to_string()), JujuError::IoError(_)));
    assert_eq!(JujuError::FromUtf8Error("bad bytes".to_string()).to_string(), "bad bytes");
    assert_eq!(JujuError::ParseIntError("bad number".to_string()).to_string(), "bad number");
}

#[test]
fn words_of_the_enums() {
    assert_eq!(Transport::Tcp.to_string(), "tcp");
    assert_eq!(Transport::Udp.to_string(), "udp");
    assert_eq!(StatusType::Maintenance.to_string(), "maintenance");
    assert_eq!(StatusType::Waiting.to_string(), "waiting");
    assert_eq!(StatusType::Active.to_string(), "active");
    assert_eq!(StatusType::Blocked.to_string(), "blocked");
}

#[test]
fn a_plain_run_starts_the_tool_itself() {
    let calls: Calls = RefCell::new(Vec::new());
    let spawn = |p: &str, a: &Vec<String>| {
        record(&calls, p, a);
        ok("out")
    };
    let args = vec!["x".to_string(), "y".to_string()];
    let out = run_command(&spawn, "tool", &args, false).unwrap();
    assert!(out.succeeded);
    assert_eq!(out.stdout, b"out".to_vec());
    assert_eq!(*calls.borrow(), vec![call("tool", &["x", "y"])]);
}

#[test]
fn an_elevated_run_starts_the_wrapper() {
    let calls: Calls = RefCell::new(Vec::new());
    let spawn = |p: &str, a: &Vec<String>| {
        record(&calls, p, a);
        ok("")
    };
    let args = vec!["x".to_string(), "y".to_string()];
    run_command(&spawn, "tool", &args, true).unwrap();
    run_command_no_args(&spawn, "tool", true).unwrap();
    run_command_no_args(&spawn, "tool", false).unwrap();
    assert_eq!(
        *calls.borrow(),
        vec![
            call("sudo", &["tool", "x", "y"]),
            call("sudo", &["tool"]),
            call("tool", &[]),
        ]
    );
}

#[test]
fn a_run_that_cannot_start_is_handed_on() {
    let spawn = |_: &str, _: &Vec<String>| -> Result<CommandOutcome, JujuError> {
        Err(JujuError::new("No such file or directory".to_string()))
    };
    match run_command_no_args(&spawn, "tool", false) {
        Err(JujuError::IoError(m)) => assert_eq!(m, "No such file or directory"),
        other => panic!("unexpected: {:?}", other),
    }
    match reboot(&spawn) {
        Err(JujuError::IoError(m)) => assert_eq!(m, "No such file or directory"),
        other => panic!("unexpected: {:?}", other),
    }
    match config_get_all(&spawn) {
        Err(JujuError::IoError(m)) => assert_eq!(m, "No such file or directory"),
        other => panic!("unexpected: {:?}", other),
    }
    match is_leader(&spawn) {
        Err(JujuError::IoError(m)) => assert_eq!(m, "No such file or directory"),
        other => panic!("unexpected: {:?}", other),
    }
}

#[test]
fn tools_that_report_a_status() {
    let calls: Calls = RefCell::new(Vec::new());
    let spawn = |p: &str, a: &Vec<String>| {
        record(&calls, p, a);
        ok("")
    };
    assert_eq!(reboot(&spawn).unwrap(), 0);
    assert_eq!(action_set(&spawn, &"k".to_string(), &"v".to_string()).unwrap(), 0);
    assert_eq!(action_fail(&spawn, &"broken".to_string()).unwrap(), 0);
    assert_eq!(open_port(&spawn, 8080, Transport::Tcp).unwrap(), 0);
    assert_eq!(close_port(&spawn, 53, Transport::Udp).unwrap(), 0);
    assert_eq!(open_port(&spawn, 0, Transport::Tcp).unwrap(), 0);
    assert_eq!(relation_set(&spawn, "host", "10.0.0.1").unwrap(), 0);
    let status = Status {
        status_type: StatusType::Active,
        message: "all good".to_string(),
    };
    assert_eq!(status_set(&spawn, status).unwrap(), 0);
    log(&spawn, &"hello".to_string());
    assert_eq!(
        *calls.borrow(),
        vec![
            call("sudo", &["juju-reboot"]),
            call("action-set", &["k=v"]),
            call("action-fail", &["broken"]),
            call("open-port", &["8080/tcp"]),
            call("close-port", &["53/udp"]),
            call("open-port", &["0/tcp"]),
            call("relation-set", &["host=10.0.0.1"]),
            call("status-set", &["active", "all good"]),
            call("juju-log", &["hello"]),
        ]
    );
}

#[test]
fn a_failing_tool_gives_its_standard_error() {
    let spawn = |_: &str, _: &Vec<String>| failed("hook failed");
    match open_port(&spawn, 80, Transport::Tcp) {
        Err(JujuError::IoError(m)) => assert_eq!(m, "hook failed"),
        other => panic!("unexpected: {:?}", other),
    }
    log(&spawn, &"ignored".to_string());
}

#[test]
fn tools_that_print_a_value() {
    let calls: Calls = RefCell::new(Vec::new());
    let spawn = |p: &str, a: &Vec<String>| {
        record(&calls, p, a);
        ok("  value \n")
    };
    assert_eq!(action_get(&spawn, &"param".to_string()).unwrap(), "value");
    assert_eq!(unit_get_private_addr(&spawn).unwrap(), "value");
    assert_eq!(unit_get_public_addr(&spawn).unwrap(), "value");
    assert_eq!(config_get(&spawn, &"key".to_string()).unwrap(), "value");
    assert_eq!(relation_get(&spawn, &"key".to_string()).unwrap(), "  value \n");
    let unit = Relation {
        name: "mysql".to_string(),
        id: 12,
    };
    assert_eq!(
        relation_get_by_unit(&spawn, &"key".to_string(), &unit).unwrap(),
        "  value \n"
    );
    assert_eq!(storage_get_location(&spawn).unwrap(), "  value \n");
    assert_eq!(storage_get(&spawn, "disk/0").unwrap(), "  value \n");
    assert_eq!(storage_list(&spawn).unwrap(), "  value \n");
    assert_eq!(
        *calls.borrow(),
        vec![
            call("action-get", &["param"]),
            call("unit-get", &["private-address"]),
            call("unit-get", &["public-address"]),
            call("config-get", &["key"]),
            call("relation-get", &["key"]),
            call("relation-get", &["key", "mysql/12"]),
            call("storage-get", &["location"]),
            call("storage-get", &["-s", "disk/0", "location"]),
            call("storage-list", &[]),
        ]
    );
}

#[test]
fn undecodable_output_is_a_decode_failure() {
    let spawn = |_: &str, _: &Vec<String>| {
        Ok(CommandOutcome {
            succeeded: true,
            stdout: vec![0xff],
            stderr: Vec::new(),
        })
    };
    assert!(matches!(
        config_get(&spawn, &"k".to_string()),
        Err(JujuError::FromUtf8Error(_))
    ));
    assert!(matches!(config_get_all(&spawn), Err(JujuError::FromUtf8Error(_))));
    assert!(matches!(relation_list(&spawn), Err(JujuError::FromUtf8Error(_))));
    assert!(matches!(storage_list(&spawn), Err(JujuError::FromUtf8Error(_))));
    assert!(matches!(is_leader(&spawn), Err(JujuError::FromUtf8Error(_))));
}

#[test]
fn the_whole_configuration() {
    let calls: Calls = RefCell::new(Vec::new());
    let spawn = |p: &str, a: &Vec<String>| {
        record(&calls, p, a);
        ok("brick_paths: /mnt/brick1 /mnt/brick2\ncluster_type: Replicate\n")
    };
    let m = config_get_all(&spawn).unwrap();
    assert_eq!(m.len(), 2);
    assert_eq!(
        m.get(&"cluster_type".to_string()),
        Some(&" Replicate".to_string())
    );
    assert_eq!(*calls.borrow(), vec![call("config-get", &["--all"])]);
}

#[test]
fn the_related_units() {
    let calls: Calls = RefCell::new(Vec::new());
    let spawn = |p: &str, a: &Vec<String>| {
        record(&calls, p, a);
        if p == "relation-list" {
            ok("a/1\nb/2\n")
        } else if p == "relation-ids" {
            ok("a:1\nb:2\n")
        } else {
            ok("")
        }
    };
    let units = relation_list(&spawn).unwrap();
    assert_eq!(units.len(), 2);
    assert_eq!((units[0].name.as_str(), units[0].id), ("a", 1));
    assert_eq!((units[1].name.as_str(), units[1].id), ("b", 2));
    let ids = relation_ids(&spawn).unwrap();
    assert_eq!(ids.len(), 2);
    assert_eq!((ids[0].name.as_str(), ids[0].id), ("a", 1));
    assert_eq!((ids[1].name.as_str(), ids[1].id), ("b", 2));
    assert_eq!(
        *calls.borrow(),
        vec![
            call("relation-list", &[]),
            call("juju-log", &["relation-list output: a/1\nb/2\n"]),
            call("relation-ids", &[]),
            call("juju-log", &["relation-ids output: a:1\nb:2\n"]),
        ]
    );
}

#[test]
fn a_bad_relation_number_fails_the_list() {
    let spawn = |_: &str, _: &Vec<String>| ok("a/x\n");
    assert!(matches!(relation_list(&spawn), Err(JujuError::ParseIntError(_))));
}

#[test]
fn leadership_is_the_word_true() {
    let t = |_: &str, _: &Vec<String>| ok("True\n");
    let f = |_: &str, _: &Vec<String>| ok("False\n");
    let other = |_: &str, _: &Vec<String>| ok("true");
    let nothing = |_: &str, _: &Vec<String>| ok("");
    assert_eq!(is_leader(&t).unwrap(), true);
    assert_eq!(is_leader(&f).unwrap(), false);
    assert_eq!(is_leader(&other).unwrap(), false);
    assert_eq!(is_leader(&nothing).unwrap(), false);
}

#[test]
fn port_numbers_are_written_in_base_ten() {
    let calls: Calls = RefCell::new(Vec::new());
    let spawn = |p: &str, a: &Vec<String>| {
        record(&calls, p, a);
        ok("")
    };
    open_port(&spawn, 9, Transport::Tcp).unwrap();
    open_port(&spawn, 10, Transport::Tcp).unwrap();
    open_port(&spawn, 65535, Transport::Udp).unwrap();
    open_port(&spawn, usize::MAX, Transport::Udp).unwrap();
    let expected = format!("{}/udp", usize::MAX);
    assert_eq!(
        *calls.borrow(),
        vec![
            call("open-port", &["9/tcp"]),
            call("open-port", &["10/tcp"]),
            call("open-port", &["65535/udp"]),
            call("open-port", &[expected.as_str()]),
        ]
    );
}

#[test]
fn context_from_the_agents_values() {
    let c = Context::new("server".to_string(), "db:7", "wordpress/0".to_string()).unwrap();
    assert_eq!(c.relation_type, "server");
    assert_eq!(c.relation_id, 7);
    assert_eq!(c.unit, "wordpress/0");
    assert_eq!(c.relations.len(), 0);
    assert!(matches!(
        Context::new(String::new(), "", String::new()),
        Err(JujuError::ParseIntError(_))
    ));
    assert!(matches!(
        Context::new(String::new(), "db:x", String::new()),
        Err(JujuError::ParseIntError(_))
    ));
}
