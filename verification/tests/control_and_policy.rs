use garam::common::IpcRequest;
use garam::ctl::{disk_list_line, disk_list_rows, ipc_request_for, reply_display_for, CtlCommand, DisksCommand, ReplyDisplay};
use garam::daemon::{
    classify_request, peer_allowed, proxy_socket_path, socket_role, unknown_command_reply, DaemonAction, SocketRole,
};
use garam::docker::authz::{AuthZReq, AuthzPolicy, GaramDockerAuthzEngine, InspectOutcome, JsonKind};

fn strs(v: &[&str]) -> Vec<String> {
    v.iter().map(|s| s.to_string()).collect()
}

fn req(cmd: &str, args: &[&str]) -> IpcRequest {
    IpcRequest { cmd: cmd.to_string(), args: strs(args) }
}

#[test]
fn root_and_listed_users_may_connect() {
    assert!(peer_allowed(0, &vec![]));
    assert!(peer_allowed(1000, &vec![1001, 1000]));
    assert!(!peer_allowed(1002, &vec![1001, 1000]));
}

#[test]
fn socket_role_by_what_is_found() {
    assert_eq!(socket_role(true, true), SocketRole::Proxy);
    assert_eq!(socket_role(true, false), SocketRole::Primary { remove_stale: true });
    assert_eq!(socket_role(false, false), SocketRole::Primary { remove_stale: false });
}

#[test]
fn proxy_socket_takes_four_id_characters() {
    assert_eq!(
        proxy_socket_path("/run/garam.sock", "3f2a9c1e-0000-4000-8000-000000000000"),
        "/run/garam.sock_3f2a"
    );
}

#[test]
fn status_requests_are_classified() {
    assert!(matches!(classify_request(&req("status", &[])), DaemonAction::StatusOnce));
    assert!(matches!(classify_request(&req("status", &["x", "w"])), DaemonAction::StatusWatch));
    assert!(matches!(classify_request(&req("reboot", &["w"])), DaemonAction::Unknown));
    assert_eq!(unknown_command_reply(), "🔴 [가람OS] 알 수 없는 명령어입니다");
}

#[test]
fn pool_and_disk_requests_are_acted_on() {
    match classify_request(&req("create_pool", &["tank", "-e", "zfs", "-r", "raidz", "sdb", "sdc"])) {
        DaemonAction::CreatePool(p) => {
            assert_eq!(p.name, "tank");
            assert_eq!(p.engine, "zfs");
            assert_eq!(p.raid, "raidz");
            assert_eq!(p.disks, strs(&["sdb", "sdc"]));
        },
        other => panic!("unexpected {:?}", other),
    }
    match classify_request(&req("create_pool", &["tank"])) {
        DaemonAction::BadPoolArgs(e) => assert_eq!(e, "❌ [공통 재귀파서] 풀에 매립할 물리 디스크 리스트가 전멸했습니다."),
        other => panic!("unexpected {:?}", other),
    }
    assert!(matches!(classify_request(&req("disk_list", &["w"])), DaemonAction::DiskList));
    assert!(matches!(classify_request(&req("disk_scan", &[])), DaemonAction::DiskScan));
    match classify_request(&req("disk_smart", &["sdb"])) {
        DaemonAction::DiskSmart(n) => assert_eq!(n, "sdb"),
        other => panic!("unexpected {:?}", other),
    }
    assert!(matches!(classify_request(&req("disk_smart", &[])), DaemonAction::Unknown));
}

#[test]
fn commands_send_their_requests() {
    let r = ipc_request_for(&CtlCommand::Status { watch: true }).unwrap();
    assert_eq!(r.cmd, "status");
    assert_eq!(r.args, strs(&["w"]));
    let r = ipc_request_for(&CtlCommand::Power).unwrap();
    assert_eq!(r.cmd, "status");
    assert!(r.args.is_empty());
    let r = ipc_request_for(&CtlCommand::PoolCreate {
        name: "tank".to_string(),
        engine: "ghs".to_string(),
        raid: "raid5".to_string(),
        disks: strs(&["sdb", "sdc"]),
    })
    .unwrap();
    assert_eq!(r.cmd, "create_pool");
    assert_eq!(r.args, strs(&["tank", "-e", "ghs", "-r", "raid5", "sdb", "sdc"]));
    let r = ipc_request_for(&CtlCommand::Disks(DisksCommand::Smart { name: "sdb".to_string() })).unwrap();
    assert_eq!(r.cmd, "disk_smart");
    assert_eq!(r.args, strs(&["sdb"]));
    assert_eq!(ipc_request_for(&CtlCommand::Disks(DisksCommand::List)).unwrap().cmd, "disk_list");
    assert_eq!(ipc_request_for(&CtlCommand::Disks(DisksCommand::Scan)).unwrap().cmd, "disk_scan");
    assert!(ipc_request_for(&CtlCommand::Complete).is_none());
}

#[test]
fn answers_are_shown_by_command() {
    assert_eq!(reply_display_for(&CtlCommand::Status { watch: false }), ReplyDisplay::SystemStatus);
    assert_eq!(reply_display_for(&CtlCommand::Status { watch: true }), ReplyDisplay::Raw);
    assert_eq!(reply_display_for(&CtlCommand::Power), ReplyDisplay::PowerStatus);
    assert_eq!(reply_display_for(&CtlCommand::Disks(DisksCommand::List)), ReplyDisplay::DiskList);
    assert_eq!(reply_display_for(&CtlCommand::Disks(DisksCommand::Scan)), ReplyDisplay::Raw);
}

#[test]
fn disk_table_rows() {
    assert_eq!(disk_list_line("sda"), "   /dev/sda      |   disk   |  🔒 SYSTEM OS ROLE");
    assert_eq!(disk_list_line("nvme0n1"), "   /dev/nvme0n1  |   disk   |  可 (데이터 풀 가용)");
    assert_eq!(disk_list_line("nvme10n1p1"), "   /dev/nvme10n1p1 |   disk   |  可 (데이터 풀 가용)");
}

#[test]
fn disk_table_rows_from_the_daemon_answer() {
    assert_eq!(
        disk_list_rows("{\"disks\":[\"sda\",7,\"sdb\"]}").unwrap(),
        vec![
            "   /dev/sda      |   disk   |  🔒 SYSTEM OS ROLE".to_string(),
            "   /dev/sdb      |   disk   |  可 (데이터 풀 가용)".to_string(),
        ]
    );
    assert_eq!(disk_list_rows("{\"other\":1}").unwrap(), Vec::<String>::new());
    assert_eq!(disk_list_rows("🔴 not json"), None);
}

fn policy(mutate: bool) -> AuthzPolicy {
    AuthzPolicy {
        enable_auto_mutation: mutate,
        nano_cpus: 2_000_000_000,
        cpu_limit_text: "2.0".to_string(),
        default_memory_mb: 512,
    }
}

fn create(body: Option<&str>) -> AuthZReq {
    AuthZReq {
        User: "root".to_string(),
        RequestMethod: "POST".to_string(),
        RequestURI: "/v1.43/containers/create?name=web".to_string(),
        RequestBody: body.map(|b| b.to_string()),
    }
}

fn answered(o: InspectOutcome) -> garam::docker::authz::AuthZRes {
    match o {
        InspectOutcome::Respond(r) => r,
        InspectOutcome::Abort => panic!("request abandoned"),
    }
}

#[test]
fn other_requests_pass() {
    let r = AuthZReq {
        User: "root".to_string(),
        RequestMethod: "GET".to_string(),
        RequestURI: "/v1.43/containers/json".to_string(),
        RequestBody: None,
    };
    let a = answered(GaramDockerAuthzEngine::handle_inspect_request(&policy(true), &r));
    assert!(a.Allow);
    assert_eq!(a.Msg, "GaramOS Core Security Passed.");
    assert!(a.ModifiedRequestBody.is_none());
}

#[test]
fn mutation_off_skips() {
    let a = answered(GaramDockerAuthzEngine::handle_inspect_request(&policy(false), &create(Some("{}"))));
    assert!(a.Allow);
    assert_eq!(a.Msg, "GaramOS Core Security Passed (Mutation Skipped).");
    assert!(a.ModifiedRequestBody.is_none());
}

#[test]
fn container_creation_gets_limits() {
    let a = answered(GaramDockerAuthzEngine::handle_inspect_request(&policy(true), &create(Some("{\"Image\":\"x\"}"))));
    assert!(a.Allow);
    assert_eq!(a.Msg, "GaramOS 안보법에 의거하여 자원 격벽(CPU: 2.0도막, RAM: 512MB)이 강제 주입되었습니다.");
    let body: serde_json::Value = serde_json::from_str(&a.ModifiedRequestBody.unwrap()).unwrap();
    assert_eq!(body["Image"], "x");
    assert_eq!(body["HostConfig"]["NanoCpus"], 2_000_000_000i64);
    assert_eq!(body["HostConfig"]["Memory"], 512u64 * 1024 * 1024);
}

#[test]
fn existing_host_config_keeps_its_members() {
    let a = answered(GaramDockerAuthzEngine::handle_inspect_request(
        &policy(true),
        &create(Some("{\"HostConfig\":{\"Privileged\":false,\"Memory\":1}}")),
    ));
    let body: serde_json::Value = serde_json::from_str(&a.ModifiedRequestBody.unwrap()).unwrap();
    assert_eq!(body["HostConfig"]["Privileged"], false);
    assert_eq!(body["HostConfig"]["Memory"], 512u64 * 1024 * 1024);
}

#[test]
fn body_that_is_not_an_object_is_abandoned() {
    assert!(matches!(
        GaramDockerAuthzEngine::handle_inspect_request(&policy(true), &create(Some("[1]"))),
        InspectOutcome::Abort
    ));
}

#[test]
fn body_that_is_not_json_passes() {
    let a = answered(GaramDockerAuthzEngine::handle_inspect_request(&policy(true), &create(Some("not json"))));
    assert_eq!(a.Msg, "GaramOS Core Security Passed.");
    assert!(a.ModifiedRequestBody.is_none());
    let a = answered(GaramDockerAuthzEngine::handle_inspect_request(&policy(true), &create(None)));
    assert_eq!(a.Msg, "GaramOS Core Security Passed.");
}

#[test]
fn responses_are_acknowledged() {
    let a = GaramDockerAuthzEngine::handle_response_noop();
    assert!(a.Allow);
    assert_eq!(a.Msg, "Success");
    assert!(a.ModifiedRequestBody.is_none());
}

#[test]
fn host_config_that_is_not_an_object_is_left_alone() {
    let a = answered(GaramDockerAuthzEngine::handle_inspect_request(&policy(true), &create(Some("{\"HostConfig\":5}"))));
    assert_eq!(a.Msg, "GaramOS 안보법에 의거하여 자원 격벽(CPU: 2.0도막, RAM: 512MB)이 강제 주입되었습니다.");
    assert_eq!(a.ModifiedRequestBody.unwrap(), "{\"HostConfig\":5}");
}

#[test]
fn rewritten_body_is_exact() {
    let a = answered(GaramDockerAuthzEngine::handle_inspect_request(&policy(true), &create(Some("{\"Image\":\"nginx\"}"))));
    assert_eq!(
        a.ModifiedRequestBody.unwrap(),
        "{\"HostConfig\":{\"Memory\":536870912,\"NanoCpus\":2000000000},\"Image\":\"nginx\"}"
    );
}

#[test]
fn null_body_gets_a_host_config() {
    let a = answered(GaramDockerAuthzEngine::inject_limits(&policy(true), "null", JsonKind::Null, JsonKind::Null));
    let body: serde_json::Value = serde_json::from_str(&a.ModifiedRequestBody.unwrap()).unwrap();
    assert_eq!(body["HostConfig"]["NanoCpus"], 2_000_000_000i64);
    assert_eq!(body["HostConfig"]["Memory"], 512u64 * 1024 * 1024);
}

#[test]
fn memory_limit_that_overflows_is_abandoned() {
    let mut p = policy(true);
    p.default_memory_mb = 17_592_186_044_416;
    assert!(matches!(
        GaramDockerAuthzEngine::handle_inspect_request(&p, &create(Some("{}"))),
        InspectOutcome::Abort
    ));
    p.default_memory_mb = 17_592_186_044_415;
    let a = answered(GaramDockerAuthzEngine::handle_inspect_request(&p, &create(Some("{}"))));
    let body: serde_json::Value = serde_json::from_str(&a.ModifiedRequestBody.unwrap()).unwrap();
    assert_eq!(body["HostConfig"]["Memory"], 17_592_186_044_415u64 * 1024 * 1024);
    p.default_memory_mb = 17_592_186_044_416;
    let a = answered(GaramDockerAuthzEngine::handle_inspect_request(&p, &create(Some("{\"HostConfig\":[]}"))));
    assert_eq!(a.ModifiedRequestBody.unwrap(), "{\"HostConfig\":[]}");
}
