use garam::common::{
    disk_command_request, format_uptime_human_readable, ipc_reply_result, make_text_gauge, parse_pool_args_recursive,
    receipt_wait_secs, worker_command_output, worker_reply_result, DiskCommandResponse, IpcReply, PoolArgs, WorkerReply,
};

fn toks(v: &[&str]) -> Vec<String> {
    v.iter().map(|s| s.to_string()).collect()
}

fn empty_state() -> PoolArgs {
    PoolArgs { name: String::new(), engine: String::new(), raid: String::new(), disks: vec![] }
}

#[test]
fn pool_tokens_fill_every_field() {
    let p = parse_pool_args_recursive(toks(&["tank", "-e", "zfs", "--raid", "raid1", "sdb", "/dev/sdc"]), empty_state())
        .unwrap();
    assert_eq!(p.name, "tank");
    assert_eq!(p.engine, "zfs");
    assert_eq!(p.raid, "raid1");
    assert_eq!(p.disks, toks(&["sdb", "/dev/sdc"]));
}

#[test]
fn pool_tokens_skip_tokens_that_are_not_disks() {
    let p = parse_pool_args_recursive(toks(&["tank", "sd-b", "sdc"]), empty_state()).unwrap();
    assert_eq!(p.disks, toks(&["sdc"]));
}

#[test]
fn pool_tokens_report_what_is_missing() {
    assert_eq!(
        parse_pool_args_recursive(toks(&[]), empty_state()).unwrap_err(),
        "❌ [공통 재귀파서] 스토리지 풀 생성명(`pool_name`)이 빠졌습니다."
    );
    assert_eq!(
        parse_pool_args_recursive(toks(&["tank"]), empty_state()).unwrap_err(),
        "❌ [공통 재귀파서] 풀에 매립할 물리 디스크 리스트가 전멸했습니다."
    );
    assert_eq!(
        parse_pool_args_recursive(toks(&["tank", "sdb", "-e"]), empty_state()).unwrap_err(),
        "❌ [공통 재귀파서] 엔진 타입(-e) 지정 값이 누락되었습니다."
    );
    assert_eq!(
        parse_pool_args_recursive(toks(&["tank", "sdb", "--raid"]), empty_state()).unwrap_err(),
        "❌ [공통 재귀파서] 레이드 규격(-r) 지정 값이 누락되었습니다."
    );
}

#[test]
fn uptime_in_words() {
    assert_eq!(format_uptime_human_readable(0), "0시간 0분 0초");
    assert_eq!(format_uptime_human_readable(3661), "1시간 1분 1초");
    assert_eq!(format_uptime_human_readable(31_536_000 + 2_592_000 + 86_400 + 3661), "1년 1개월 1일 1시간 1분 1초");
    assert_eq!(format_uptime_human_readable(2 * 86_400 + 59), "2일 0시간 0분 59초");
    assert_eq!(format_uptime_human_readable(31_536_000 * 3), "3년 0시간 0분 0초");
}

#[test]
fn uptime_parts_recompose() {
    for t in [0u64, 59, 3599, 86_399, 2_591_999, 31_535_999, 100_000_000, u64::MAX] {
        let years = t / 31_536_000;
        let rem = t % 31_536_000;
        let months = rem / 2_592_000;
        assert!(months <= 12);
        let text = format_uptime_human_readable(t);
        assert!(text.ends_with("초"));
        if years > 0 {
            assert!(text.starts_with(&format!("{}년 ", years)));
        }
    }
}

#[test]
fn gauges() {
    assert_eq!(make_text_gauge(50, 10), "█████░░░░░");
    assert_eq!(make_text_gauge(0, 4), "░░░░");
    assert_eq!(make_text_gauge(100, 3), "███");
    assert_eq!(make_text_gauge(150, 2), "███");
    assert_eq!(make_text_gauge(33, 10), "███░░░░░░░");
    assert_eq!(make_text_gauge(7, 0), "");
    for p in 0..=100usize {
        assert_eq!(make_text_gauge(p, 10).chars().count(), 10);
    }
}

fn receipt(success: bool, code: Option<i32>, stdout: &str, stderr: &str) -> DiskCommandResponse {
    DiskCommandResponse {
        tx_id: "T".to_string(),
        success,
        exit_code: code,
        stdout: stdout.to_string(),
        stderr: stderr.to_string(),
    }
}

#[test]
fn worker_receipts_become_results() {
    assert_eq!(worker_command_output(&receipt(true, Some(0), "out\n", "")), Ok("out\n".to_string()));
    assert_eq!(
        worker_command_output(&receipt(false, Some(2), "", "  boom \n")),
        Err("❌ 커널 거부 (Code Some(2)): boom".to_string())
    );
    assert_eq!(
        worker_command_output(&receipt(false, Some(-9), "", "")),
        Err("❌ 커널 거부 (Code Some(-9)): ".to_string())
    );
    assert_eq!(worker_command_output(&receipt(false, None, "", "x")), Err("❌ 커널 거부 (Code None): x".to_string()));
}

#[test]
fn worker_replies_become_receipts_or_errors() {
    let ok = worker_reply_result(WorkerReply::Frame(Ok(receipt(true, None, "a", ""))), 30).unwrap();
    assert_eq!(ok.stdout, "a");
    assert_eq!(
        worker_reply_result(WorkerReply::TimedOut, 30).unwrap_err(),
        "🚨 [소켓 엔진] 디스크 명령 집행 임계 시간(30) 초과로 자동 격리 차단!"
    );
    assert_eq!(
        worker_reply_result(WorkerReply::Closed, 30).unwrap_err(),
        "🚨 [소켓 엔진] 영수증 수령 전에 디스크 에이전트가 관로를 강제 폐쇄했습니다."
    );
    assert_eq!(
        worker_reply_result(WorkerReply::FrameError("bad".to_string()), 30).unwrap_err(),
        "🚨 [소켓 엔진] 스트림 프레임 디코딩 에러: bad"
    );
    assert_eq!(
        worker_reply_result(WorkerReply::Frame(Err("eof".to_string())), 30).unwrap_err(),
        "❌ [소켓 엔진] 영수증 역직렬화 오염: eof"
    );
}

#[test]
fn disk_orders() {
    let r = disk_command_request("T1", "mount", &toks(&["/dev/x", "/mnt"]), None, 30);
    assert_eq!(r.tx_id, "T1");
    assert_eq!(r.command, "mount");
    assert_eq!(r.args, toks(&["/dev/x", "/mnt"]));
    assert_eq!(r.stdin, None);
    assert_eq!(r.timeout_secs, 30);
    let r = disk_command_request("T1", "sfdisk", &toks(&["--append", "--no-reread", "/dev/sdb"]), Some("start=0, size=2
"), 30);
    assert_eq!(r.stdin.as_deref(), Some("start=0, size=2
"));
    assert_eq!(receipt_wait_secs(30), 32);
}

#[test]
fn control_replies_decode_as_utf8() {
    assert_eq!(ipc_reply_result(IpcReply::Frame("상태 ok".as_bytes().to_vec())), Ok("상태 ok".to_string()));
    let e = ipc_reply_result(IpcReply::Frame(vec![0x61, 0xff])).unwrap_err();
    assert!(e.starts_with("❌ 문자열 복원 찐빠: invalid utf-8"));
    assert_eq!(ipc_reply_result(IpcReply::Closed).unwrap_err(), "❌ 데몬이 관로를 폐쇄했습니다.");
    assert_eq!(
        ipc_reply_result(IpcReply::FrameError("x".to_string())).unwrap_err(),
        "❌ 응답 프레임 디코딩 찐빠: x"
    );
}

#[test]
fn unicode_whitespace_is_trimmed() {
    assert_eq!(garam::text::trim_str("\u{3000}\u{2009} x y\u{85}\u{a0}\n"), "x y");
    assert_eq!(garam::text::trim_str("\u{200b}x"), "\u{200b}x");
}
