//! What the daemon, the worker and the command-line tool share: the request
//! types of the control socket and of the disk worker, the pool-argument token
//! parser, the human-readable formatters, and the interpretation of replies.

use vstd::prelude::*;
use crate::text::{
    decimal, has_prefix, all_alphanumeric, strings_view, str_equals, chars_of, starts_with_chars,
    all_alphanumeric_exec, push_char, option_i32_debug, option_i32_debug_exec, trim_ws, trim_str,
    u64_to_decimal, utf8_error_text, string_from_utf8, clone_strings, push_string,
};

verus! {

/// A request on the daemon's control socket: a command word and its arguments.
#[derive(Debug, Clone)]
pub struct IpcRequest {
    pub cmd: String,
    pub args: Vec<String>,
}

/// The arguments of a pool creation.
#[derive(Debug, Clone)]
pub struct PoolArgs {
    pub name: String,
    pub engine: String,
    pub raid: String,
    pub disks: Vec<String>,
}

pub struct PoolArgsView {
    pub name: Seq<char>,
    pub engine: Seq<char>,
    pub raid: Seq<char>,
    pub disks: Seq<Seq<char>>,
}

impl View for PoolArgs {
    type V = PoolArgsView;

    open spec fn view(&self) -> PoolArgsView {
        PoolArgsView { name: self.name@, engine: self.engine@, raid: self.raid@, disks: strings_view(self.disks@) }
    }
}

pub open spec fn missing_name_text() -> Seq<char> {
    "❌ [공통 재귀파서] 스토리지 풀 생성명(`pool_name`)이 빠졌습니다."@
}

pub open spec fn missing_disks_text() -> Seq<char> {
    "❌ [공통 재귀파서] 풀에 매립할 물리 디스크 리스트가 전멸했습니다."@
}

pub open spec fn missing_engine_text() -> Seq<char> {
    "❌ [공통 재귀파서] 엔진 타입(-e) 지정 값이 누락되었습니다."@
}

pub open spec fn missing_raid_text() -> Seq<char> {
    "❌ [공통 재귀파서] 레이드 규격(-r) 지정 값이 누락되었습니다."@
}

/// A token that names a disk: a device path, or only alphanumeric characters.
pub open spec fn is_disk_token(t: Seq<char>) -> bool {
    has_prefix(t, "/dev/"@) || all_alphanumeric(t)
}

/// The pool arguments read from the tokens `args` on top of `st`: `--engine`
/// / `-e` and `--raid` / `-r` take the next token as their value; the first
/// other token names the pool, and later ones that look like disks are added
/// to the disk list (others are skipped). At the end a name and at least one
/// disk are required.
pub open spec fn parse_pool_tokens(args: Seq<Seq<char>>, st: PoolArgsView) -> Result<PoolArgsView, Seq<char>>
    decreases args.len(),
{
    if args.len() == 0 {
        if st.name.len() == 0 {
            Err(missing_name_text())
        } else if st.disks.len() == 0 {
            Err(missing_disks_text())
        } else {
            Ok(st)
        }
    } else {
        let head = args[0];
        let rest = args.drop_first();
        if head == "--engine"@ || head == "-e"@ {
            if rest.len() == 0 {
                Err(missing_engine_text())
            } else {
                parse_pool_tokens(rest.drop_first(), PoolArgsView { engine: rest[0], ..st })
            }
        } else if head == "--raid"@ || head == "-r"@ {
            if rest.len() == 0 {
                Err(missing_raid_text())
            } else {
                parse_pool_tokens(rest.drop_first(), PoolArgsView { raid: rest[0], ..st })
            }
        } else if st.name.len() == 0 {
            parse_pool_tokens(rest, PoolArgsView { name: head, ..st })
        } else if is_disk_token(head) {
            parse_pool_tokens(rest, PoolArgsView { disks: st.disks.push(head), ..st })
        } else {
            parse_pool_tokens(rest, st)
        }
    }
}

pub open spec fn pool_result_view(r: Result<PoolArgs, String>) -> Result<PoolArgsView, Seq<char>> {
    match r {
        Ok(p) => Ok(p@),
        Err(e) => Err(e@),
    }
}

fn is_disk_token_exec(t: &String) -> (r: bool)
    ensures
        r == is_disk_token(t@),
{
    let c = chars_of(t.as_str());
    let p = chars_of("/dev/");
    starts_with_chars(c.as_slice(), p.as_slice()) || all_alphanumeric_exec(c.as_slice())
}

/// Reads pool arguments from command tokens: see [`parse_pool_tokens`].
pub fn parse_pool_args_recursive(args: Vec<String>, current_state: PoolArgs) -> (r: Result<PoolArgs, String>)
    ensures
        pool_result_view(r) == parse_pool_tokens(strings_view(args@), current_state@),
{
    let mut st = current_state;
    let mut i: usize = 0;
    let ghost all = strings_view(args@);
    assert(all.skip(0) =~= all);
    while i < args.len()
        invariant
            i <= args.len(),
            all == strings_view(args@),
            parse_pool_tokens(all, current_state@) == parse_pool_tokens(all.skip(i as int), st@),
        decreases args.len() - i,
    {
        let ghost rest_v = all.skip(i as int);
        let head = &args[i];
        assert(rest_v[0] == head@);
        assert(rest_v.drop_first() =~= all.skip(i + 1));
        if str_equals(head.as_str(), "--engine") || str_equals(head.as_str(), "-e") {
            if i + 1 >= args.len() {
                return Err(String::from_str("❌ [공통 재귀파서] 엔진 타입(-e) 지정 값이 누락되었습니다."));
            }
            assert(all.skip(i + 1)[0] == args@[i + 1]@);
            assert(all.skip(i + 1).drop_first() =~= all.skip(i + 2));
            st.engine = args[i + 1].clone();
            i = i + 2;
        } else if str_equals(head.as_str(), "--raid") || str_equals(head.as_str(), "-r") {
            if i + 1 >= args.len() {
                return Err(String::from_str("❌ [공통 재귀파서] 레이드 규격(-r) 지정 값이 누락되었습니다."));
            }
            assert(all.skip(i + 1)[0] == args@[i + 1]@);
            assert(all.skip(i + 1).drop_first() =~= all.skip(i + 2));
            st.raid = args[i + 1].clone();
            i = i + 2;
        } else if st.name.unicode_len() == 0 {
            st.name = head.clone();
            i = i + 1;
        } else if is_disk_token_exec(head) {
            let ghost before = st@;
            push_string(&mut st.disks, head.clone());
            assert(st@ == PoolArgsView { disks: before.disks.push(head@), ..before });
            i = i + 1;
        } else {
            i = i + 1;
        }
    }
    assert(all.skip(i as int) =~= Seq::<Seq<char>>::empty());
    if st.name.unicode_len() == 0 {
        return Err(String::from_str("❌ [공통 재귀파서] 스토리지 풀 생성명(`pool_name`)이 빠졌습니다."));
    }
    if st.disks.len() == 0 {
        return Err(String::from_str("❌ [공통 재귀파서] 풀에 매립할 물리 디스크 리스트가 전멸했습니다."));
    }
    Ok(st)
}


pub open spec fn secs_per_year() -> nat { 365 * 24 * 3600 }
pub open spec fn secs_per_month() -> nat { 30 * 24 * 3600 }
pub open spec fn secs_per_day() -> nat { 24 * 3600 }

/// An uptime in words: years of 365 days, months of 30 days and days (each
/// only when not zero), then hours, minutes and seconds.
pub open spec fn uptime_text(t: nat) -> Seq<char> {
    let years = t / secs_per_year();
    let rem = t % secs_per_year();
    let months = rem / secs_per_month();
    let rem_days = rem % secs_per_month();
    let days = rem_days / secs_per_day();
    let rem_hours = rem_days % secs_per_day();
    let hours = rem_hours / 3600;
    let rem_mins = rem_hours % 3600;
    let minutes = rem_mins / 60;
    let seconds = rem_mins % 60;
    (if years > 0 { decimal(years) + "년 "@ } else { seq![] }) + (if months > 0 {
        decimal(months) + "개월 "@
    } else {
        seq![]
    }) + (if days > 0 { decimal(days) + "일 "@ } else { seq![] }) + decimal(hours) + "시간 "@ + decimal(minutes)
        + "분 "@ + decimal(seconds) + "초"@
}

/// The uptime of `total_secs` seconds in words: see [`uptime_text`].
pub fn format_uptime_human_readable(total_secs: u64) -> (r: String)
    ensures
        r@ == uptime_text(total_secs as nat),
{
    let years = total_secs / (365 * 24 * 3600);
    let rem = total_secs % (365 * 24 * 3600);
    let months = rem / (30 * 24 * 3600);
    let rem_days = rem % (30 * 24 * 3600);
    let days = rem_days / (24 * 3600);
    let rem_hours = rem_days % (24 * 3600);
    let hours = rem_hours / 3600;
    let rem_mins = rem_hours % 3600;
    let minutes = rem_mins / 60;
    let seconds = rem_mins % 60;
    let mut uptime_string = String::new();
    if years > 0 {
        let d = u64_to_decimal(years);
        uptime_string.append(d.as_str());
        uptime_string.append("년 ");
    }
    let ghost a = uptime_string@;
    if months > 0 {
        let d = u64_to_decimal(months);
        uptime_string.append(d.as_str());
        uptime_string.append("개월 ");
    }
    let ghost b = uptime_string@;
    if days > 0 {
        let d = u64_to_decimal(days);
        uptime_string.append(d.as_str());
        uptime_string.append("일 ");
    }
    let ghost c = uptime_string@;
    let h = u64_to_decimal(hours);
    uptime_string.append(h.as_str());
    uptime_string.append("시간 ");
    let m = u64_to_decimal(minutes);
    uptime_string.append(m.as_str());
    uptime_string.append("분 ");
    let s = u64_to_decimal(seconds);
    uptime_string.append(s.as_str());
    uptime_string.append("초");
    proof {
        let t = total_secs as nat;
        assert(years as nat == t / secs_per_year());
        assert(rem as nat == t % secs_per_year());
        assert(a =~= (if years > 0 { decimal(years as nat) + "년 "@ } else { seq![] }));
        assert(b =~= a + (if months > 0 { decimal(months as nat) + "개월 "@ } else { seq![] }));
        assert(c =~= b + (if days > 0 { decimal(days as nat) + "일 "@ } else { seq![] }));
        assert(uptime_string@ =~= uptime_text(t));
    }
    uptime_string
}

/// `n` copies of `c`.
pub open spec fn repeat_char(c: char, n: nat) -> Seq<char> {
    Seq::new(n, |i: int| c)
}

/// A text gauge of `width` cells for `percentage` percent: the filled cells
/// (`percentage * width / 100`, rounded down) as full blocks, then the rest of
/// the width as light shade.
pub open spec fn gauge_text(percentage: nat, width: nat) -> Seq<char> {
    let filled = percentage * width / 100;
    let empty = if width >= filled { (width - filled) as nat } else { 0 };
    repeat_char('█', filled) + repeat_char('░', empty)
}

fn push_repeated(s: &mut String, c: char, n: usize)
    ensures
        final(s)@ == old(s)@ + repeat_char(c, n as nat),
{
    let mut i: usize = 0;
    while i < n
        invariant
            i <= n,
            s@ == old(s)@ + repeat_char(c, i as nat),
        decreases n - i,
    {
        push_char(s, c);
        i = i + 1;
        assert(s@ =~= old(s)@ + repeat_char(c, i as nat));
    }
}

/// A text gauge: see [`gauge_text`].
pub fn make_text_gauge(percentage: usize, width: usize) -> (r: String)
    requires
        percentage * width <= usize::MAX,
    ensures
        r@ == gauge_text(percentage as nat, width as nat),
{
    let filled_count = (percentage * width) / 100;
    let empty_count = width.saturating_sub(filled_count);
    let mut r = String::new();
    push_repeated(&mut r, '█', filled_count);
    push_repeated(&mut r, '░', empty_count);
    assert(r@ =~= gauge_text(percentage as nat, width as nat));
    r
}

/// An order for the root disk worker: the command, its arguments, the text
/// for its standard input when it reads one, and its timeout.
#[derive(Debug, Clone)]
pub struct DiskCommandRequest {
    pub tx_id: String,
    pub command: String,
    pub args: Vec<String>,
    pub stdin: Option<String>,
    pub timeout_secs: u64,
}

/// The disk worker's receipt for an order.
#[derive(Debug, Clone)]
pub struct DiskCommandResponse {
    pub tx_id: String,
    pub success: bool,
    pub exit_code: Option<i32>,
    pub stdout: String,
    pub stderr: String,
}

/// The order for `command args` (with `stdin` on its standard input) under
/// transaction `tx_id`.
pub fn disk_command_request(
    tx_id: &str,
    command: &str,
    args: &Vec<String>,
    stdin: Option<&str>,
    timeout_secs: u64,
) -> (r: DiskCommandRequest)
    ensures
        r.tx_id@ == tx_id@,
        r.command@ == command@,
        strings_view(r.args@) == strings_view(args@),
        match stdin {
            Some(t) => r.stdin matches Some(u) && u@ == t@,
            None => r.stdin is None,
        },
        r.timeout_secs == timeout_secs,
{
    DiskCommandRequest {
        tx_id: String::from_str(tx_id),
        command: String::from_str(command),
        args: clone_strings(args),
        stdin: match stdin {
            Some(t) => Some(String::from_str(t)),
            None => None,
        },
        timeout_secs,
    }
}

/// How long to wait for a receipt: the order's own timeout and two seconds of margin.
pub fn receipt_wait_secs(timeout_secs: u64) -> (r: u64)
    requires
        timeout_secs <= u64::MAX - 2,
    ensures
        r == timeout_secs + 2,
{
    timeout_secs + 2
}

/// What came back from the disk worker's socket.
pub enum WorkerReply {
    /// A frame arrived; it held a receipt, or the text of why it did not parse.
    Frame(Result<DiskCommandResponse, String>),
    /// The frame could not be decoded; the decoder's error text.
    FrameError(String),
    /// The worker closed the socket before answering.
    Closed,
    /// No answer within the wait.
    TimedOut,
}

pub open spec fn worker_reply_error(reply: WorkerReply, timeout_secs: u64) -> Option<Seq<char>> {
    match reply {
        WorkerReply::Frame(Ok(_)) => None,
        WorkerReply::Frame(Err(e)) => Some("❌ [소켓 엔진] 영수증 역직렬화 오염: "@ + e@),
        WorkerReply::FrameError(e) => Some("🚨 [소켓 엔진] 스트림 프레임 디코딩 에러: "@ + e@),
        WorkerReply::Closed => Some("🚨 [소켓 엔진] 영수증 수령 전에 디스크 에이전트가 관로를 강제 폐쇄했습니다."@),
        WorkerReply::TimedOut => Some(
            "🚨 [소켓 엔진] 디스크 명령 집행 임계 시간("@ + decimal(timeout_secs as nat) + ") 초과로 자동 격리 차단!"@,
        ),
    }
}

/// The receipt of a worker reply, or the error to report for it.
pub fn worker_reply_result(reply: WorkerReply, timeout_secs: u64) -> (r: Result<DiskCommandResponse, String>)
    ensures
        match r {
            Ok(resp) => reply matches WorkerReply::Frame(Ok(x)) && x == resp,
            Err(e) => worker_reply_error(reply, timeout_secs) == Some(e@),
        },
{
    match reply {
        WorkerReply::Frame(Ok(resp)) => Ok(resp),
        WorkerReply::Frame(Err(e)) => {
            let mut m = String::from_str("❌ [소켓 엔진] 영수증 역직렬화 오염: ");
            m.append(e.as_str());
            Err(m)
        },
        WorkerReply::FrameError(e) => {
            let mut m = String::from_str("🚨 [소켓 엔진] 스트림 프레임 디코딩 에러: ");
            m.append(e.as_str());
            Err(m)
        },
        WorkerReply::Closed => Err(
            String::from_str("🚨 [소켓 엔진] 영수증 수령 전에 디스크 에이전트가 관로를 강제 폐쇄했습니다."),
        ),
        WorkerReply::TimedOut => {
            let mut m = String::from_str("🚨 [소켓 엔진] 디스크 명령 집행 임계 시간(");
            let d = u64_to_decimal(timeout_secs);
            m.append(d.as_str());
            m.append(") 초과로 자동 격리 차단!");
            Err(m)
        },
    }
}

/// What a worker receipt means for the command: its standard output when it
/// succeeded, otherwise the exit code and the trimmed standard error.
pub open spec fn worker_output(success: bool, exit_code: Option<i32>, stdout: Seq<char>, stderr: Seq<char>) -> Result<
    Seq<char>,
    Seq<char>,
> {
    if success {
        Ok(stdout)
    } else {
        Err("❌ 커널 거부 (Code "@ + option_i32_debug(exit_code) + "): "@ + trim_ws(stderr))
    }
}

/// The outcome of a worker command from its receipt: see [`worker_output`].
pub fn worker_command_output(resp: &DiskCommandResponse) -> (r: Result<String, String>)
    ensures
        match r {
            Ok(s) => worker_output(resp.success, resp.exit_code, resp.stdout@, resp.stderr@) == Ok::<Seq<char>, Seq<char>>(s@),
            Err(e) => worker_output(resp.success, resp.exit_code, resp.stdout@, resp.stderr@) == Err::<Seq<char>, Seq<char>>(e@),
        },
{
    if resp.success {
        Ok(resp.stdout.clone())
    } else {
        let mut m = String::from_str("❌ 커널 거부 (Code ");
        let c = option_i32_debug_exec(resp.exit_code);
        m.append(c.as_str());
        m.append("): ");
        let t = trim_str(resp.stderr.as_str());
        m.append(t.as_str());
        Err(m)
    }
}

/// What came back from the daemon's control socket.
pub enum IpcReply {
    /// A frame with these bytes.
    Frame(Vec<u8>),
    /// The frame could not be decoded; the decoder's error text.
    FrameError(String),
    /// The daemon closed the socket.
    Closed,
}

pub open spec fn ipc_reply_spec(reply: IpcReply) -> Result<Seq<char>, Seq<char>> {
    match reply {
        IpcReply::Frame(b) => if vstd::utf8::valid_utf8(b@) {
            Ok(vstd::utf8::decode_utf8(b@))
        } else {
            Err("❌ 문자열 복원 찐빠: "@ + utf8_error_text(b@))
        },
        IpcReply::FrameError(e) => Err("❌ 응답 프레임 디코딩 찐빠: "@ + e@),
        IpcReply::Closed => Err("❌ 데몬이 관로를 폐쇄했습니다."@),
    }
}

/// The text of a control-socket reply, or the error to report for it.
pub fn ipc_reply_result(reply: IpcReply) -> (r: Result<String, String>)
    ensures
        match r {
            Ok(s) => ipc_reply_spec(reply) == Ok::<Seq<char>, Seq<char>>(s@),
            Err(e) => ipc_reply_spec(reply) == Err::<Seq<char>, Seq<char>>(e@),
        },
{
    match reply {
        IpcReply::Frame(b) => {
            let ghost bv = b@;
            match string_from_utf8(b) {
                Ok(s) => Ok(s),
                Err(e) => {
                    let mut m = String::from_str("❌ 문자열 복원 찐빠: ");
                    m.append(e.as_str());
                    Err(m)
                },
            }
        },
        IpcReply::FrameError(e) => {
            let mut m = String::from_str("❌ 응답 프레임 디코딩 찐빠: ");
            m.append(e.as_str());
            Err(m)
        },
        IpcReply::Closed => Err(String::from_str("❌ 데몬이 관로를 폐쇄했습니다.")),
    }
}


/// Pool arguments that parse have a name and at least one disk, and every disk
/// is one of the tokens (or was already listed) and looks like a disk: a
/// device path or an alphanumeric name.
pub proof fn law_parsed_pool_is_complete(args: Seq<Seq<char>>, st: PoolArgsView)
    requires
        forall|i: int| 0 <= i < st.disks.len() ==> is_disk_token(#[trigger] st.disks[i]),
        parse_pool_tokens(args, st) is Ok,
    ensures
        ({
            let p = parse_pool_tokens(args, st)->Ok_0;
            &&& p.name.len() > 0
            &&& p.disks.len() > 0
            &&& forall|i: int|
                0 <= i < p.disks.len() ==> is_disk_token(#[trigger] p.disks[i]) && (args.contains(p.disks[i])
                    || st.disks.contains(p.disks[i]))
        }),
    decreases args.len(),
{
    if args.len() > 0 {
        let head = args[0];
        let rest = args.drop_first();
        let next = if head == "--engine"@ || head == "-e"@ {
            (rest.drop_first(), PoolArgsView { engine: rest[0], ..st })
        } else if head == "--raid"@ || head == "-r"@ {
            (rest.drop_first(), PoolArgsView { raid: rest[0], ..st })
        } else if st.name.len() == 0 {
            (rest, PoolArgsView { name: head, ..st })
        } else if is_disk_token(head) {
            (rest, PoolArgsView { disks: st.disks.push(head), ..st })
        } else {
            (rest, st)
        };
        assert(parse_pool_tokens(args, st) == parse_pool_tokens(next.0, next.1));
        assert forall|i: int| 0 <= i < next.1.disks.len() implies is_disk_token(#[trigger] next.1.disks[i]) by {
            if i < st.disks.len() {
                assert(next.1.disks[i] == st.disks[i]);
            }
        }
        law_parsed_pool_is_complete(next.0, next.1);
        let p = parse_pool_tokens(args, st)->Ok_0;
        assert forall|i: int| 0 <= i < p.disks.len() implies is_disk_token(#[trigger] p.disks[i]) && (args.contains(p.disks[i])
            || st.disks.contains(p.disks[i])) by {
            let d = p.disks[i];
            if next.0.contains(d) {
                let k = choose|k: int| 0 <= k < next.0.len() && next.0[k] == d;
                if next.0 == rest {
                    assert(args[k + 1] == d);
                } else {
                    assert(args[k + 2] == rest.drop_first()[k]);
                }
            } else {
                assert(next.1.disks.contains(d));
                let k = choose|k: int| 0 <= k < next.1.disks.len() && next.1.disks[k] == d;
                if k < st.disks.len() {
                    assert(st.disks[k] == d);
                } else {
                    assert(args[0] == d);
                }
            }
        }
    }
}

/// The parts of an uptime recompose it: years, months (at most 12), days
/// (below 30), hours, minutes and seconds (each below the next unit).
pub proof fn law_uptime_parts_recompose(t: nat)
    ensures
        ({
            let years = t / secs_per_year();
            let rem = t % secs_per_year();
            let months = rem / secs_per_month();
            let rem_days = rem % secs_per_month();
            let days = rem_days / secs_per_day();
            let rem_hours = rem_days % secs_per_day();
            let hours = rem_hours / 3600;
            let rem_mins = rem_hours % 3600;
            let minutes = rem_mins / 60;
            let seconds = rem_mins % 60;
            &&& t == years * secs_per_year() + months * secs_per_month() + days * secs_per_day() + hours * 3600 + minutes
                * 60 + seconds
            &&& months <= 12
            &&& days < 30
            &&& hours < 24
            &&& minutes < 60
            &&& seconds < 60
        }),
{
    let y = secs_per_year();
    let mo = secs_per_month();
    let dd = secs_per_day();
    assert(y == 31536000 && mo == 2592000 && dd == 86400);
    let rem = t % y;
    let rem_days = rem % mo;
    let rem_hours = rem_days % dd;
    let rem_mins = rem_hours % 3600;
    assert(t == (t / y) * y + rem && rem < y) by (nonlinear_arith)
        requires
            y == 31536000,
            rem == t % y;
    assert(rem == (rem / mo) * mo + rem_days && rem_days < mo) by (nonlinear_arith)
        requires
            mo == 2592000,
            rem_days == rem % mo;
    assert(rem / mo <= 12) by (nonlinear_arith)
        requires
            mo == 2592000,
            rem < 31536000;
    assert(rem_days == (rem_days / dd) * dd + rem_hours && rem_hours < dd) by (nonlinear_arith)
        requires
            dd == 86400,
            rem_hours == rem_days % dd;
    assert(rem_days / dd < 30) by (nonlinear_arith)
        requires
            dd == 86400,
            rem_days < 2592000;
    assert(rem_hours == (rem_hours / 3600) * 3600 + rem_mins && rem_mins < 3600) by (nonlinear_arith)
        requires
            rem_mins == rem_hours % 3600;
    assert(rem_hours / 3600 < 24) by (nonlinear_arith)
        requires
            rem_hours < 86400;
    assert(rem_mins == (rem_mins / 60) * 60 + rem_mins % 60 && rem_mins % 60 < 60) by (nonlinear_arith);
    assert(rem_mins / 60 < 60) by (nonlinear_arith)
        requires
            rem_mins < 3600;
}

/// A gauge of at most one hundred percent is exactly `width` cells wide.
pub proof fn law_gauge_width(percentage: nat, width: nat)
    requires
        percentage <= 100,
    ensures
        gauge_text(percentage, width).len() == width,
{
    assert(percentage * width / 100 <= width) by (nonlinear_arith)
        requires
            percentage <= 100;
}

proof fn lemma_flag_words_differ()
    ensures
        "--raid"@ != "--engine"@,
        "--raid"@ != "-e"@,
        "-r"@ != "--engine"@,
        "-r"@ != "-e"@,
{
    reveal_strlit("--raid");
    reveal_strlit("--engine");
    reveal_strlit("-e");
    reveal_strlit("-r");
    assert("--raid"@.len() == 6);
    assert("--engine"@.len() == 8);
    assert("-e"@.len() == 2);
    assert("-r"@.len() == 2);
    assert("-r"@[1] != "-e"@[1]);
}

/// The value flags take the token after them as their value, and the long
/// and short spellings mean the same: `--engine v` and `-e v` set the engine
/// to `v`, `--raid v` and `-r v` set the RAID text to `v`, and parsing goes on
/// with the tokens after the value; a flag with no token after it fails.
pub proof fn law_value_flags(rest: Seq<Seq<char>>, v: Seq<char>, st: PoolArgsView)
    ensures
        parse_pool_tokens(seq!["--engine"@, v] + rest, st) == parse_pool_tokens(rest, PoolArgsView { engine: v, ..st }),
        parse_pool_tokens(seq!["-e"@, v] + rest, st) == parse_pool_tokens(rest, PoolArgsView { engine: v, ..st }),
        parse_pool_tokens(seq!["--raid"@, v] + rest, st) == parse_pool_tokens(rest, PoolArgsView { raid: v, ..st }),
        parse_pool_tokens(seq!["-r"@, v] + rest, st) == parse_pool_tokens(rest, PoolArgsView { raid: v, ..st }),
        parse_pool_tokens(seq!["--engine"@], st) is Err,
        parse_pool_tokens(seq!["-e"@], st) is Err,
        parse_pool_tokens(seq!["--raid"@], st) is Err,
        parse_pool_tokens(seq!["-r"@], st) is Err,
{
    lemma_flag_words_differ();
    assert((seq!["--engine"@, v] + rest)[0] == "--engine"@);
    assert((seq!["--engine"@, v] + rest).drop_first() =~= seq![v] + rest);
    assert((seq!["-e"@, v] + rest)[0] == "-e"@);
    assert((seq!["-e"@, v] + rest).drop_first() =~= seq![v] + rest);
    assert((seq!["--raid"@, v] + rest)[0] == "--raid"@);
    assert((seq!["--raid"@, v] + rest).drop_first() =~= seq![v] + rest);
    assert((seq!["-r"@, v] + rest)[0] == "-r"@);
    assert((seq!["-r"@, v] + rest).drop_first() =~= seq![v] + rest);
    assert((seq![v] + rest)[0] == v);
    assert((seq![v] + rest).drop_first() =~= rest);
    assert((seq!["--engine"@, v] + rest).drop_first().drop_first() =~= rest);
    assert((seq!["-e"@, v] + rest).drop_first().drop_first() =~= rest);
    assert((seq!["--raid"@, v] + rest).drop_first().drop_first() =~= rest);
    assert((seq!["-r"@, v] + rest).drop_first().drop_first() =~= rest);
    assert(seq!["--engine"@].drop_first().len() == 0);
    assert(seq!["-e"@].drop_first().len() == 0);
    assert(seq!["--raid"@].drop_first().len() == 0);
    assert(seq!["-r"@].drop_first().len() == 0);
}

/// The uptime text ends with the time of day, in order: the hours of the
/// current day (0 to 23) before `시간`, then the minutes of the hour before
/// `분`, then the seconds of the minute before `초`; only years, months and
/// days come before them.
pub proof fn law_uptime_ends_with_time_of_day(t: nat)
    ensures
        ({
            let tod = decimal((t % 86400) / 3600) + "시간 "@ + decimal((t % 3600) / 60) + "분 "@ + decimal(t % 60)
                + "초"@;
            &&& uptime_text(t).len() >= tod.len()
            &&& uptime_text(t).skip(uptime_text(t).len() - tod.len()) == tod
            &&& t < 86400 ==> uptime_text(t) == tod
        }),
{
    let ti = t as int;
    let rem = ti % 31536000;
    let rem_days = rem % 2592000;
    let rem_hours = rem_days % 86400;
    vstd::arithmetic::div_mod::lemma_mod_mod(ti, 86400, 365);
    vstd::arithmetic::div_mod::lemma_mod_mod(rem, 86400, 30);
    assert((ti % (86400int * 365int)) % 86400 == ti % 86400);
    assert((rem % (86400int * 30int)) % 86400 == rem % 86400);
    assert(rem_hours == ti % 86400);
    vstd::arithmetic::div_mod::lemma_mod_mod(ti, 3600, 24);
    assert((ti % (3600int * 24int)) % 3600 == ti % 3600);
    vstd::arithmetic::div_mod::lemma_mod_mod(ti, 60, 60);
    assert((ti % (60int * 60int)) % 60 == ti % 60);
    let years = t / secs_per_year();
    let months = (t % secs_per_year()) / secs_per_month();
    let days = ((t % secs_per_year()) % secs_per_month()) / secs_per_day();
    let prefix = (if years > 0 { decimal(years) + "년 "@ } else { seq![] }) + (if months > 0 {
        decimal(months) + "개월 "@
    } else {
        seq![]
    }) + (if days > 0 { decimal(days) + "일 "@ } else { seq![] });
    let tod = decimal((t % 86400) / 3600) + "시간 "@ + decimal((t % 3600) / 60) + "분 "@ + decimal(t % 60) + "초"@;
    assert(uptime_text(t) =~= prefix + tod);
    if t < 86400 {
        assert(prefix =~= Seq::<char>::empty());
        assert(prefix + tod =~= tod);
    }
    assert((prefix + tod).skip(prefix.len() as int) =~= tod);
}

/// A gauge shows `percentage * width / 100` full blocks (rounded down) and
/// then light shade up to `width` cells: every cell before that count is a
/// full block and every later cell is shaded.
pub proof fn law_gauge_cells(percentage: nat, width: nat)
    ensures
        gauge_text(percentage, width).len() == if percentage * width / 100 >= width {
            percentage * width / 100
        } else {
            width
        },
        forall|i: int|
            0 <= i < gauge_text(percentage, width).len() ==> #[trigger] gauge_text(percentage, width)[i] == if i
                < percentage * width / 100 {
                '█'
            } else {
                '░'
            },
{
}

} // verus!
