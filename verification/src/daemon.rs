//! The daemon's decisions on its control socket: who may talk to it, whether
//! it serves or forwards to an already running daemon, and what a request asks.

use vstd::prelude::*;
use crate::common::{IpcRequest, PoolArgs, PoolArgsView, parse_pool_tokens, parse_pool_args_recursive};
use crate::text::{strings_view, str_equals, chars_of, slice_chars, string_from_chars, clone_strings};

verus! {

/// Whether a peer with user id `uid` may use the control socket: root, or a
/// user on the allowed list.
pub fn peer_allowed(uid: u32, allowed_uids: &Vec<u32>) -> (r: bool)
    ensures
        r == (uid == 0 || allowed_uids@.contains(uid)),
{
    if uid == 0 {
        return true;
    }
    let mut i: usize = 0;
    while i < allowed_uids.len()
        invariant
            i <= allowed_uids.len(),
            forall|k: int| 0 <= k < i ==> allowed_uids@[k] != uid,
        decreases allowed_uids.len() - i,
    {
        if allowed_uids[i] == uid {
            assert(allowed_uids@[i as int] == uid);
            return true;
        }
        i = i + 1;
    }
    false
}

/// The role of a starting daemon.
#[derive(Debug, Clone, Copy, PartialEq, Eq, Structural)]
pub enum SocketRole {
    /// Serve on the configured socket, first removing a stale socket file.
    Primary { remove_stale: bool },
    /// Another daemon answers on the socket: forward requests to it from a
    /// socket of its own.
    Proxy,
}

/// The role from whether the socket file exists and whether a daemon answers on it.
pub fn socket_role(socket_exists: bool, primary_reachable: bool) -> (r: SocketRole)
    ensures
        socket_exists && primary_reachable ==> r == SocketRole::Proxy,
        socket_exists && !primary_reachable ==> r == (SocketRole::Primary { remove_stale: true }),
        !socket_exists ==> r == (SocketRole::Primary { remove_stale: false }),
{
    if socket_exists {
        if primary_reachable {
            SocketRole::Proxy
        } else {
            SocketRole::Primary { remove_stale: true }
        }
    } else {
        SocketRole::Primary { remove_stale: false }
    }
}

/// The proxy's own socket: the configured path, `_`, and the first four
/// characters of a fresh identifier.
pub fn proxy_socket_path(socket_path: &str, id_text: &str) -> (r: String)
    requires
        id_text@.len() >= 4,
    ensures
        r@ == socket_path@ + "_"@ + id_text@.take(4),
{
    let c = chars_of(id_text);
    let head = slice_chars(c.as_slice(), 0, 4);
    assert(head@ =~= id_text@.take(4));
    let mut r = String::from_str(socket_path);
    r.append("_");
    r.append(string_from_chars(head.as_slice()).as_str());
    r
}

/// What a control request asks for.
#[derive(Debug)]
pub enum DaemonAction {
    /// One status snapshot.
    StatusOnce,
    /// A status snapshot every half second until the client leaves.
    StatusWatch,
    /// Build a pool with these arguments.
    CreatePool(PoolArgs),
    /// The pool arguments do not parse: the parser's error.
    BadPoolArgs(String),
    /// The list of disks.
    DiskList,
    /// The health report of every disk.
    DiskScan,
    /// The health report of one disk (`all` for every disk).
    DiskSmart(String),
    /// An unknown command.
    Unknown,
}

proof fn lemma_request_words_differ()
    ensures
        "status"@ != "create_pool"@,
        "status"@ != "disk_list"@,
        "status"@ != "disk_scan"@,
        "status"@ != "disk_smart"@,
        "create_pool"@ != "disk_list"@,
        "create_pool"@ != "disk_scan"@,
        "create_pool"@ != "disk_smart"@,
        "disk_list"@ != "disk_scan"@,
        "disk_list"@ != "disk_smart"@,
        "disk_scan"@ != "disk_smart"@,
{
    reveal_strlit("status");
    reveal_strlit("create_pool");
    reveal_strlit("disk_list");
    reveal_strlit("disk_scan");
    reveal_strlit("disk_smart");
    assert("status"@.len() == 6);
    assert("create_pool"@.len() == 11);
    assert("disk_list"@.len() == 9);
    assert("disk_scan"@.len() == 9);
    assert("disk_smart"@.len() == 10);
    assert("disk_list"@[5] != "disk_scan"@[5]);
}

pub open spec fn empty_pool_args() -> PoolArgsView {
    PoolArgsView { name: seq![], engine: seq![], raid: seq![], disks: seq![] }
}

/// `status` asks for the status, watched when an argument is `w`;
/// `create_pool` for a pool built from its arguments (see
/// [`parse_pool_tokens`]); `disk_list`, `disk_scan` and `disk_smart` (with the
/// disk as its first argument) for the disk subsystem; anything else is unknown.
pub fn classify_request(req: &IpcRequest) -> (r: DaemonAction)
    ensures
        req.cmd@ == "status"@ && strings_view(req.args@).contains("w"@) ==> r is StatusWatch,
        req.cmd@ == "status"@ && !strings_view(req.args@).contains("w"@) ==> r is StatusOnce,
        req.cmd@ == "create_pool"@ ==> match parse_pool_tokens(strings_view(req.args@), empty_pool_args()) {
            Ok(p) => (r matches DaemonAction::CreatePool(a) && a@ == p),
            Err(e) => (r matches DaemonAction::BadPoolArgs(m) && m@ == e),
        },
        req.cmd@ == "disk_list"@ ==> r is DiskList,
        req.cmd@ == "disk_scan"@ ==> r is DiskScan,
        req.cmd@ == "disk_smart"@ && req.args.len() >= 1 ==> (r matches DaemonAction::DiskSmart(n) && n@ == req.args@[0]@),
        req.cmd@ == "disk_smart"@ && req.args.len() == 0 ==> r is Unknown,
        req.cmd@ != "status"@ && req.cmd@ != "create_pool"@ && req.cmd@ != "disk_list"@ && req.cmd@ != "disk_scan"@
            && req.cmd@ != "disk_smart"@ ==> r is Unknown,
{
    proof {
        lemma_request_words_differ();
    }
    let c = req.cmd.as_str();
    if str_equals(c, "create_pool") {
        let empty = PoolArgs { name: String::new(), engine: String::new(), raid: String::new(), disks: Vec::new() };
        assert(empty@.disks =~= Seq::<Seq<char>>::empty());
        assert(empty@ == empty_pool_args());
        return match parse_pool_args_recursive(clone_strings(&req.args), empty) {
            Ok(p) => DaemonAction::CreatePool(p),
            Err(e) => DaemonAction::BadPoolArgs(e),
        };
    }
    if str_equals(c, "disk_list") {
        return DaemonAction::DiskList;
    }
    if str_equals(c, "disk_scan") {
        return DaemonAction::DiskScan;
    }
    if str_equals(c, "disk_smart") {
        if req.args.len() == 0 {
            return DaemonAction::Unknown;
        }
        return DaemonAction::DiskSmart(req.args[0].clone());
    }
    if !str_equals(c, "status") {
        return DaemonAction::Unknown;
    }
    let ghost av = strings_view(req.args@);
    let mut i: usize = 0;
    while i < req.args.len()
        invariant
            i <= req.args.len(),
            av == strings_view(req.args@),
            req.cmd@ == "status"@,
            forall|k: int| 0 <= k < i ==> av[k] != "w"@,
        decreases req.args.len() - i,
    {
        if str_equals(req.args[i].as_str(), "w") {
            assert(av[i as int] == "w"@);
            proof {
                lemma_request_words_differ();
            }
            return DaemonAction::StatusWatch;
        }
        i = i + 1;
    }
    DaemonAction::StatusOnce
}

/// The reply to an unknown command.
pub fn unknown_command_reply() -> (r: String)
    ensures
        r@ == "🔴 [가람OS] 알 수 없는 명령어입니다"@,
{
    String::from_str("🔴 [가람OS] 알 수 없는 명령어입니다")
}

} // verus!
