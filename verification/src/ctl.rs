//! The command-line tool's logic: which control request each command sends,
//! how its answer is shown, and the lines of the disk list.

use vstd::prelude::*;
use crate::common::IpcRequest;
use crate::text::{strings_view, str_equals, push_string, clone_strings, extend_strings, push_char};

verus! {

/// The disk subcommands of the tool.
pub enum DisksCommand {
    List,
    Scan,
    Smart { name: String },
}

/// The commands of the tool.
pub enum CtlCommand {
    /// The system status, once or refreshed continuously.
    Status { watch: bool },
    /// The power status.
    Power,
    /// Create a storage pool.
    PoolCreate { name: String, engine: String, raid: String, disks: Vec<String> },
    /// The disk subsystem.
    Disks(DisksCommand),
    /// Print the shell completion script.
    Complete,
}

pub struct RequestView {
    pub cmd: Seq<char>,
    pub args: Seq<Seq<char>>,
}

pub open spec fn request_view(r: IpcRequest) -> RequestView {
    RequestView { cmd: r.cmd@, args: strings_view(r.args@) }
}

/// The control request of a command; `None` for the completion script, which
/// needs no daemon.
pub open spec fn request_for(c: CtlCommand) -> Option<RequestView> {
    match c {
        CtlCommand::Status { watch } => Some(
            RequestView { cmd: "status"@, args: if watch { seq!["w"@] } else { seq![] } },
        ),
        CtlCommand::Power => Some(RequestView { cmd: "status"@, args: seq![] }),
        CtlCommand::PoolCreate { name, engine, raid, disks } => Some(
            RequestView {
                cmd: "create_pool"@,
                args: seq![name@, "-e"@, engine@, "-r"@, raid@] + strings_view(disks@),
            },
        ),
        CtlCommand::Disks(d) => match d {
            DisksCommand::List => Some(RequestView { cmd: "disk_list"@, args: seq![] }),
            DisksCommand::Scan => Some(RequestView { cmd: "disk_scan"@, args: seq![] }),
            DisksCommand::Smart { name } => Some(RequestView { cmd: "disk_smart"@, args: seq![name@] }),
        },
        CtlCommand::Complete => None,
    }
}

fn request(cmd: &str, args: Vec<String>) -> (r: IpcRequest)
    ensures
        request_view(r) == (RequestView { cmd: cmd@, args: strings_view(args@) }),
{
    IpcRequest { cmd: String::from_str(cmd), args }
}

/// The control request of a command: see [`request_for`].
pub fn ipc_request_for(command: &CtlCommand) -> (r: Option<IpcRequest>)
    ensures
        match r {
            Some(q) => request_for(*command) == Some(request_view(q)),
            None => request_for(*command) is None,
        },
{
    match command {
        CtlCommand::Status { watch } => {
            let mut args: Vec<String> = Vec::new();
            if *watch {
                push_string(&mut args, String::from_str("w"));
            }
            assert(strings_view(args@) =~= (if *watch { seq!["w"@] } else { Seq::<Seq<char>>::empty() }));
            Some(request("status", args))
        },
        CtlCommand::Power => {
            let args: Vec<String> = Vec::new();
            assert(strings_view(args@) =~= Seq::<Seq<char>>::empty());
            Some(request("status", args))
        },
        CtlCommand::PoolCreate { name, engine, raid, disks } => {
            let mut args: Vec<String> = Vec::new();
            push_string(&mut args, name.clone());
            push_string(&mut args, String::from_str("-e"));
            push_string(&mut args, engine.clone());
            push_string(&mut args, String::from_str("-r"));
            push_string(&mut args, raid.clone());
            extend_strings(&mut args, disks);
            assert(strings_view(args@) =~= seq![name@, "-e"@, engine@, "-r"@, raid@] + strings_view(disks@));
            Some(request("create_pool", args))
        },
        CtlCommand::Disks(d) => match d {
            DisksCommand::List => {
                let args: Vec<String> = Vec::new();
                assert(strings_view(args@) =~= Seq::<Seq<char>>::empty());
                Some(request("disk_list", args))
            },
            DisksCommand::Scan => {
                let args: Vec<String> = Vec::new();
                assert(strings_view(args@) =~= Seq::<Seq<char>>::empty());
                Some(request("disk_scan", args))
            },
            DisksCommand::Smart { name } => {
                let mut args: Vec<String> = Vec::new();
                push_string(&mut args, name.clone());
                assert(strings_view(args@) =~= seq![name@]);
                Some(request("disk_smart", args))
            },
        },
        CtlCommand::Complete => None,
    }
}

/// How the tool shows a one-shot answer.
#[derive(Debug, Clone, Copy, PartialEq, Eq, Structural)]
pub enum ReplyDisplay {
    SystemStatus,
    PowerStatus,
    DiskList,
    Raw,
}

/// The view of a one-shot answer: the status board, the power board, the disk
/// table, or the raw text for everything else.
pub fn reply_display_for(command: &CtlCommand) -> (r: ReplyDisplay)
    ensures
        *command matches CtlCommand::Status { watch } && !watch ==> r == ReplyDisplay::SystemStatus,
        *command matches CtlCommand::Power ==> r == ReplyDisplay::PowerStatus,
        *command matches CtlCommand::Disks(DisksCommand::List) ==> r == ReplyDisplay::DiskList,
        !(*command matches CtlCommand::Status { watch } && !watch) && !(*command matches CtlCommand::Power)
            && !(*command matches CtlCommand::Disks(DisksCommand::List)) ==> r == ReplyDisplay::Raw,
{
    match command {
        CtlCommand::Status { watch } => if *watch {
            ReplyDisplay::Raw
        } else {
            ReplyDisplay::SystemStatus
        },
        CtlCommand::Power => ReplyDisplay::PowerStatus,
        CtlCommand::Disks(DisksCommand::List) => ReplyDisplay::DiskList,
        _ => ReplyDisplay::Raw,
    }
}

/// `s` padded with spaces on the right to at least `width` characters (the
/// `{:<width}` format).
pub open spec fn pad_right(s: Seq<char>, width: nat) -> Seq<char> {
    if s.len() >= width {
        s
    } else {
        s + Seq::new((width - s.len()) as nat, |i: int| ' ')
    }
}

/// The note of a disk in the disk table: `sda` is marked as the system disk.
pub open spec fn disk_note(name: Seq<char>) -> Seq<char> {
    if name == "sda"@ {
        "🔒 SYSTEM OS ROLE"@
    } else {
        "可 (데이터 풀 가용)"@
    }
}

/// One row of the disk table.
pub open spec fn disk_list_row(name: Seq<char>) -> Seq<char> {
    "   /dev/"@ + pad_right(name, 8) + " |   disk   |  "@ + disk_note(name)
}

/// One row of the disk table: see [`disk_list_row`].
pub fn disk_list_line(disk_name: &str) -> (r: String)
    ensures
        r@ == disk_list_row(disk_name@),
{
    let mut r = String::from_str("   /dev/");
    let ghost head = r@;
    r.append(disk_name);
    let n = disk_name.unicode_len();
    let mut k: usize = n;
    assert(r@ =~= head + disk_name@ + Seq::new((k - n) as nat, |i: int| ' '));
    while k < 8
        invariant
            n == disk_name@.len(),
            n <= k,
            n <= 8 ==> k <= 8,
            n > 8 ==> k == n,
            r@ == head + disk_name@ + Seq::new((k - n) as nat, |i: int| ' '),
        decreases 8 - k,
    {
        push_char(&mut r, ' ');
        k = k + 1;
        assert(r@ =~= head + disk_name@ + Seq::new((k - n) as nat, |i: int| ' '));
    }
    if n < 8 {
        assert(k == 8);
    }
    assert(r@ =~= head + pad_right(disk_name@, 8));
    r.append(" |   disk   |  ");
    if str_equals(disk_name, "sda") {
        r.append("🔒 SYSTEM OS ROLE");
    } else {
        r.append("可 (데이터 풀 가용)");
    }
    r
}

/// The items of the array member `key` of the JSON document `text` as
/// serde_json reads it: one entry per element, the string of a JSON string
/// and `None` for any other element; no items when the member is missing or
/// is not an array; `None` when serde_json refuses the text.
pub uninterp spec fn json_array_member_items(text: Seq<char>, key: Seq<char>) -> Option<Seq<Option<Seq<char>>>>;

pub open spec fn optional_strings_view(v: Seq<Option<String>>) -> Seq<Option<Seq<char>>> {
    v.map_values(
        |o: Option<String>|
            match o {
                Some(s) => Some(s@),
                None => None,
            },
    )
}

/// serde_json `from_str::<Value>` and `Index` by a string, read down to the
/// string elements of the member array: see [`json_array_member_items`].
#[verifier::external_body]
fn json_member_strings(text: &str, key: &str) -> (r: Option<Vec<Option<String>>>)
    ensures
        match r {
            Some(v) => json_array_member_items(text@, key@) == Some(optional_strings_view(v@)),
            None => json_array_member_items(text@, key@) is None,
        },
{
    let v = serde_json::from_str::<serde_json::Value>(text).ok()?;
    match &v[key] {
        serde_json::Value::Array(a) => Some(
            a.iter().map(|e| match e {
                serde_json::Value::String(s) => Some(s.clone()),
                _ => None,
            }).collect(),
        ),
        _ => Some(Vec::new()),
    }
}

/// The table rows of the string items, in order; other items give no row.
pub open spec fn disk_rows(items: Seq<Option<Seq<char>>>) -> Seq<Seq<char>>
    decreases items.len(),
{
    if items.len() == 0 {
        seq![]
    } else {
        let r = disk_rows(items.drop_last());
        match items.last() {
            Some(n) => r.push(disk_list_row(n)),
            None => r,
        }
    }
}

/// The rows of the disk table for the daemon's `disk_list` answer: one row
/// per name in its `disks` array; `None` when the answer is not JSON.
pub fn disk_list_rows(json_raw: &str) -> (r: Option<Vec<String>>)
    ensures
        r is None <==> json_array_member_items(json_raw@, "disks"@) is None,
        r matches Some(rows) ==> strings_view(rows@) == disk_rows(json_array_member_items(json_raw@, "disks"@)->Some_0),
{
    let items = match json_member_strings(json_raw, "disks") {
        Some(v) => v,
        None => return None,
    };
    let ghost iv = optional_strings_view(items@);
    let mut rows: Vec<String> = Vec::new();
    let mut i: usize = 0;
    assert(iv.take(0) =~= Seq::<Option<Seq<char>>>::empty());
    while i < items.len()
        invariant
            i <= items.len(),
            iv == optional_strings_view(items@),
            strings_view(rows@) == disk_rows(iv.take(i as int)),
        decreases items.len() - i,
    {
        assert(iv.take(i + 1).drop_last() =~= iv.take(i as int));
        assert(iv.take(i + 1).last() == iv[i as int]);
        match &items[i] {
            Some(name) => {
                let line = disk_list_line(name.as_str());
                let ghost before = strings_view(rows@);
                push_string(&mut rows, line);
                assert(strings_view(rows@) =~= before.push(line@));
            },
            None => {},
        }
        i = i + 1;
    }
    assert(iv.take(items.len() as int) =~= iv);
    Some(rows)
}

} // verus!
