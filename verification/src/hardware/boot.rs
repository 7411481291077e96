//! The boot-time check that every command-line tool the storage pipeline and
//! its rollback use is installed.

use vstd::prelude::*;
use crate::text::{strings_view, push_string};

verus! {

/// The boot inspector.
pub struct BootInspector;

/// The tools that must be installed, in the order they are checked.
pub open spec fn essential_tools_spec() -> Seq<Seq<char>> {
    seq![
        "sfdisk"@, "mdadm"@, "pvcreate"@, "vgcreate"@, "lvcreate"@, "pvremove"@, "vgremove"@, "lvremove"@,
        "mkfs.btrfs"@, "mkdir"@, "mount"@, "umount"@, "rmdir"@, "findmnt"@, "zpool"@, "dd"@, "blockdev"@,
    ]
}

/// The tools (in check order) whose flag in `present` is false.
pub open spec fn missing_tools(tools: Seq<Seq<char>>, present: Seq<bool>) -> Seq<Seq<char>>
    decreases tools.len(),
{
    if tools.len() == 0 || present.len() == 0 {
        seq![]
    } else {
        let r = missing_tools(tools.drop_last(), present.drop_last());
        if present.last() {
            r
        } else {
            r.push(tools.last())
        }
    }
}

/// The `Debug` rendering of a list of tool names: quoted, comma-separated, in
/// brackets (none of the names holds a character that `Debug` escapes).
pub open spec fn quoted_list(items: Seq<Seq<char>>) -> Seq<char>
    decreases items.len(),
{
    if items.len() == 0 {
        seq![]
    } else if items.len() == 1 {
        "\""@ + items[0] + "\""@
    } else {
        quoted_list(items.drop_last()) + ", \""@ + items.last() + "\""@
    }
}

pub open spec fn integrity_verdict_spec(present: Seq<bool>) -> Result<(), Seq<char>> {
    let m = missing_tools(essential_tools_spec(), present);
    if m.len() == 0 {
        Ok(())
    } else {
        Err("❌ 필수 도구 누락으로 부팅 거부: ["@ + quoted_list(m) + "]"@)
    }
}

impl BootInspector {
    /// The tools that must be installed, in check order.
    pub fn essential_tools() -> (r: Vec<String>)
        ensures
            strings_view(r@) == essential_tools_spec(),
    {
        let mut v: Vec<String> = Vec::new();
        push_string(&mut v, String::from_str("sfdisk"));
        push_string(&mut v, String::from_str("mdadm"));
        push_string(&mut v, String::from_str("pvcreate"));
        push_string(&mut v, String::from_str("vgcreate"));
        push_string(&mut v, String::from_str("lvcreate"));
        push_string(&mut v, String::from_str("pvremove"));
        push_string(&mut v, String::from_str("vgremove"));
        push_string(&mut v, String::from_str("lvremove"));
        push_string(&mut v, String::from_str("mkfs.btrfs"));
        push_string(&mut v, String::from_str("mkdir"));
        push_string(&mut v, String::from_str("mount"));
        push_string(&mut v, String::from_str("umount"));
        push_string(&mut v, String::from_str("rmdir"));
        push_string(&mut v, String::from_str("findmnt"));
        push_string(&mut v, String::from_str("zpool"));
        push_string(&mut v, String::from_str("dd"));
        push_string(&mut v, String::from_str("blockdev"));
        assert(strings_view(v@) =~= essential_tools_spec());
        v
    }

    /// The boot verdict from whether each essential tool was found
    /// (`present[i]` for the `i`-th tool): allowed when none is missing,
    /// otherwise refused with the list of the missing ones.
    pub fn integrity_verdict(present: &Vec<bool>) -> (r: Result<(), String>)
        requires
            present.len() == essential_tools_spec().len(),
        ensures
            match r {
                Ok(()) => integrity_verdict_spec(present@) == Ok::<(), Seq<char>>(()),
                Err(e) => integrity_verdict_spec(present@) == Err::<(), Seq<char>>(e@),
            },
    {
        let tools = Self::essential_tools();
        let ghost tv = strings_view(tools@);
        let mut listed = String::new();
        let mut count: usize = 0;
        let mut i: usize = 0;
        while i < tools.len()
            invariant
                i <= tools.len(),
                tools.len() == present.len(),
                tv == strings_view(tools@),
                count <= i,
                count == missing_tools(tv.take(i as int), present@.take(i as int)).len(),
                listed@ == quoted_list(missing_tools(tv.take(i as int), present@.take(i as int))),
            decreases tools.len() - i,
        {
            assert(tv.take(i + 1).drop_last() =~= tv.take(i as int));
            assert(present@.take(i + 1).drop_last() =~= present@.take(i as int));
            if !present[i] {
                let ghost m = missing_tools(tv.take(i as int), present@.take(i as int));
                if count > 0 {
                    listed.append(", \"");
                } else {
                    listed.append("\"");
                }
                listed.append(tools[i].as_str());
                listed.append("\"");
                proof {
                    let m2 = m.push(tv[i as int]);
                    assert(m2.drop_last() =~= m);
                    if m.len() == 0 {
                        assert(listed@ =~= quoted_list(m2));
                    }
                }
                count = count + 1;
            }
            i = i + 1;
        }
        assert(tv.take(tools.len() as int) =~= tv);
        assert(present@.take(tools.len() as int) =~= present@);
        if count == 0 {
            return Ok(());
        }
        let mut e = String::from_str("❌ 필수 도구 누락으로 부팅 거부: [");
        e.append(listed.as_str());
        e.append("]");
        Err(e)
    }
}

} // verus!
