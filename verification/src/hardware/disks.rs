//! Disk inventory: which block devices are disks, which one holds the root
//! file system, and the text reports built from `lsblk` and `smartctl` output.

use vstd::prelude::*;
use crate::text::{
    has_prefix, has_infix, strings_view, str_equals, chars_of, starts_with_chars, contains_chars, push_string,
    clone_strings, trim_ws, trim_end_ws, trim_chars, string_from_chars, unicode_white_space, unicode_alphabetic,
    char_is_alphabetic, char_is_whitespace, utf8_lossy_text, string_from_utf8_lossy, find_char,
    find_char_exec, slice_chars, lemma_find_char, push_char, lines_of, lines_exec, chars_seqs_view, colon_field,
    colon_field_exec, last_word, last_word_exec,
};

verus! {

/// Lexicographic order of character sequences by code point (the order of
/// std's `Ord` on `String`, since UTF-8 keeps code point order).
pub open spec fn lex_le(a: Seq<char>, b: Seq<char>) -> bool
    decreases a.len(),
{
    if a.len() == 0 {
        true
    } else if b.len() == 0 {
        false
    } else if a[0] < b[0] {
        true
    } else if a[0] > b[0] {
        false
    } else {
        lex_le(a.drop_first(), b.drop_first())
    }
}

pub proof fn lemma_lex_total(a: Seq<char>, b: Seq<char>)
    ensures
        lex_le(a, b) || lex_le(b, a),
    decreases a.len(),
{
    if a.len() > 0 && b.len() > 0 && a[0] == b[0] {
        lemma_lex_total(a.drop_first(), b.drop_first());
    }
}

pub proof fn lemma_lex_trans(a: Seq<char>, b: Seq<char>, c: Seq<char>)
    requires
        lex_le(a, b),
        lex_le(b, c),
    ensures
        lex_le(a, c),
    decreases a.len(),
{
    if a.len() > 0 && b.len() > 0 && c.len() > 0 && a[0] == b[0] && b[0] == c[0] {
        lemma_lex_trans(a.drop_first(), b.drop_first(), c.drop_first());
    }
}

/// Inserts `x` after every name not above it.
pub open spec fn insert_name(s: Seq<Seq<char>>, x: Seq<char>) -> Seq<Seq<char>>
    decreases s.len(),
{
    if s.len() == 0 {
        seq![x]
    } else if lex_le(s.last(), x) {
        s.push(x)
    } else {
        insert_name(s.drop_last(), x).push(s.last())
    }
}

/// The names in ascending order (std `sort` on a list of strings).
pub open spec fn sort_names(s: Seq<Seq<char>>) -> Seq<Seq<char>>
    decreases s.len(),
{
    if s.len() == 0 {
        s
    } else {
        insert_name(sort_names(s.drop_last()), s.last())
    }
}

pub open spec fn names_sorted(s: Seq<Seq<char>>) -> bool {
    forall|i: int, j: int| 0 <= i <= j < s.len() ==> lex_le(s[i], s[j])
}

proof fn lemma_insert_name(s: Seq<Seq<char>>, x: Seq<char>)
    ensures
        insert_name(s, x).len() == s.len() + 1,
        insert_name(s, x).to_multiset() == s.to_multiset().insert(x),
        names_sorted(s) ==> names_sorted(insert_name(s, x)),
    decreases s.len(),
{
    broadcast use vstd::seq_lib::group_to_multiset_ensures;
    if s.len() == 0 {
        assert(seq![x] =~= Seq::<Seq<char>>::empty().push(x));
        lemma_lex_total(x, x);
    } else if lex_le(s.last(), x) {
        if names_sorted(s) {
            let r = s.push(x);
            assert forall|i: int, j: int| 0 <= i <= j < r.len() implies lex_le(r[i], r[j]) by {
                if j == r.len() - 1 && i < j {
                    lemma_lex_trans(s[i], s.last(), x);
                } else if i == j {
                    lemma_lex_total(r[i], r[i]);
                }
            }
        }
    } else {
        let d = s.drop_last();
        lemma_insert_name(d, x);
        let i = insert_name(d, x);
        let r = i.push(s.last());
        assert(s =~= d.push(s.last()));
        assert(d.to_multiset().insert(s.last()).insert(x) =~= d.to_multiset().insert(x).insert(s.last()));
        if names_sorted(s) {
            lemma_lex_total(s.last(), x);
            assert forall|a: int, b: int| 0 <= a <= b < r.len() implies lex_le(r[a], r[b]) by {
                if b == r.len() - 1 && a < b {
                    let e = r[a];
                    assert(i.to_multiset().count(e) > 0);
                    assert(d.to_multiset().insert(x).count(e) > 0);
                    if e != x {
                        assert(d.to_multiset().count(e) > 0);
                        assert(d.contains(e));
                        let m = choose|m: int| 0 <= m < d.len() && d[m] == e;
                        assert(s[m] == e);
                    }
                } else if a == b {
                    lemma_lex_total(r[a], r[a]);
                } else {
                    assert(r[a] == i[a] && r[b] == i[b]);
                }
            }
        }
    }
}

/// Sorting gives an ascending permutation of the names.
pub proof fn lemma_sort_names(s: Seq<Seq<char>>)
    ensures
        sort_names(s).len() == s.len(),
        sort_names(s).to_multiset() == s.to_multiset(),
        names_sorted(sort_names(s)),
    decreases s.len(),
{
    broadcast use vstd::seq_lib::group_to_multiset_ensures;
    if s.len() > 0 {
        lemma_sort_names(s.drop_last());
        lemma_insert_name(sort_names(s.drop_last()), s.last());
        assert(s =~= s.drop_last().push(s.last()));
    }
}

fn lex_le_exec(a: &[char], b: &[char]) -> (r: bool)
    ensures
        r == lex_le(a@, b@),
{
    let mut i: usize = 0;
    assert(a@.skip(0) =~= a@);
    assert(b@.skip(0) =~= b@);
    while i < a.len() && i < b.len() && a[i] == b[i]
        invariant
            i <= a.len(),
            i <= b.len(),
            lex_le(a@, b@) == lex_le(a@.skip(i as int), b@.skip(i as int)),
        decreases a.len() - i,
    {
        assert(a@.skip(i as int).drop_first() =~= a@.skip(i + 1));
        assert(b@.skip(i as int).drop_first() =~= b@.skip(i + 1));
        i = i + 1;
    }
    if i == a.len() {
        return true;
    }
    if i == b.len() {
        return false;
    }
    assert(a@.skip(i as int)[0] == a@[i as int]);
    assert(b@.skip(i as int)[0] == b@[i as int]);
    a[i] < b[i]
}

fn insert_name_exec(v: &mut Vec<String>, x: String)
    ensures
        strings_view(final(v)@) == insert_name(strings_view(old(v)@), x@),
{
    let xc = chars_of(x.as_str());
    let mut j = v.len();
    let ghost s = strings_view(v@);
    while j > 0 && !lex_le_exec(chars_of(v[j - 1].as_str()).as_slice(), xc.as_slice())
        invariant
            j <= v.len(),
            s == strings_view(v@),
            xc@ == x@,
            forall|k: int| j <= k < v.len() ==> !lex_le(s[k], x@),
        decreases j,
    {
        j = j - 1;
    }
    proof {
        lemma_insert_name_at(s, x@, j as int);
    }
    v.insert(j, x);
    assert(strings_view(v@) =~= s.insert(j as int, x@));
}

proof fn lemma_insert_name_at(s: Seq<Seq<char>>, x: Seq<char>, j: int)
    requires
        0 <= j <= s.len(),
        j == 0 || lex_le(s[j - 1], x),
        forall|k: int| j <= k < s.len() ==> !lex_le(s[k], x),
    ensures
        insert_name(s, x) == s.insert(j, x),
    decreases s.len(),
{
    if s.len() == 0 {
        assert(s.insert(j, x) =~= seq![x]);
    } else if j == s.len() {
        assert(s.insert(j, x) =~= s.push(x));
    } else {
        lemma_insert_name_at(s.drop_last(), x, j);
        assert(s.insert(j, x) =~= s.drop_last().insert(j, x).push(s.last()));
    }
}

/// Block device names that are not physical disks: loop devices, RAM disks
/// (`ram`, `zram`), optical drives, device-mapper nodes and md arrays.
pub open spec fn is_pseudo_device(name: Seq<char>) -> bool {
    ||| has_prefix(name, "loop"@)
    ||| has_prefix(name, "ram"@)
    ||| has_prefix(name, "sr"@)
    ||| has_prefix(name, "zram"@)
    ||| has_prefix(name, "dm-"@)
    ||| has_prefix(name, "md"@)
}

pub open spec fn keep_disks(names: Seq<Seq<char>>) -> Seq<Seq<char>>
    decreases names.len(),
{
    if names.len() == 0 {
        names
    } else {
        let r = keep_disks(names.drop_last());
        if is_pseudo_device(names.last()) {
            r
        } else {
            r.push(names.last())
        }
    }
}

/// The disks among the block device names of `/sys/block`, in ascending
/// order; `sda` alone when there is none.
pub open spec fn disk_list_spec(names: Seq<Seq<char>>) -> Seq<Seq<char>> {
    let k = keep_disks(names);
    if k.len() == 0 {
        seq!["sda"@]
    } else {
        sort_names(k)
    }
}

/// `/sys/block` names that start with none of `loop`, `ram`, `sr`, `zram`,
/// `dm-` and `md` are physical disks: the list keeps each of them as often as
/// it occurs, in sorted order, and drops every name that starts with one of
/// those prefixes.
pub proof fn law_only_pseudo_devices_are_dropped(names: Seq<Seq<char>>, n: Seq<char>)
    ensures
        keep_disks(names).to_multiset().count(n) == if has_prefix(n, "loop"@) || has_prefix(n, "ram"@) || has_prefix(
            n,
            "sr"@,
        ) || has_prefix(n, "zram"@) || has_prefix(n, "dm-"@) || has_prefix(n, "md"@) {
            0
        } else {
            names.to_multiset().count(n)
        },
        names.contains(n) && !(has_prefix(n, "loop"@) || has_prefix(n, "ram"@) || has_prefix(n, "sr"@) || has_prefix(
            n,
            "zram"@,
        ) || has_prefix(n, "dm-"@) || has_prefix(n, "md"@)) ==> disk_list_spec(names).to_multiset().count(n)
            == names.to_multiset().count(n),
    decreases names.len(),
{
    broadcast use vstd::seq_lib::group_to_multiset_ensures;
    broadcast use vstd::multiset::group_multiset_axioms;
    if names.len() > 0 {
        law_only_pseudo_devices_are_dropped(names.drop_last(), n);
        assert(names =~= names.drop_last().push(names.last()));
        let r = keep_disks(names.drop_last());
        if !is_pseudo_device(names.last()) {
            assert(keep_disks(names) =~= r.push(names.last()));
        }
    }
    lemma_sort_names(keep_disks(names));
    if names.contains(n) && !is_pseudo_device(n) {
        assert(names.to_multiset().count(n) > 0);
        assert(keep_disks(names).to_multiset().count(n) > 0);
        assert(keep_disks(names).len() > 0);
    }
}

fn is_pseudo_device_exec(name: &String) -> (r: bool)
    ensures
        r == is_pseudo_device(name@),
{
    let c = chars_of(name.as_str());
    let s = c.as_slice();
    starts_with_chars(s, chars_of("loop").as_slice()) || starts_with_chars(s, chars_of("ram").as_slice())
        || starts_with_chars(s, chars_of("sr").as_slice()) || starts_with_chars(s, chars_of("zram").as_slice())
        || starts_with_chars(s, chars_of("dm-").as_slice()) || starts_with_chars(s, chars_of("md").as_slice())
}

/// The disk list from the entries of `/sys/block`: see [`disk_list_spec`].
/// The list is sorted and holds each disk entry as often as it was listed.
pub fn get_fresh_disk_list(block_entries: &Vec<String>) -> (r: Vec<String>)
    ensures
        strings_view(r@) == disk_list_spec(strings_view(block_entries@)),
        names_sorted(strings_view(r@)),
        keep_disks(strings_view(block_entries@)).len() > 0 ==> strings_view(r@).to_multiset() == keep_disks(
            strings_view(block_entries@),
        ).to_multiset(),
{
    let ghost all = strings_view(block_entries@);
    let mut kept: Vec<String> = Vec::new();
    let mut i: usize = 0;
    while i < block_entries.len()
        invariant
            i <= block_entries.len(),
            all == strings_view(block_entries@),
            strings_view(kept@) == keep_disks(all.take(i as int)),
        decreases block_entries.len() - i,
    {
        let ghost t = all.take(i + 1);
        assert(t.drop_last() =~= all.take(i as int));
        if !is_pseudo_device_exec(&block_entries[i]) {
            push_string(&mut kept, block_entries[i].clone());
        }
        i = i + 1;
    }
    assert(all.take(block_entries.len() as int) =~= all);
    if kept.len() == 0 {
        let mut r: Vec<String> = Vec::new();
        push_string(&mut r, String::from_str("sda"));
        assert(strings_view(r@) =~= seq!["sda"@]);
        proof {
            let one = seq!["sda"@];
            assert forall|a: int, b: int| 0 <= a <= b < one.len() implies lex_le(one[a], one[b]) by {
                lemma_lex_total(one[a], one[b]);
            }
        }
        return r;
    }
    let mut sorted: Vec<String> = Vec::new();
    let mut k: usize = 0;
    let ghost kv = strings_view(kept@);
    while k < kept.len()
        invariant
            k <= kept.len(),
            kv == strings_view(kept@),
            strings_view(sorted@) == sort_names(kv.take(k as int)),
        decreases kept.len() - k,
    {
        let ghost t = kv.take(k + 1);
        assert(t.drop_last() =~= kv.take(k as int));
        insert_name_exec(&mut sorted, kept[k].clone());
        k = k + 1;
    }
    assert(kv.take(kept.len() as int) =~= kv);
    proof {
        lemma_sort_names(kv);
    }
    sorted
}


pub open spec fn dev_prefix() -> Seq<char> {
    seq!['/', 'd', 'e', 'v', '/']
}

/// `s` with every occurrence of `/dev/` removed, scanning left to right
/// (std `str::replace("/dev/", "")`).
pub open spec fn remove_dev_prefixes(s: Seq<char>) -> Seq<char>
    decreases s.len(),
{
    if s.len() == 0 {
        s
    } else if has_prefix(s, dev_prefix()) {
        remove_dev_prefixes(s.skip(5))
    } else {
        seq![s[0]] + remove_dev_prefixes(s.drop_first())
    }
}

/// The alphabetic characters of `s`, in order.
pub open spec fn alphabetic_only(s: Seq<char>) -> Seq<char>
    decreases s.len(),
{
    if s.len() == 0 {
        s
    } else {
        let r = alphabetic_only(s.drop_last());
        if unicode_alphabetic(s.last()) {
            r.push(s.last())
        } else {
            r
        }
    }
}

/// The disk that holds the root file system, from the `SOURCE` column that
/// `findmnt` printed for `/` (`None` when it could not run or failed): the
/// source without `/dev/`; for an NVMe namespace or an MMC card (names that
/// number their partitions after a `p`) the part before the first `p`,
/// otherwise only its letters. `sda` when `findmnt` gave nothing.
pub open spec fn system_disk_spec(source: Option<Seq<char>>) -> Seq<char> {
    match source {
        None => "sda"@,
        Some(out) => {
            let pure = remove_dev_prefixes(trim_ws(out));
            if (has_prefix(pure, "nvme"@) || has_prefix(pure, "mmcblk"@)) && find_char(pure, 'p') >= 0 {
                pure.take(find_char(pure, 'p'))
            } else {
                alphabetic_only(pure)
            }
        },
    }
}

fn remove_dev_prefixes_exec(s: &[char]) -> (r: Vec<char>)
    ensures
        r@ == remove_dev_prefixes(s@),
{
    let dev = chars_of("/dev/");
    proof {
        reveal_strlit("/dev/");
        assert(dev@ =~= dev_prefix());
    }
    let mut r: Vec<char> = Vec::new();
    let mut i: usize = 0;
    assert(s@.skip(0) =~= s@);
    assert(r@ + remove_dev_prefixes(s@.skip(0)) =~= remove_dev_prefixes(s@));
    while i < s.len()
        invariant
            i <= s.len(),
            dev@ == dev_prefix(),
            r@ + remove_dev_prefixes(s@.skip(i as int)) == remove_dev_prefixes(s@),
        decreases s.len() - i,
    {
        let rest = slice_chars(s, i, s.len());
        assert(rest@ =~= s@.skip(i as int));
        if starts_with_chars(rest.as_slice(), dev.as_slice()) {
            assert(s@.skip(i as int).skip(5) =~= s@.skip(i + 5));
            i = i + 5;
        } else {
            let ghost before = r@;
            r.push(s[i]);
            assert(s@.skip(i as int).drop_first() =~= s@.skip(i + 1));
            assert(seq![s@[i as int]] + remove_dev_prefixes(s@.skip(i + 1)) == remove_dev_prefixes(s@.skip(i as int)));
            assert(r@ + remove_dev_prefixes(s@.skip(i + 1)) =~= before + (seq![s@[i as int]] + remove_dev_prefixes(s@.skip(i + 1))));
            i = i + 1;
        }
    }
    assert(s@.skip(i as int) =~= Seq::<char>::empty());
    assert(r@ + Seq::<char>::empty() =~= r@);
    r
}

fn alphabetic_only_exec(s: &[char]) -> (r: Vec<char>)
    ensures
        r@ == alphabetic_only(s@),
{
    let mut r: Vec<char> = Vec::new();
    let mut i: usize = 0;
    while i < s.len()
        invariant
            i <= s.len(),
            r@ == alphabetic_only(s@.take(i as int)),
        decreases s.len() - i,
    {
        assert(s@.take(i + 1).drop_last() =~= s@.take(i as int));
        if char_is_alphabetic(s[i]) {
            r.push(s[i]);
        }
        i = i + 1;
    }
    assert(s@.take(s.len() as int) =~= s@);
    r
}

/// The system disk from `findmnt`'s output: see [`system_disk_spec`].
pub fn find_system_os_disk(findmnt_stdout: Option<&[u8]>) -> (r: String)
    ensures
        r@ == system_disk_spec(
            match findmnt_stdout {
                Some(b) => Some(utf8_lossy_text(b@)),
                None => None,
            },
        ),
{
    match findmnt_stdout {
        None => String::from_str("sda"),
        Some(bytes) => {
            let text = string_from_utf8_lossy(bytes);
            let c = chars_of(text.as_str());
            let t = trim_chars(c.as_slice());
            let pure = remove_dev_prefixes_exec(t.as_slice());
            let nvme = chars_of("nvme");
            let mmc = chars_of("mmcblk");
            if starts_with_chars(pure.as_slice(), nvme.as_slice()) || starts_with_chars(pure.as_slice(), mmc.as_slice()) {
                match find_char_exec(pure.as_slice(), 'p') {
                    Some(pos) => {
                        let head = slice_chars(pure.as_slice(), 0, pos);
                        assert(pure@.subrange(0, pos as int) =~= pure@.take(pos as int));
                        return string_from_chars(head.as_slice());
                    },
                    None => {},
                }
            }
            let a = alphabetic_only_exec(pure.as_slice());
            string_from_chars(a.as_slice())
        },
    }
}

/// `true` when the file name of an hwmon `name` entry is `drivetemp`.
pub fn is_drivetemp_sensor(name_file_text: &str) -> (r: bool)
    ensures
        r == (trim_ws(name_file_text@) == "drivetemp"@),
{
    let t = crate::text::trim_str(name_file_text);
    str_equals(t.as_str(), "drivetemp")
}

/// `true` when the device link of a sensor mentions disk `disk_name`.
pub fn sensor_link_matches(link: &str, disk_name: &str) -> (r: bool)
    ensures
        r == has_infix(link@, disk_name@),
{
    let l = chars_of(link);
    let d = chars_of(disk_name);
    contains_chars(l.as_slice(), d.as_slice())
}

/// Directories of the hwmon tree that the temperature search does not enter.
pub fn skip_hwmon_dir(dir_name: &str) -> (r: bool)
    ensures
        r == (dir_name@ == "power"@ || dir_name@ == "subsystem"@),
{
    str_equals(dir_name, "power") || str_equals(dir_name, "subsystem")
}


/// The millidegree reading of a sensor's `temp1_input`, when it parses.
pub fn parse_millidegree(raw_temp: &str) -> (r: Option<i32>)
    ensures
        match r {
            Some(v) => crate::text::parse_i32_opt(trim_ws(raw_temp@)) == Some(v as int),
            None => crate::text::parse_i32_opt(trim_ws(raw_temp@)) is None,
        },
{
    let c = chars_of(raw_temp);
    let t = trim_chars(c.as_slice());
    crate::text::parse_i32_chars(t.as_slice())
}

/// The temperature label of a disk: whole degrees Celsius (rounded toward
/// zero) when a sensor was found, otherwise the virtualised mark.
pub open spec fn temperature_label_spec(found: Option<i32>) -> Seq<char> {
    match found {
        Some(m) => crate::text::signed_decimal(crate::text::div_toward_zero(m as int, 1000)) + "°C"@,
        None => "(가상화)"@,
    }
}

/// The temperature label of a disk: see [`temperature_label_spec`].
pub fn get_disk_realtime_temperature_only(found_millidegree: Option<i32>) -> (r: String)
    ensures
        r@ == temperature_label_spec(found_millidegree),
{
    match found_millidegree {
        Some(m) => {
            let c = m / 1000;
            assert(c as int == crate::text::div_toward_zero(m as int, 1000)) by (nonlinear_arith)
                requires
                    c as int == if m >= 0 { m as int / 1000 } else { -((-(m as int)) / 1000) };
            let mut r = crate::text::i64_to_decimal(c as i64);
            r.append("°C");
            r
        },
        None => String::from_str("(가상화)"),
    }
}


/// One block device as `lsblk` lists it.
#[derive(Debug, Clone)]
pub struct DiskInfo {
    pub name: String,
    pub size: String,
    pub device_type: String,
}

/// The block device list printed by `lsblk --json`.
#[derive(Debug, Clone)]
pub struct LsblkOutput {
    pub blockdevices: Vec<DiskInfo>,
}

/// The fields read from `smartctl` output.
pub struct SmartFields {
    pub model: Seq<char>,
    pub serial: Seq<char>,
    pub temp: Seq<char>,
    pub health: Seq<char>,
    pub bad_sectors: Seq<char>,
}

pub open spec fn smart_initial() -> SmartFields {
    SmartFields {
        model: "알 수 없는 가상 장치"@,
        serial: "N/A (시리얼 없음)"@,
        temp: "0C (센서 없음)"@,
        health: "PASSED"@,
        bad_sectors: "0 (정상)"@,
    }
}

/// What one line of `smartctl` output changes: the vendor, product and device
/// model lines set the model (a product is appended to the vendor), the serial
/// number line the serial, a temperature line the temperature (its last word
/// and `C`), the reallocated-sector attribute the bad sector count (its raw
/// value, the last word), and a line saying that SMART is missing the health.
pub open spec fn smart_step(st: SmartFields, line: Seq<char>) -> SmartFields {
    let f = colon_field(line);
    let st1 = if has_infix(line, "Vendor:"@) && f is Some {
        SmartFields { model: trim_ws(f->Some_0), ..st }
    } else {
        st
    };
    let st2 = if has_infix(line, "Product:"@) && f is Some {
        SmartFields { model: st1.model + " "@ + trim_ws(f->Some_0), ..st1 }
    } else {
        st1
    };
    let st3 = if has_infix(line, "Device Model:"@) && f is Some {
        SmartFields { model: trim_ws(f->Some_0), ..st2 }
    } else {
        st2
    };
    let st4 = if has_infix(line, "Serial Number:"@) && f is Some {
        SmartFields { serial: trim_ws(f->Some_0), ..st3 }
    } else {
        st3
    };
    let w = last_word(line);
    let st5 = if (has_infix(line, "Current Drive Temperature:"@) || has_infix(line, "Temperature_Celsius"@))
        && w is Some {
        SmartFields { temp: w->Some_0 + "C"@, ..st4 }
    } else {
        st4
    };
    let st6 = if has_infix(line, "Reallocated_Sector_Ct"@) && w is Some {
        SmartFields { bad_sectors: w->Some_0, ..st5 }
    } else {
        st5
    };
    if has_infix(line, "device lacks SMART capability"@) {
        SmartFields { health: "WARN (가상화 장치 능력이 부족함)"@, ..st6 }
    } else {
        st6
    }
}

pub open spec fn smart_scan(lines: Seq<Seq<char>>) -> SmartFields
    decreases lines.len(),
{
    if lines.len() == 0 {
        smart_initial()
    } else {
        smart_step(smart_scan(lines.drop_last()), lines.last())
    }
}

/// The health lines for one disk from `smartctl`'s output (`None` when
/// `smartctl` could not run).
pub open spec fn smart_metrics_text(out: Option<Seq<char>>) -> Seq<char> {
    match out {
        None => "   Health: UNKNOWN (커널 크래시)\n"@,
        Some(text) => if trim_ws(text).len() == 0 {
            "   [건강 상태] Health: UNKNOWN (물리 드라이버 미응답)\n"@
        } else {
            let f = smart_scan(lines_of(text));
            "   [장치 정보] 모델명: "@ + f.model + "  |  시리얼: "@ + f.serial + "\n"@ + "   [건강 상태] Health: "@
                + f.health + "  |  Temperature: "@ + f.temp + "  |  Bad Sectors: "@ + f.bad_sectors + "\n"@
        },
    }
}

fn append_chars(v: &mut Vec<char>, w: &[char])
    ensures
        final(v)@ == old(v)@ + w@,
{
    let mut i: usize = 0;
    while i < w.len()
        invariant
            i <= w.len(),
            v@ == old(v)@ + w@.take(i as int),
        decreases w.len() - i,
    {
        v.push(w[i]);
        i = i + 1;
        assert(v@ =~= old(v)@ + w@.take(i as int));
    }
    assert(w@.take(w.len() as int) =~= w@);
}

fn line_has(line: &[char], pat: &str) -> (r: bool)
    ensures
        r == has_infix(line@, pat@),
{
    let p = chars_of(pat);
    contains_chars(line, p.as_slice())
}

struct SmartState {
    model: Vec<char>,
    serial: Vec<char>,
    temp: Vec<char>,
    health: Vec<char>,
    bad_sectors: Vec<char>,
}

impl SmartState {
    spec fn fields(&self) -> SmartFields {
        SmartFields {
            model: self.model@,
            serial: self.serial@,
            temp: self.temp@,
            health: self.health@,
            bad_sectors: self.bad_sectors@,
        }
    }
}

fn smart_step_exec(st: &mut SmartState, line: &[char])
    ensures
        final(st).fields() == smart_step(old(st).fields(), line@),
{
    let f = colon_field_exec(line);
    let ghost s0 = st.fields();
    if line_has(line, "Vendor:") {
        match &f {
            Some(v) => {
                st.model = trim_chars(v.as_slice());
            },
            None => {},
        }
    }
    if line_has(line, "Product:") {
        match &f {
            Some(v) => {
                let t = trim_chars(v.as_slice());
                let ghost m0 = st.model@;
                st.model.push(' ');
                append_chars(&mut st.model, t.as_slice());
                assert(st.model@ =~= m0 + " "@ + t@) by {
                    reveal_strlit(" ");
                }
            },
            None => {},
        }
    }
    if line_has(line, "Device Model:") {
        match &f {
            Some(v) => {
                st.model = trim_chars(v.as_slice());
            },
            None => {},
        }
    }
    if line_has(line, "Serial Number:") {
        match &f {
            Some(v) => {
                st.serial = trim_chars(v.as_slice());
            },
            None => {},
        }
    }
    if line_has(line, "Current Drive Temperature:") || line_has(line, "Temperature_Celsius") {
        match last_word_exec(line) {
            Some(w) => {
                let mut t = w;
                t.push('C');
                assert(t@ =~= last_word(line@)->Some_0 + "C"@) by {
                    reveal_strlit("C");
                }
                st.temp = t;
            },
            None => {},
        }
    }
    if line_has(line, "Reallocated_Sector_Ct") {
        match last_word_exec(line) {
            Some(w) => {
                st.bad_sectors = w;
            },
            None => {},
        }
    }
    if line_has(line, "device lacks SMART capability") {
        st.health = chars_of("WARN (가상화 장치 능력이 부족함)");
    }
}

/// The health lines for a disk: see [`smart_metrics_text`]. `smartctl_stdout`
/// is `smartctl`'s raw output, `None` when it could not run.
pub fn fetch_real_smart_metrics(smartctl_stdout: Option<&[u8]>) -> (r: String)
    ensures
        r@ == smart_metrics_text(
            match smartctl_stdout {
                Some(b) => Some(utf8_lossy_text(b@)),
                None => None,
            },
        ),
{
    match smartctl_stdout {
        None => String::from_str("   Health: UNKNOWN (커널 크래시)\n"),
        Some(bytes) => {
            let text = string_from_utf8_lossy(bytes);
            let c = chars_of(text.as_str());
            let t = trim_chars(c.as_slice());
            if t.len() == 0 {
                return String::from_str("   [건강 상태] Health: UNKNOWN (물리 드라이버 미응답)\n");
            }
            let lines = lines_exec(c.as_slice());
            let mut st = SmartState {
                model: chars_of("알 수 없는 가상 장치"),
                serial: chars_of("N/A (시리얼 없음)"),
                temp: chars_of("0C (센서 없음)"),
                health: chars_of("PASSED"),
                bad_sectors: chars_of("0 (정상)"),
            };
            let ghost lv = chars_seqs_view(lines@);
            let mut i: usize = 0;
            while i < lines.len()
                invariant
                    i <= lines.len(),
                    lv == chars_seqs_view(lines@),
                    st.fields() == smart_scan(lv.take(i as int)),
                decreases lines.len() - i,
            {
                assert(lv.take(i + 1).drop_last() =~= lv.take(i as int));
                assert(lv[i as int] == lines@[i as int]@);
                smart_step_exec(&mut st, lines[i].as_slice());
                i = i + 1;
            }
            assert(lv.take(lines.len() as int) =~= lv);
            let mut r = String::from_str("   [장치 정보] 모델명: ");
            r.append(string_from_chars(st.model.as_slice()).as_str());
            r.append("  |  시리얼: ");
            r.append(string_from_chars(st.serial.as_slice()).as_str());
            r.append("\n");
            r.append("   [건강 상태] Health: ");
            r.append(string_from_chars(st.health.as_slice()).as_str());
            r.append("  |  Temperature: ");
            r.append(string_from_chars(st.temp.as_slice()).as_str());
            r.append("  |  Bad Sectors: ");
            r.append(string_from_chars(st.bad_sectors.as_slice()).as_str());
            r.append("\n");
            r
        },
    }
}


pub struct DiskInfoView {
    pub name: Seq<char>,
    pub size: Seq<char>,
    pub device_type: Seq<char>,
}

impl View for DiskInfo {
    type V = DiskInfoView;

    open spec fn view(&self) -> DiskInfoView {
        DiskInfoView { name: self.name@, size: self.size@, device_type: self.device_type@ }
    }
}

pub open spec fn devices_view(v: Seq<DiskInfo>) -> Seq<DiskInfoView> {
    v.map_values(|d: DiskInfo| d@)
}

/// A listed device that the health report covers: a disk, not an optical drive.
pub open spec fn reported_disk(d: DiskInfoView) -> bool {
    d.device_type == "disk"@ && !has_prefix(d.name, "sr"@)
}

/// The names of the reported disks, in listing order.
pub open spec fn report_targets(devs: Seq<DiskInfoView>) -> Seq<Seq<char>>
    decreases devs.len(),
{
    if devs.len() == 0 {
        seq![]
    } else if reported_disk(devs[0]) {
        seq![devs[0].name] + report_targets(devs.drop_first())
    } else {
        report_targets(devs.drop_first())
    }
}

pub open spec fn disk_header(d: DiskInfoView, sys: Seq<char>) -> Seq<char> {
    if d.name == sys {
        "▶️ /dev/"@ + d.name + " [용량: "@ + d.size + "] (🚨 SYSTEM OS ROLE)\n"@
    } else {
        "▶️ /dev/"@ + d.name + " [용량: "@ + d.size + "]\n"@
    }
}

/// The entries of the full report: for each reported disk, its header, its
/// health lines (taken from `metrics` in order) and a rule.
pub open spec fn report_entries(devs: Seq<DiskInfoView>, sys: Seq<char>, metrics: Seq<Seq<char>>) -> Seq<char>
    decreases devs.len(),
{
    if devs.len() == 0 {
        seq![]
    } else if reported_disk(devs[0]) {
        disk_header(devs[0], sys) + metrics[0] + "--------------------------------------------------\n"@ + report_entries(devs.drop_first(), sys, metrics.drop_first())
    } else {
        report_entries(devs.drop_first(), sys, metrics)
    }
}

/// The health report of disk `disk_name`, or of every listed disk for `all`.
/// `listing` is `lsblk`'s device list (`None` when it could not be read) and
/// `metrics` the health lines of the disks covered: one per entry of
/// [`report_targets`] for `all`, one for a single disk.
pub open spec fn disk_smart_report(
    disk_name: Seq<char>,
    sys: Seq<char>,
    listing: Option<Seq<DiskInfoView>>,
    metrics: Seq<Seq<char>>,
) -> Seq<char> {
    if disk_name == "all"@ {
        "🏥 [가람OS 종합 디스크 무결성 진단 리포트]\n"@ + "==================================================\n"@ + match listing {
            Some(devs) => report_entries(devs, sys, metrics),
            None => "❌ 커널 디스크 목록을 불러오지 못했습니다.\n"@,
        } + "==================================================\n"@
    } else {
        (if disk_name == sys {
            "🏥 [가람OS 디스크 진단] /dev/"@ + disk_name + " (🚨 SYSTEM OS ROLE)\n"@
        } else {
            "🏥 [가람OS 디스크 진단] /dev/"@ + disk_name + "\n"@
        }) + "--------------------------------------\n"@ + metrics[0] + "--------------------------------------\n"@
    }
}

fn is_reported_disk(d: &DiskInfo) -> (r: bool)
    ensures
        r == reported_disk(d@),
{
    let c = chars_of(d.name.as_str());
    str_equals(d.device_type.as_str(), "disk") && !starts_with_chars(c.as_slice(), chars_of("sr").as_slice())
}

/// The disks whose health lines a full report needs, in order.
pub fn smart_report_targets(listing: &LsblkOutput) -> (r: Vec<String>)
    ensures
        strings_view(r@) == report_targets(devices_view(listing.blockdevices@)),
{
    let ghost devs = devices_view(listing.blockdevices@);
    let mut r: Vec<String> = Vec::new();
    let mut i: usize = 0;
    assert(devs.skip(0) =~= devs);
    assert(strings_view(r@) + report_targets(devs.skip(0)) =~= report_targets(devs));
    while i < listing.blockdevices.len()
        invariant
            i <= listing.blockdevices.len(),
            devs == devices_view(listing.blockdevices@),
            strings_view(r@) + report_targets(devs.skip(i as int)) == report_targets(devs),
        decreases listing.blockdevices.len() - i,
    {
        let d = &listing.blockdevices[i];
        assert(devs.skip(i as int)[0] == d@);
        assert(devs.skip(i as int).drop_first() =~= devs.skip(i + 1));
        if is_reported_disk(d) {
            let ghost before = strings_view(r@);
            push_string(&mut r, d.name.clone());
            assert(strings_view(r@) + report_targets(devs.skip(i + 1)) =~= before + (seq![d@.name] + report_targets(devs.skip(i + 1))));
        }
        i = i + 1;
    }
    assert(devs.skip(i as int) =~= Seq::<DiskInfoView>::empty());
    assert(strings_view(r@) + Seq::<Seq<char>>::empty() =~= strings_view(r@));
    r
}

/// The health report: see [`disk_smart_report`].
pub fn get_disk_smart(disk_name: &str, sys_os_disk: &str, listing: Option<&LsblkOutput>, metrics: &Vec<String>) -> (r:
    String)
    requires
        disk_name@ == "all"@ ==> match listing {
            Some(l) => metrics.len() == report_targets(devices_view(l.blockdevices@)).len(),
            None => true,
        },
        disk_name@ != "all"@ ==> metrics.len() >= 1,
    ensures
        r@ == disk_smart_report(
            disk_name@,
            sys_os_disk@,
            match listing {
                Some(l) => Some(devices_view(l.blockdevices@)),
                None => None,
            },
            strings_view(metrics@),
        ),
{
    let mut report = String::new();
    if str_equals(disk_name, "all") {
        report.append("🏥 [가람OS 종합 디스크 무결성 진단 리포트]\n");
        report.append("==================================================\n");
        let ghost head = report@;
        match listing {
            Some(parsed) => {
                let ghost devs = devices_view(parsed.blockdevices@);
                let ghost mv = strings_view(metrics@);
                let mut i: usize = 0;
                let mut j: usize = 0;
                assert(devs.skip(0) =~= devs);
                assert(mv.skip(0) =~= mv);
                assert(report@ + report_entries(devs.skip(0), sys_os_disk@, mv.skip(0)) =~= head + report_entries(devs, sys_os_disk@, mv));
                while i < parsed.blockdevices.len()
                    invariant
                        i <= parsed.blockdevices.len(),
                        devs == devices_view(parsed.blockdevices@),
                        mv == strings_view(metrics@),
                        j <= metrics.len(),
                        metrics.len() - j == report_targets(devs.skip(i as int)).len(),
                        report@ + report_entries(devs.skip(i as int), sys_os_disk@, mv.skip(j as int))
                            == head + report_entries(devs, sys_os_disk@, mv),
                    decreases parsed.blockdevices.len() - i,
                {
                    let d = &parsed.blockdevices[i];
                    let ghost rest = devs.skip(i as int);
                    assert(rest[0] == d@);
                    assert(rest.drop_first() =~= devs.skip(i + 1));
                    if is_reported_disk(d) {
                        let ghost before = report@;
                        assert(mv.skip(j as int)[0] == metrics@[j as int]@);
                        assert(mv.skip(j as int).drop_first() =~= mv.skip(j + 1));
                        if str_equals(d.name.as_str(), sys_os_disk) {
                            report.append("▶️ /dev/");
                            report.append(d.name.as_str());
                            report.append(" [용량: ");
                            report.append(d.size.as_str());
                            report.append("] (🚨 SYSTEM OS ROLE)\n");
                        } else {
                            report.append("▶️ /dev/");
                            report.append(d.name.as_str());
                            report.append(" [용량: ");
                            report.append(d.size.as_str());
                            report.append("]\n");
                        }
                        report.append(metrics[j].as_str());
                        report.append("--------------------------------------------------\n");
                        assert(report@ =~= before + (disk_header(d@, sys_os_disk@) + metrics@[j as int]@ + "--------------------------------------------------\n"@));
                        assert(report@ + report_entries(devs.skip(i + 1), sys_os_disk@, mv.skip(j + 1))
                            =~= before + report_entries(rest, sys_os_disk@, mv.skip(j as int)));
                        j = j + 1;
                    }
                    i = i + 1;
                }
                assert(devs.skip(i as int) =~= Seq::<DiskInfoView>::empty());
                assert(report@ + Seq::<char>::empty() =~= report@);
            },
            None => {
                report.append("❌ 커널 디스크 목록을 불러오지 못했습니다.\n");
            },
        }
        report.append("==================================================\n");
    } else {
        if str_equals(disk_name, sys_os_disk) {
            report.append("🏥 [가람OS 디스크 진단] /dev/");
            report.append(disk_name);
            report.append(" (🚨 SYSTEM OS ROLE)\n");
        } else {
            report.append("🏥 [가람OS 디스크 진단] /dev/");
            report.append(disk_name);
            report.append("\n");
        }
        report.append("--------------------------------------\n");
        report.append(metrics[0].as_str());
        report.append("--------------------------------------\n");
    }
    report
}

} // verus!
