//! Memory and CPU counters read from `/proc/meminfo` and `/proc/stat`.

use vstd::prelude::*;
use crate::text::{
    has_infix, has_prefix, lines_of, lines_exec, words, words_exec, chars_seqs_view, chars_of, contains_chars,
    starts_with_chars, parse_unsigned, parse_unsigned_chars,
};

verus! {

/// The resource monitor.
pub struct SystemMonitor;

/// The value of the second word of a `/proc/meminfo` line, in kB, or zero when
/// it is missing or does not parse.
pub open spec fn meminfo_value(line: Seq<char>) -> u64 {
    let w = words(line);
    if w.len() > 1 && parse_unsigned(w[1], u64::MAX as nat) is Ok {
        parse_unsigned(w[1], u64::MAX as nat)->Ok_0 as u64
    } else {
        0
    }
}

/// `(MemTotal, MemAvailable)` in kB after reading `lines`: the last line that
/// mentions each counter decides it; zero when none does.
pub open spec fn meminfo_scan(lines: Seq<Seq<char>>) -> (u64, u64)
    decreases lines.len(),
{
    if lines.len() == 0 {
        (0, 0)
    } else {
        let prev = meminfo_scan(lines.drop_last());
        let line = lines.last();
        let t = if has_infix(line, "MemTotal:"@) { meminfo_value(line) } else { prev.0 };
        let a = if has_infix(line, "MemAvailable:"@) { meminfo_value(line) } else { prev.1 };
        (t, a)
    }
}

fn meminfo_value_exec(line: &[char]) -> (r: u64)
    ensures
        r == meminfo_value(line@),
{
    let w = words_exec(line);
    assert(chars_seqs_view(w@) == words(line@));
    if w.len() > 1 {
        assert(chars_seqs_view(w@)[1] == w@[1]@);
        match parse_unsigned_chars(w[1].as_slice(), u64::MAX) {
            Ok(v) => v,
            Err(_) => 0,
        }
    } else {
        0
    }
}

/// The words after `cpu` on the first line of `/proc/stat` that parse as
/// numbers, in order.
pub open spec fn parsed_numbers(ws: Seq<Seq<char>>) -> Seq<u64>
    decreases ws.len(),
{
    if ws.len() == 0 {
        seq![]
    } else {
        let r = parsed_numbers(ws.drop_last());
        match parse_unsigned(ws.last(), u64::MAX as nat) {
            Ok(v) => r.push(v as u64),
            Err(_) => r,
        }
    }
}

pub open spec fn sum_u64(s: Seq<u64>) -> nat
    decreases s.len(),
{
    if s.len() == 0 {
        0
    } else {
        sum_u64(s.drop_last()) + s.last() as nat
    }
}

/// The CPU counters of `/proc/stat`'s first line when it is the `cpu ` line.
pub open spec fn cpu_parts(stat: Seq<char>) -> Seq<u64> {
    let ls = lines_of(stat);
    if ls.len() > 0 && has_prefix(ls[0], "cpu "@) && words(ls[0]).len() > 0 {
        parsed_numbers(words(ls[0]).drop_first())
    } else {
        seq![]
    }
}

/// `(idle + iowait, total)` jiffies from the `cpu ` line, or `(0, 0)` when it
/// has fewer than four counters.
pub open spec fn cpu_jiffies(stat: Seq<char>) -> (nat, nat) {
    let p = cpu_parts(stat);
    if p.len() >= 4 {
        (p[3] as nat + if p.len() > 4 { p[4] as nat } else { 0 }, sum_u64(p))
    } else {
        (0, 0)
    }
}

proof fn lemma_sum_parts(p: Seq<u64>)
    requires
        p.len() >= 4,
    ensures
        p[3] as nat + if p.len() > 4 { p[4] as nat } else { 0 } <= sum_u64(p),
    decreases p.len(),
{
    if p.len() > 5 {
        lemma_sum_parts(p.drop_last());
        assert(p.drop_last()[3] == p[3] && p.drop_last()[4] == p[4]);
    } else if p.len() == 5 {
        assert(p.drop_last()[3] == p[3]);
        assert(sum_u64(p.drop_last()) >= p[3]) by {
            lemma_sum_ge_last(p.drop_last());
        }
    } else {
        lemma_sum_ge_last(p);
    }
}

proof fn lemma_sum_ge_last(p: Seq<u64>)
    requires
        p.len() >= 1,
    ensures
        sum_u64(p) >= p.last(),
{
}

impl SystemMonitor {
    /// `(MemTotal, MemAvailable)` in kB from the text of `/proc/meminfo`.
    pub fn parse_meminfo_kb(meminfo: &str) -> (r: (u64, u64))
        ensures
            r == meminfo_scan(lines_of(meminfo@)),
    {
        let c = chars_of(meminfo);
        let lines = lines_exec(c.as_slice());
        let ghost lv = chars_seqs_view(lines@);
        let mut total_kb: u64 = 0;
        let mut available_kb: u64 = 0;
        let mut i: usize = 0;
        while i < lines.len()
            invariant
                i <= lines.len(),
                lv == chars_seqs_view(lines@),
                lv == lines_of(meminfo@),
                (total_kb, available_kb) == meminfo_scan(lv.take(i as int)),
            decreases lines.len() - i,
        {
            assert(lv.take(i + 1).drop_last() =~= lv.take(i as int));
            assert(lv[i as int] == lines@[i as int]@);
            let line = lines[i].as_slice();
            if contains_chars(line, chars_of("MemTotal:").as_slice()) {
                total_kb = meminfo_value_exec(line);
            }
            if contains_chars(line, chars_of("MemAvailable:").as_slice()) {
                available_kb = meminfo_value_exec(line);
            }
            i = i + 1;
        }
        assert(lv.take(lines.len() as int) =~= lv);
        (total_kb, available_kb)
    }

    /// `(total, used)` memory in MiB: the kB counters in whole MiB, and the
    /// part of the total that is not available (never below zero).
    pub fn memory_mb(total_kb: u64, available_kb: u64) -> (r: (u64, u64))
        ensures
            r.0 == total_kb / 1024,
            r.1 == if total_kb / 1024 >= available_kb / 1024 { total_kb / 1024 - available_kb / 1024 } else { 0 },
    {
        let total_mb = total_kb / 1024;
        let available_mb = available_kb / 1024;
        (total_mb, total_mb.saturating_sub(available_mb))
    }

    /// `(idle + iowait, total)` jiffies from the text of `/proc/stat`: see
    /// [`cpu_jiffies`]; `None` when the total of the counters does not fit in
    /// 64 bits.
    pub fn read_cpu_jiffies(stat: &str) -> (r: Option<(u64, u64)>)
        ensures
            r is None <==> cpu_parts(stat@).len() >= 4 && sum_u64(cpu_parts(stat@)) > u64::MAX,
            r matches Some(v) ==> (v.0 as nat, v.1 as nat) == cpu_jiffies(stat@),
    {
        let c = chars_of(stat);
        let lines = lines_exec(c.as_slice());
        let ghost lv = chars_seqs_view(lines@);
        if lines.len() == 0 {
            return Some((0, 0));
        }
        assert(lv[0] == lines@[0]@);
        let first = lines[0].as_slice();
        if !starts_with_chars(first, chars_of("cpu ").as_slice()) {
            return Some((0, 0));
        }
        let ws = words_exec(first);
        if ws.len() == 0 {
            return Some((0, 0));
        }
        let ghost wv = chars_seqs_view(ws@).drop_first();
        let mut parts: Vec<u64> = Vec::new();
        let mut i: usize = 1;
        assert(wv.take(0) =~= Seq::<Seq<char>>::empty());
        while i < ws.len()
            invariant
                1 <= i <= ws.len(),
                wv == chars_seqs_view(ws@).drop_first(),
                parts@ == parsed_numbers(wv.take(i - 1)),
            decreases ws.len() - i,
        {
            assert(wv.take(i as int).drop_last() =~= wv.take(i - 1));
            assert(wv[i - 1] == ws@[i as int]@);
            match parse_unsigned_chars(ws[i].as_slice(), u64::MAX) {
                Ok(v) => parts.push(v),
                Err(_) => {},
            }
            i = i + 1;
        }
        assert(wv.take(ws.len() - 1) =~= wv);
        assert(parts@ == cpu_parts(stat@));
        if parts.len() >= 4 {
            let mut total: u64 = 0;
            let mut k: usize = 0;
            while k < parts.len()
                invariant
                    k <= parts.len(),
                    parts.len() >= 4,
                    parts@ == cpu_parts(stat@),
                    total == sum_u64(parts@.take(k as int)),
                decreases parts.len() - k,
            {
                assert(parts@.take(k + 1).drop_last() =~= parts@.take(k as int));
                proof {
                    lemma_sum_prefix(parts@, k + 1);
                    assert(sum_u64(parts@.take(k + 1)) == total + parts[k as int]);
                }
                match total.checked_add(parts[k]) {
                    Some(t) => total = t,
                    None => return None,
                }
                k = k + 1;
            }
            assert(parts@.take(parts.len() as int) =~= parts@);
            proof {
                lemma_sum_parts(parts@);
            }
            let extra = if parts.len() > 4 { parts[4] } else { 0 };
            return Some((parts[3] + extra, total));
        }
        Some((0, 0))
    }

    /// The jiffy deltas since the last reading, or `None` before the first
    /// reading with a nonzero total; deltas never go below zero.
    pub fn cpu_deltas(last: (u64, u64), current: (u64, u64)) -> (r: Option<(u64, u64)>)
        ensures
            last.1 == 0 ==> r is None,
            last.1 > 0 ==> r == Some((
                (if current.0 >= last.0 { current.0 - last.0 } else { 0 }) as u64,
                (if current.1 >= last.1 { current.1 - last.1 } else { 0 }) as u64,
            )),
    {
        if last.1 > 0 {
            Some((current.0.saturating_sub(last.0), current.1.saturating_sub(last.1)))
        } else {
            None
        }
    }
}

proof fn lemma_sum_prefix(p: Seq<u64>, k: int)
    requires
        0 <= k <= p.len(),
    ensures
        sum_u64(p.take(k)) <= sum_u64(p),
    decreases p.len() - k,
{
    if k < p.len() {
        lemma_sum_prefix(p, k + 1);
        assert(p.take(k + 1).drop_last() =~= p.take(k));
    } else {
        assert(p.take(k) =~= p);
    }
}

/// The idle jiffies (idle and iowait) never exceed the total of all CPU
/// counters, so the busy share of a reading is never negative.
pub proof fn law_idle_within_total(stat: Seq<char>)
    ensures
        cpu_jiffies(stat).0 <= cpu_jiffies(stat).1,
{
    let p = cpu_parts(stat);
    if p.len() >= 4 {
        lemma_sum_parts(p);
    }
}

} // verus!
