//! The host panel: memory, CPU and disk figures read from the texts that
//! `/proc`, `sysctl` and `df` print. Reading those texts is left to the
//! caller; here they are parsed and combined.
use vstd::prelude::*;
use crate::numfmt::{parse_unsigned, parse_u64};
use crate::pathx::views;
use crate::prefs::{lines, lines_of};
use crate::text::{
    chars_of, slice_of, starts_with, starts_with_str, string_of, trim, trim_str, words, words_of,
};

verus! {

/// Memory in use and in all, in bytes.
pub struct MemStatus {
    pub used_bytes: u64,
    pub total_bytes: u64,
}

/// One mounted file system: where it is mounted, and its bytes in use and in all.
pub struct DiskStatus {
    pub path: String,
    pub used_bytes: u64,
    pub total_bytes: u64,
}

pub open spec fn sat_mul(a: u64, b: u64) -> u64 {
    if a * b > u64::MAX {
        u64::MAX
    } else {
        (a * b) as u64
    }
}

pub open spec fn sat_add(a: u64, b: u64) -> u64 {
    if a + b > u64::MAX {
        u64::MAX
    } else {
        (a + b) as u64
    }
}

pub open spec fn sat_sub(a: u64, b: u64) -> u64 {
    if a < b {
        0
    } else {
        (a - b) as u64
    }
}

fn mul_sat(a: u64, b: u64) -> (r: u64)
    ensures
        r == sat_mul(a, b),
{
    match a.checked_mul(b) {
        Some(v) => v,
        None => u64::MAX,
    }
}

fn add_sat(a: u64, b: u64) -> (r: u64)
    ensures
        r == sat_add(a, b),
{
    a.saturating_add(b)
}

fn sub_sat(a: u64, b: u64) -> (r: u64)
    ensures
        r == sat_sub(a, b),
{
    a.saturating_sub(b)
}

/// A number as `str::parse::<u64>` reads it, or 0.
pub open spec fn u64_or_zero(w: Seq<char>) -> u64 {
    match parse_unsigned(w, u64::MAX as int) {
        Some(v) => v as u64,
        None => 0,
    }
}

/// The first word of a `/proc/meminfo` value, read as a number of kB; 0
/// when there is none or it is no number.
pub open spec fn kb_spec(s: Seq<char>) -> u64 {
    let w = words(s);
    if w.len() > 0 {
        u64_or_zero(w[0])
    } else {
        0
    }
}

pub fn parse_kb(s: &[char]) -> (r: u64)
    ensures
        r == kb_spec(s@),
{
    let w = words_of(s);
    proof {
        assert(views(w@).len() == w@.len());
    }
    if w.len() > 0 {
        proof {
            assert(views(w@)[0] == w@[0]@);
        }
        match parse_u64(&w[0]) {
            Some(v) => v,
            None => 0,
        }
    } else {
        0
    }
}

/// `MemTotal` and `MemAvailable` in kB after the lines `ls`: a later line
/// of either key wins over an earlier one, and a missing key reads 0.
pub open spec fn meminfo_fold(ls: Seq<Seq<char>>) -> (u64, u64)
    decreases ls.len(),
{
    if ls.len() == 0 {
        (0, 0)
    } else {
        let prev = meminfo_fold(ls.drop_last());
        let l = ls.last();
        if starts_with(l, "MemTotal:"@) {
            (kb_spec(l.skip("MemTotal:"@.len() as int)), prev.1)
        } else if starts_with(l, "MemAvailable:"@) {
            (prev.0, kb_spec(l.skip("MemAvailable:"@.len() as int)))
        } else {
            prev
        }
    }
}

/// The memory figures of a `/proc/meminfo` text: all of it is `MemTotal`,
/// and what is in use is that less `MemAvailable`, each kB taken as 1024
/// bytes, saturating.
pub open spec fn meminfo_spec(raw: Seq<char>) -> MemStatus {
    let kb = meminfo_fold(lines(raw));
    let total = sat_mul(kb.0, 1024);
    MemStatus { used_bytes: sat_sub(total, sat_mul(kb.1, 1024)), total_bytes: total }
}

/// Memory figures from the text of `/proc/meminfo`.
pub fn mem_status_from_meminfo(raw: &str) -> (r: MemStatus)
    ensures
        r == meminfo_spec(raw@),
{
    let chars = chars_of(raw);
    let ls = lines_of(&chars);
    let ghost lv = views(ls@);
    let mut total_kb: u64 = 0;
    let mut avail_kb: u64 = 0;
    let mut i: usize = 0;
    proof {
        reveal_strlit("MemTotal:");
        reveal_strlit("MemAvailable:");
        assert(lv.take(0) =~= Seq::<Seq<char>>::empty());
    }
    while i < ls.len()
        invariant
            i <= ls.len(),
            lv == views(ls@),
            lv == lines(raw@),
            (total_kb, avail_kb) == meminfo_fold(lv.take(i as int)),
            "MemTotal:"@.len() == 9,
            "MemAvailable:"@.len() == 13,
        decreases ls.len() - i,
    {
        let line = &ls[i];
        proof {
            assert(lv[i as int] == line@);
            assert(lv.take(i + 1).drop_last() =~= lv.take(i as int));
            assert(lv.take(i + 1).last() == line@);
        }
        if starts_with_str(line, "MemTotal:") {
            let rest = slice_of(line, 9, line.len());
            proof {
                assert(rest@ =~= line@.skip(9));
            }
            total_kb = parse_kb(&rest);
        } else if starts_with_str(line, "MemAvailable:") {
            let rest = slice_of(line, 13, line.len());
            proof {
                assert(rest@ =~= line@.skip(13));
            }
            avail_kb = parse_kb(&rest);
        }
        i += 1;
    }
    proof {
        assert(lv.take(ls.len() as int) =~= lv);
    }
    let total = mul_sat(total_kb, 1024);
    MemStatus { used_bytes: sub_sat(total, mul_sat(avail_kb, 1024)), total_bytes: total }
}

/// The memory figures that `sysctl` gives where there is no `/proc`: all of
/// it is `hw.memsize`; what is available is the free, speculative,
/// purgeable and reusable pages, times the page size (4096 when unknown),
/// at most all of it; each sum and product saturates.
pub open spec fn sysctl_mem_spec(
    total: Option<u64>,
    page: Option<u64>,
    free: Option<u64>,
    spec_pages: Option<u64>,
    purge: Option<u64>,
    reusable: Option<u64>,
) -> MemStatus {
    let t = total.unwrap_or(0);
    let p = page.unwrap_or(4096);
    let pages = sat_add(
        sat_add(sat_add(free.unwrap_or(0), spec_pages.unwrap_or(0)), purge.unwrap_or(0)),
        reusable.unwrap_or(0),
    );
    let bytes = sat_mul(pages, p);
    let avail = if bytes < t {
        bytes
    } else {
        t
    };
    MemStatus { used_bytes: sat_sub(t, avail), total_bytes: t }
}

/// Memory figures from the `sysctl` values; a value that could not be read is `None`.
pub fn mem_status_from_sysctl(
    total: Option<u64>,
    page: Option<u64>,
    free: Option<u64>,
    spec_pages: Option<u64>,
    purge: Option<u64>,
    reusable: Option<u64>,
) -> (r: MemStatus)
    ensures
        r == sysctl_mem_spec(total, page, free, spec_pages, purge, reusable),
{
    let t = match total {
        Some(v) => v,
        None => 0,
    };
    let p = match page {
        Some(v) => v,
        None => 4096,
    };
    let f = match free {
        Some(v) => v,
        None => 0,
    };
    let s = match spec_pages {
        Some(v) => v,
        None => 0,
    };
    let g = match purge {
        Some(v) => v,
        None => 0,
    };
    let u = match reusable {
        Some(v) => v,
        None => 0,
    };
    let pages = add_sat(add_sat(add_sat(f, s), g), u);
    let bytes = mul_sat(pages, p);
    let avail = if bytes < t {
        bytes
    } else {
        t
    };
    MemStatus { used_bytes: sub_sat(t, avail), total_bytes: t }
}

/// What `sysctl -n` printed, read as a number: the trimmed text parsed as `u64`.
pub fn sysctl_value(out: &str) -> (r: Option<u64>)
    ensures
        r == (match parse_unsigned(trim(out@), u64::MAX as int) {
            Some(v) => Some(v as u64),
            None => None::<u64>,
        }),
{
    let t = trim_str(out);
    parse_u64(&t)
}


/// The numbers among the words `ws`, in order; words that are no number are left out.
pub open spec fn nums_of(ws: Seq<Seq<char>>) -> Seq<u64>
    decreases ws.len(),
{
    if ws.len() == 0 {
        Seq::empty()
    } else {
        let prev = nums_of(ws.drop_last());
        match parse_unsigned(ws.last(), u64::MAX as int) {
            Some(v) => prev.push(v as u64),
            None => prev,
        }
    }
}

pub open spec fn sum_of(s: Seq<u64>) -> int
    decreases s.len(),
{
    if s.len() == 0 {
        0
    } else {
        sum_of(s.drop_last()) + s.last()
    }
}

/// The numbers on the first line of a `/proc/stat` text, after its leading
/// `cpu` word; `None` when that line does not start with `cpu `.
pub open spec fn stat_nums(raw: Seq<char>) -> Option<Seq<u64>> {
    let ls = lines(raw);
    if ls.len() == 0 || !starts_with(ls[0], "cpu "@) {
        None
    } else {
        let w = words(ls[0]);
        Some(nums_of(if w.len() > 0 { w.skip(1) } else { w }))
    }
}

/// The idle and total jiffies of the `cpu` line: idle is the fourth number
/// plus the fifth (iowait) where there is one, total is the sum of all;
/// `None` with fewer than four numbers.
pub open spec fn proc_stat_spec(raw: Seq<char>) -> Option<(u64, u64)> {
    match stat_nums(raw) {
        None => None,
        Some(n) => if n.len() < 4 {
            None
        } else {
            Some(
                (
                    (n[3] + (if n.len() > 4 {
                        n[4] as int
                    } else {
                        0int
                    })) as u64,
                    sum_of(n) as u64,
                ),
            )
        },
    }
}

/// The numbers of the `cpu` line add up to no more than `u64::MAX`.
pub open spec fn proc_stat_fits(raw: Seq<char>) -> bool {
    match stat_nums(raw) {
        Some(n) => sum_of(n) <= u64::MAX,
        None => true,
    }
}

proof fn lemma_sum_nonneg(s: Seq<u64>)
    ensures
        sum_of(s) >= 0,
    decreases s.len(),
{
    if s.len() > 0 {
        lemma_sum_nonneg(s.drop_last());
    }
}

proof fn lemma_sum_prefix(s: Seq<u64>, k: int)
    requires
        0 <= k <= s.len(),
    ensures
        sum_of(s.take(k)) <= sum_of(s),
    decreases s.len(),
{
    if k < s.len() {
        lemma_sum_prefix(s.drop_last(), k);
        assert(s.drop_last().take(k) =~= s.take(k));
    } else {
        assert(s.take(k) =~= s);
    }
}

proof fn lemma_nums_prefix(ws: Seq<Seq<char>>, k: int)
    requires
        0 <= k <= ws.len(),
    ensures
        nums_of(ws.take(k)).len() <= nums_of(ws).len(),
        nums_of(ws.take(k)) == nums_of(ws).take(nums_of(ws.take(k)).len() as int),
    decreases ws.len(),
{
    if k < ws.len() {
        lemma_nums_prefix(ws.drop_last(), k);
        assert(ws.drop_last().take(k) =~= ws.take(k));
        let a = nums_of(ws.drop_last());
        let b = nums_of(ws);
        let t = nums_of(ws.take(k));
        assert(t =~= b.take(t.len() as int));
    } else {
        assert(ws.take(k) =~= ws);
        assert(nums_of(ws).take(nums_of(ws).len() as int) =~= nums_of(ws));
    }
}

proof fn lemma_idle_within_total(n: Seq<u64>)
    requires
        n.len() >= 4,
    ensures
        n[3] + (if n.len() > 4 {
            n[4] as int
        } else {
            0int
        }) <= sum_of(n),
{
    let k: int = if n.len() > 4 {
        5
    } else {
        4
    };
    lemma_sum_prefix(n, k);
    lemma_sum_nonneg(n.take(3));
    assert(n.take(4).drop_last() =~= n.take(3));
    assert(n.take(4).last() == n[3]);
    assert(sum_of(n.take(4)) == sum_of(n.take(3)) + n[3]);
    if k == 5 {
        assert(n.take(5).drop_last() =~= n.take(4));
        assert(n.take(5).last() == n[4]);
        assert(sum_of(n.take(5)) == sum_of(n.take(4)) + n[4]);
    }
}

/// The idle and total jiffies from the text of `/proc/stat`.
pub fn proc_stat_totals(raw: &str) -> (r: Option<(u64, u64)>)
    requires
        proc_stat_fits(raw@),
    ensures
        r == proc_stat_spec(raw@),
{
    let chars = chars_of(raw);
    let ls = lines_of(&chars);
    if ls.len() == 0 {
        return None;
    }
    let line = &ls[0];
    proof {
        assert(views(ls@)[0] == line@);
    }
    if !starts_with_str(line, "cpu ") {
        return None;
    }
    let ws = words_of(line);
    let ghost wv = views(ws@);
    let ghost rest: Seq<Seq<char>> = if wv.len() > 0 {
        wv.skip(1)
    } else {
        wv
    };
    let ghost all = nums_of(rest);
    let mut nums: Vec<u64> = Vec::new();
    let mut total: u64 = 0;
    let mut k: usize = if ws.len() > 0 {
        1
    } else {
        0
    };
    proof {
        assert(rest =~= wv.skip(k as int));
        assert(wv.skip(k as int).take(0) =~= Seq::<Seq<char>>::empty());
        assert(sum_of(all) <= u64::MAX);
    }
    while k < ws.len()
        invariant
            wv == views(ws@),
            1 <= k <= ws.len() || (k == 0 && ws.len() == 0),
            rest == wv.skip(if wv.len() > 0 { 1int } else { 0int }),
            all == nums_of(rest),
            sum_of(all) <= u64::MAX,
            nums@ == nums_of(rest.take(k - (if wv.len() > 0 { 1int } else { 0int }))),
            total == sum_of(nums@),
        decreases ws.len() - k,
    {
        let ghost j = k - 1;
        proof {
            assert(rest.take(j + 1).drop_last() =~= rest.take(j));
            assert(rest.take(j + 1).last() == ws@[k as int]@);
            assert(wv[k as int] == ws@[k as int]@);
        }
        match parse_u64(&ws[k]) {
            Some(v) => {
                proof {
                    lemma_nums_prefix(rest, j + 1);
                    lemma_sum_prefix(all, nums_of(rest.take(j + 1)).len() as int);
                    assert(nums_of(rest.take(j + 1)) == nums@.push(v));
                    assert(nums@.push(v).drop_last() =~= nums@);
                }
                total = total + v;
                nums.push(v);
            },
            None => {},
        }
        k += 1;
    }
    proof {
        let d: int = if wv.len() > 0 {
            1
        } else {
            0
        };
        assert(rest.take(k - d) =~= rest);
        assert(stat_nums(raw@) == Some(all));
    }
    if nums.len() < 4 {
        return None;
    }
    proof {
        lemma_idle_within_total(nums@);
    }
    let idle = if nums.len() > 4 {
        nums[3] + nums[4]
    } else {
        nums[3]
    };
    Some((idle, total))
}

/// Whether the numbers of the `cpu` line of a `/proc/stat` text add up
/// within `u64` (what [`proc_stat_totals`] asks of its input).
pub fn proc_stat_fits_text(raw: &str) -> (r: bool)
    ensures
        r == proc_stat_fits(raw@),
{
    let chars = chars_of(raw);
    let ls = lines_of(&chars);
    if ls.len() == 0 {
        return true;
    }
    let line = &ls[0];
    proof {
        assert(views(ls@)[0] == line@);
    }
    if !starts_with_str(line, "cpu ") {
        return true;
    }
    let ws = words_of(line);
    let ghost wv = views(ws@);
    let ghost rest: Seq<Seq<char>> = if wv.len() > 0 {
        wv.skip(1)
    } else {
        wv
    };
    let ghost all = nums_of(rest);
    let mut nums: Vec<u64> = Vec::new();
    let mut total: u64 = 0;
    let mut k: usize = if ws.len() > 0 {
        1
    } else {
        0
    };
    proof {
        assert(rest =~= wv.skip(k as int));
        assert(wv.skip(k as int).take(0) =~= Seq::<Seq<char>>::empty());
        assert(stat_nums(raw@) == Some(all));
    }
    while k < ws.len()
        invariant
            wv == views(ws@),
            1 <= k <= ws.len() || (k == 0 && ws.len() == 0),
            rest == wv.skip(if wv.len() > 0 { 1int } else { 0int }),
            all == nums_of(rest),
            stat_nums(raw@) == Some(all),
            nums@ == nums_of(rest.take(k - (if wv.len() > 0 { 1int } else { 0int }))),
            total == sum_of(nums@),
        decreases ws.len() - k,
    {
        let ghost j = k - 1;
        proof {
            assert(rest.take(j + 1).drop_last() =~= rest.take(j));
            assert(rest.take(j + 1).last() == ws@[k as int]@);
            assert(wv[k as int] == ws@[k as int]@);
        }
        match parse_u64(&ws[k]) {
            Some(v) => {
                proof {
                    lemma_nums_prefix(rest, j + 1);
                    assert(nums_of(rest.take(j + 1)) == nums@.push(v));
                    assert(nums@.push(v).drop_last() =~= nums@);
                }
                match total.checked_add(v) {
                    Some(t) => {
                        total = t;
                    },
                    None => {
                        proof {
                            lemma_sum_prefix(all, nums@.len() + 1int);
                        }
                        return false;
                    },
                }
                nums.push(v);
            },
            None => {},
        }
        k += 1;
    }
    proof {
        let d: int = if wv.len() > 0 {
            1
        } else {
            0
        };
        assert(rest.take(k - d) =~= rest);
    }
    true
}

/// The idle and total jiffies from the text of `/proc/stat`, where its
/// `cpu` line adds up within `u64`; `None` where it does not, or where
/// [`proc_stat_totals`] finds none.
pub fn proc_stat_checked(raw: &str) -> (r: Option<(u64, u64)>)
    ensures
        r == (if proc_stat_fits(raw@) {
            proc_stat_spec(raw@)
        } else {
            None
        }),
{
    if proc_stat_fits_text(raw) {
        proc_stat_totals(raw)
    } else {
        None
    }
}

/// The share of busy time between two samples, in hundredths of a percent:
/// busy is the total less the idle time (saturating), `None` when no time passed.
pub open spec fn cpu_hundredths_spec(didle: u64, dtotal: u64) -> Option<u16> {
    if dtotal == 0 {
        None
    } else {
        let h = sat_sub(dtotal, didle) * 10000 / (dtotal as int);
        Some(
            (if h > 10000 {
                10000
            } else {
                h
            }) as u16,
        )
    }
}

pub fn cpu_used_hundredths(didle: u64, dtotal: u64) -> (r: Option<u16>)
    ensures
        r == cpu_hundredths_spec(didle, dtotal),
{
    if dtotal == 0 {
        return None;
    }
    let used = sub_sat(dtotal, didle);
    let wide: u128 = (used as u128) * 10000;
    let h = wide / (dtotal as u128);
    proof {
        assert(used <= dtotal);
        assert(h <= 10000) by (nonlinear_arith)
            requires
                h as int == (used as int) * 10000 / (dtotal as int),
                used <= dtotal,
                dtotal > 0,
        ;
    }
    let capped: u128 = if h > 10000 {
        10000
    } else {
        h
    };
    Some(capped as u16)
}

/// The CPU share since the previous sample `prev` (idle, total): none on the
/// first sample or when no time has passed; each count only grows, so the
/// differences saturate at 0.
pub fn cpu_percent_between(prev: Option<(u64, u64)>, elapsed: bool, idle: u64, total: u64) -> (r:
    Option<u16>)
    ensures
        r == (match prev {
            Some(p) => if elapsed {
                cpu_hundredths_spec(sat_sub(idle, p.0), sat_sub(total, p.1))
            } else {
                None
            },
            None => None,
        }),
{
    match prev {
        Some(p) => if elapsed {
            cpu_used_hundredths(sub_sat(idle, p.0), sub_sat(total, p.1))
        } else {
            None
        },
        None => None,
    }
}

/// The second line of `df -P` output, read as the file system's mount point,
/// bytes used and bytes in all: its sixth, third and second columns.
pub open spec fn df_spec(text: Seq<char>) -> Option<(Seq<char>, u64, u64)> {
    let ls = lines(text);
    if ls.len() < 2 {
        None
    } else {
        let cols = words(ls[1]);
        if cols.len() < 6 {
            None
        } else {
            match (
                parse_unsigned(cols[1], u64::MAX as int),
                parse_unsigned(cols[2], u64::MAX as int),
            ) {
                (Some(t), Some(u)) => Some((cols[5], u as u64, t as u64)),
                _ => None,
            }
        }
    }
}

pub open spec fn disk_view(d: DiskStatus) -> (Seq<char>, u64, u64) {
    (d.path@, d.used_bytes, d.total_bytes)
}

/// A disk from `df -P` output.
pub fn parse_df(text: &str) -> (r: Option<DiskStatus>)
    ensures
        r is Some <==> df_spec(text@) is Some,
        r matches Some(d) ==> disk_view(d) == df_spec(text@).unwrap(),
{
    let chars = chars_of(text);
    let ls = lines_of(&chars);
    if ls.len() < 2 {
        return None;
    }
    proof {
        assert(views(ls@)[1] == ls@[1]@);
    }
    let cols = words_of(&ls[1]);
    if cols.len() < 6 {
        return None;
    }
    proof {
        assert(views(cols@)[1] == cols@[1]@);
        assert(views(cols@)[2] == cols@[2]@);
        assert(views(cols@)[5] == cols@[5]@);
    }
    let total = match parse_u64(&cols[1]) {
        Some(v) => v,
        None => {
            return None;
        },
    };
    let used = match parse_u64(&cols[2]) {
        Some(v) => v,
        None => {
            return None;
        },
    };
    Some(DiskStatus { path: string_of(&cols[5]), used_bytes: used, total_bytes: total })
}

/// A disk read with `df -kP`: its counts are in kB, here turned into bytes (saturating).
pub fn scale_kib(st: DiskStatus) -> (r: DiskStatus)
    ensures
        r.path == st.path,
        r.used_bytes == sat_mul(st.used_bytes, 1024),
        r.total_bytes == sat_mul(st.total_bytes, 1024),
{
    DiskStatus {
        path: st.path,
        used_bytes: mul_sat(st.used_bytes, 1024),
        total_bytes: mul_sat(st.total_bytes, 1024),
    }
}

/// The disks to show: the root file system, then grok's home under its own
/// path unless it reads the same sizes as the root (the same disk).
pub open spec fn disks_spec(
    root: Option<(Seq<char>, u64, u64)>,
    home: Option<(Seq<char>, u64, u64)>,
    grok_home: Seq<char>,
) -> Seq<(Seq<char>, u64, u64)> {
    let base: Seq<(Seq<char>, u64, u64)> = match root {
        Some(x) => seq![x],
        None => Seq::empty(),
    };
    match home {
        Some(h) => if base.len() == 0 || base[0].2 != h.2 || base[0].1 != h.1 {
            base.push((grok_home, h.1, h.2))
        } else {
            base
        },
        None => base,
    }
}

pub open spec fn opt_disk(d: Option<DiskStatus>) -> Option<(Seq<char>, u64, u64)> {
    match d {
        Some(x) => Some(disk_view(x)),
        None => None,
    }
}

/// The disk list from what `df` gave for `/` and for grok's home.
pub fn disk_list(root: Option<DiskStatus>, home: Option<DiskStatus>, grok_home: String) -> (r: Vec<
    DiskStatus,
>)
    ensures
        r@.map_values(|d: DiskStatus| disk_view(d)) == disks_spec(
            opt_disk(root),
            opt_disk(home),
            grok_home@,
        ),
{
    let mut disks: Vec<DiskStatus> = Vec::new();
    match root {
        Some(d) => {
            disks.push(d);
        },
        None => {},
    }
    let ghost base = disks@.map_values(|d: DiskStatus| disk_view(d));
    match home {
        Some(h) => {
            let differs = disks.len() == 0 || disks[0].total_bytes != h.total_bytes
                || disks[0].used_bytes != h.used_bytes;
            if differs {
                disks.push(
                    DiskStatus { path: grok_home, used_bytes: h.used_bytes, total_bytes: h.total_bytes },
                );
                proof {
                    assert(disks@.map_values(|d: DiskStatus| disk_view(d)) =~= base.push(
                        (grok_home@, h.used_bytes, h.total_bytes),
                    ));
                }
            }
        },
        None => {},
    }
    proof {
        assert(base =~= (match opt_disk(root) {
            Some(x) => seq![x],
            None => Seq::<(Seq<char>, u64, u64)>::empty(),
        }));
    }
    disks
}

} // verus!
