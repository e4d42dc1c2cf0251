//! Host figures for the header, out of what was read under `/proc`.

use vstd::prelude::*;

use crate::stat;
use crate::text;

verus! {

/// Busy and total processor time since boot, in ticks; both are zero when
/// nothing is known.
#[derive(Clone, Copy, Debug, PartialEq, Eq, Structural)]
pub struct CpuUsage {
    pub busy: u128,
    pub total: u128,
}

/// Host figures shown in the header.
#[derive(Debug)]
pub struct SysInfo {
    pub hostname: String,
    pub uptime: String,
    pub load_avg: String,
    pub mem_total_mb: u64,
    pub mem_used_mb: u64,
    pub cpu: CpuUsage,
}

/// What the host figures hold.
#[verifier::ext_equal]
pub struct SysInfoView {
    pub hostname: Seq<char>,
    pub uptime: Seq<char>,
    pub load_avg: Seq<char>,
    pub mem_total_mb: u64,
    pub mem_used_mb: u64,
    pub cpu: CpuUsage,
}

impl View for SysInfo {
    type V = SysInfoView;

    open spec fn view(&self) -> SysInfoView {
        SysInfoView {
            hostname: self.hostname@,
            uptime: self.uptime@,
            load_avg: self.load_avg@,
            mem_total_mb: self.mem_total_mb,
            mem_used_mb: self.mem_used_mb,
            cpu: self.cpu,
        }
    }
}

impl Clone for SysInfo {
    fn clone(&self) -> (r: Self)
        ensures
            r@ == self@,
    {
        SysInfo {
            hostname: self.hostname.clone(),
            uptime: self.uptime.clone(),
            load_avg: self.load_avg.clone(),
            mem_total_mb: self.mem_total_mb,
            mem_used_mb: self.mem_used_mb,
            cpu: self.cpu,
        }
    }
}

/// The name of the host as shown.
pub open spec fn hostname_of(file: Seq<char>) -> Seq<char> {
    if text::trimmed(file).len() == 0 {
        "unknown"@
    } else {
        text::trimmed(file)
    }
}

/// The host name, from `/etc/hostname`.
pub fn read_hostname(file: &str) -> (r: String)
    ensures
        r@ == hostname_of(file@),
{
    let h = text::trim(file);
    if h.as_str().unicode_len() == 0 {
        "unknown".to_owned()
    } else {
        h
    }
}

/// The first word of a text; empty when there is none.
pub open spec fn first_word_of(file: Seq<char>) -> Seq<char> {
    let words = text::words(text::trimmed(file));
    if words.len() > 0 {
        words[0]
    } else {
        seq![]
    }
}

/// The first word of a text.
pub fn first_word(file: &str) -> (r: String)
    ensures
        r@ == first_word_of(file@),
{
    let whole = text::trim(file);
    let words = text::split_words(whole.as_str());
    assert(text::strings(words@).len() == words@.len());
    if words.len() > 0 {
        assert(text::strings(words@)[0] == words@[0]@);
        words[0].clone()
    } else {
        String::new()
    }
}

/// A time since boot as shown: days, hours and minutes.
pub open spec fn uptime_text(secs: u64) -> Seq<char> {
    "up "@ + text::decimal((secs / 86400) as nat) + " days, "@ + text::decimal(
        (secs % 86400 / 3600) as nat,
    ) + ":"@ + text::padded_left(text::decimal((secs % 3600 / 60) as nat), '0', 2)
}

/// Writes a time since boot.
pub fn format_uptime(secs: u64) -> (r: String)
    ensures
        r@ == uptime_text(secs),
{
    let mut out = "up ".to_owned();
    out.append(text::decimal_u64(secs / 86400).as_str());
    out.append(" days, ");
    out.append(text::decimal_u64(secs % 86400 / 3600).as_str());
    out.append(":");
    let minutes = text::decimal_u64(secs % 3600 / 60);
    out.append(text::pad_left(minutes.as_str(), '0', 2).as_str());
    out
}

/// The first words of a list, at most three.
pub open spec fn first_three(words: Seq<Seq<char>>) -> Seq<Seq<char>> {
    if words.len() < 3 {
        words
    } else {
        words.take(3)
    }
}

/// The load averages, from `/proc/loadavg`.
pub fn read_load_avg(file: &str) -> (r: String)
    ensures
        r@ == text::joined(first_three(text::words(text::trimmed(file@))), ", "@),
{
    let whole = text::trim(file);
    let words = text::split_words(whole.as_str());
    let ghost all = text::strings(words@);
    let n: usize = if words.len() < 3 {
        words.len()
    } else {
        3
    };
    let part: &[String] = &words.as_slice()[0..n];
    assert(text::strings(part@) =~= first_three(all));
    text::join(part, ", ")
}

/// The number on the last line that begins with a label; zero when there is
/// none.
pub open spec fn last_labelled(lines: Seq<Seq<char>>, label: Seq<char>) -> u64
    decreases lines.len(),
{
    if lines.len() == 0 {
        0
    } else if text::has_prefix(lines.last(), label) {
        stat::word_value(lines.last(), 1, u64::MAX as nat, 0)
    } else {
        last_labelled(lines.drop_last(), label)
    }
}

/// Total and used memory in megabytes.
pub open spec fn memory_of(file: Seq<char>) -> (u64, u64) {
    let lines = text::text_lines(text::trimmed(file));
    let total = last_labelled(lines, "MemTotal:"@);
    let avail = last_labelled(lines, "MemAvailable:"@);
    (
        total / 1024,
        if total >= avail {
            ((total - avail) / 1024) as u64
        } else {
            0
        },
    )
}

/// Total and used memory in megabytes, from `/proc/meminfo`.
pub fn read_meminfo(file: &str) -> (r: (u64, u64))
    ensures
        r == memory_of(file@),
{
    let whole = text::trim(file);
    let lines = text::split_lines(whole.as_str());
    let ghost all = text::strings(lines@);
    let mut total: u64 = 0;
    let mut avail: u64 = 0;
    let mut i: usize = 0;
    while i < lines.len()
        invariant
            i <= lines.len(),
            all == text::strings(lines@),
            total == last_labelled(all.take(i as int), "MemTotal:"@),
            avail == last_labelled(all.take(i as int), "MemAvailable:"@),
        decreases lines.len() - i,
    {
        proof {
            text::lemma_take_step(all, i as int);
            assert(all[i as int] == lines@[i as int]@);
        }
        let line = lines[i].as_str();
        if text::starts_with(line, "MemTotal:") {
            total = stat::parse_word(line, 1, u64::MAX, 0);
        }
        if text::starts_with(line, "MemAvailable:") {
            avail = stat::parse_word(line, 1, u64::MAX, 0);
        }
        i += 1;
    }
    assert(all.take(all.len() as int) =~= all);
    (total / 1024, total.saturating_sub(avail) / 1024)
}

/// The numbers among some words, in order.
pub open spec fn numbers_in(words: Seq<Seq<char>>) -> Seq<nat>
    decreases words.len(),
{
    if words.len() == 0 {
        seq![]
    } else {
        let before = numbers_in(words.drop_last());
        match text::unsigned_value(words.last(), u64::MAX as nat) {
            Some(v) => before.push(v),
            None => before,
        }
    }
}

/// Some numbers added up.
pub open spec fn sum_of(v: Seq<nat>) -> nat
    decreases v.len(),
{
    if v.len() == 0 {
        0
    } else {
        sum_of(v.drop_last()) + v.last()
    }
}

/// The processor times on the first line of a text. The fourth is idle time;
/// all others are busy.
pub open spec fn cpu_of(file: Seq<char>) -> CpuUsage {
    let lines = text::text_lines(text::trimmed(file));
    let words = text::words(if lines.len() > 0 {
        lines[0]
    } else {
        seq![]
    });
    let times = numbers_in(words.skip(if words.len() > 0 {
        1
    } else {
        0
    }));
    if times.len() < 4 {
        CpuUsage { busy: 0, total: 0 }
    } else {
        CpuUsage { busy: (sum_of(times) - times[3]) as u128, total: sum_of(times) as u128 }
    }
}

proof fn lemma_sum_at_least(v: Seq<nat>, i: int)
    requires
        0 <= i < v.len(),
    ensures
        v[i] <= sum_of(v),
    decreases v.len(),
{
    if i < v.len() - 1 {
        lemma_sum_at_least(v.drop_last(), i);
        assert(v.drop_last()[i] == v[i]);
    }
}

fn sum_words(words: &[String], from: usize) -> (r: (u64, u128, u64))
    requires
        from <= words@.len(),
    ensures
        ({
            let times = numbers_in(text::strings(words@).skip(from as int));
            &&& r.0 == times.len()
            &&& r.1 == sum_of(times)
            &&& times.len() >= 4 ==> r.2 == times[3]
        }),
{
    let ghost all = text::strings(words@).skip(from as int);
    let mut count: u64 = 0;
    let mut sum: u128 = 0;
    let mut fourth: u64 = 0;
    let mut i: usize = from;
    assert(all.take(0) =~= seq![]);
    while i < words.len()
        invariant
            from <= i <= words.len(),
            all == text::strings(words@).skip(from as int),
            count == numbers_in(all.take(i - from)).len(),
            count <= i - from,
            sum == sum_of(numbers_in(all.take(i - from))),
            sum <= count * 0xffff_ffff_ffff_ffff,
            count >= 4 ==> fourth == numbers_in(all.take(i - from))[3],
        decreases words.len() - i,
    {
        proof {
            text::lemma_take_step(all, i - from);
            assert(all[i - from] == words@[i as int]@);
        }
        if let Some(v) = text::parse_unsigned(words[i].as_str(), u64::MAX) {
            proof {
                let before = numbers_in(all.take(i - from));
                assert(before.push(v as nat).drop_last() =~= before);
                assert(count * 0xffff_ffff_ffff_ffff + 0xffff_ffff_ffff_ffff == (count + 1)
                    * 0xffff_ffff_ffff_ffff);
                assert((count + 1) * 0xffff_ffff_ffff_ffff <= 0x1_0000_0000_0000_0000
                    * 0xffff_ffff_ffff_ffff);
            }
            sum = sum + v as u128;
            if count == 3 {
                fourth = v;
            }
            count = count + 1;
        }
        i += 1;
    }
    assert(all.take(all.len() as int) =~= all);
    (count, sum, fourth)
}

/// The processor times, from `/proc/stat`.
pub fn read_cpu_usage(file: &str) -> (r: CpuUsage)
    ensures
        r == cpu_of(file@),
{
    let whole = text::trim(file);
    let lines = text::split_lines(whole.as_str());
    assert(text::strings(lines@).len() == lines@.len());
    let first: String = if lines.len() > 0 {
        assert(text::strings(lines@)[0] == lines@[0]@);
        lines[0].clone()
    } else {
        String::new()
    };
    let words = text::split_words(first.as_str());
    assert(text::strings(words@).len() == words@.len());
    let from: usize = if words.len() > 0 {
        1
    } else {
        0
    };
    let (count, total, idle) = sum_words(words.as_slice(), from);
    if count < 4 {
        return CpuUsage { busy: 0, total: 0 };
    }
    proof {
        lemma_sum_at_least(numbers_in(text::strings(words@).skip(from as int)), 3);
    }
    CpuUsage { busy: total - idle as u128, total }
}

/// The texts that the host figures are read from, each empty when it could not
/// be read, and the whole seconds since boot.
#[derive(Debug)]
pub struct SysFiles {
    pub hostname: String,
    pub loadavg: String,
    pub meminfo: String,
    pub stat: String,
    pub uptime_secs: u64,
}

/// The host figures of some texts.
pub open spec fn sysinfo_of(f: SysFiles) -> SysInfoView {
    SysInfoView {
        hostname: hostname_of(f.hostname@),
        uptime: uptime_text(f.uptime_secs),
        load_avg: text::joined(first_three(text::words(text::trimmed(f.loadavg@))), ", "@),
        mem_total_mb: memory_of(f.meminfo@).0,
        mem_used_mb: memory_of(f.meminfo@).1,
        cpu: cpu_of(f.stat@),
    }
}

/// Evaluates the texts that the host figures are read from.
pub fn read_sysinfo(f: &SysFiles) -> (r: SysInfo)
    ensures
        r@ == sysinfo_of(*f),
{
    let (mem_total_mb, mem_used_mb) = read_meminfo(f.meminfo.as_str());
    SysInfo {
        hostname: read_hostname(f.hostname.as_str()),
        uptime: format_uptime(f.uptime_secs),
        load_avg: read_load_avg(f.loadavg.as_str()),
        mem_total_mb,
        mem_used_mb,
        cpu: read_cpu_usage(f.stat.as_str()),
    }
}

/// No more of the memory is used than there is.
pub proof fn law_used_within_total(meminfo: Seq<char>)
    ensures
        memory_of(meminfo).1 <= memory_of(meminfo).0,
{
}

/// `lines[k]` begins with the label, and no line after it does.
pub open spec fn is_last_labelled(lines: Seq<Seq<char>>, k: int, label: Seq<char>) -> bool {
    &&& 0 <= k < lines.len()
    &&& text::has_prefix(lines[k], label)
    &&& forall|j: int| k < j < lines.len() ==> !text::has_prefix(#[trigger] lines[j], label)
}

proof fn lemma_last_labelled(lines: Seq<Seq<char>>, k: int, label: Seq<char>)
    requires
        is_last_labelled(lines, k, label),
    ensures
        last_labelled(lines, label) == stat::word_value(lines[k], 1, u64::MAX as nat, 0),
    decreases lines.len(),
{
    if k < lines.len() - 1 {
        let front = lines.drop_last();
        assert(!text::has_prefix(lines[lines.len() - 1], label));
        assert forall|j: int| k < j < front.len() implies !text::has_prefix(
            #[trigger] front[j],
            label,
        ) by {
            assert(!text::has_prefix(lines[j], label));
        }
        lemma_last_labelled(front, k, label);
    }
}

/// Memory in use is all memory less what is available, both in megabytes of 1024
/// kilobytes.
pub proof fn law_used_memory_is_not_available(meminfo: Seq<char>, t: int, a: int)
    requires
        is_last_labelled(text::text_lines(text::trimmed(meminfo)), t, "MemTotal:"@),
        is_last_labelled(text::text_lines(text::trimmed(meminfo)), a, "MemAvailable:"@),
    ensures
        ({
            let lines = text::text_lines(text::trimmed(meminfo));
            let total = stat::word_value(lines[t], 1, u64::MAX as nat, 0);
            let available = stat::word_value(lines[a], 1, u64::MAX as nat, 0);
            &&& memory_of(meminfo).0 == total / 1024
            &&& total >= available ==> memory_of(meminfo).1 == (total - available) / 1024
            &&& total < available ==> memory_of(meminfo).1 == 0
        }),
{
    let lines = text::text_lines(text::trimmed(meminfo));
    lemma_last_labelled(lines, t, "MemTotal:"@);
    lemma_last_labelled(lines, a, "MemAvailable:"@);
}

/// Times add up, and words that are no numbers are passed over.
pub proof fn law_times_add_up(
    a: Seq<nat>,
    b: Seq<nat>,
    n: nat,
    v: Seq<Seq<char>>,
    w: Seq<Seq<char>>,
    x: Seq<char>,
)
    ensures
        sum_of(a + b) == sum_of(a) + sum_of(b),
        sum_of(seq![n]) == n,
        numbers_in(v + w) == numbers_in(v) + numbers_in(w),
        numbers_in(seq![x]) == (match text::unsigned_value(x, u64::MAX as nat) {
            Some(m) => seq![m],
            None => seq![],
        }),
    decreases b.len() + w.len(),
{
    assert(seq![n].drop_last() =~= seq![]);
    assert(sum_of(seq![]) == 0);
    assert(seq![x].drop_last() =~= seq![]);
    assert(numbers_in(seq![]) =~= seq![]);
    assert(numbers_in(seq![x]) =~= (match text::unsigned_value(x, u64::MAX as nat) {
        Some(m) => seq![m],
        None => seq![],
    }));
    if b.len() > 0 {
        law_times_add_up(a, b.drop_last(), n, v, w, x);
        assert((a + b).drop_last() =~= a + b.drop_last());
        assert((a + b).last() == b.last());
    } else {
        assert(a + b =~= a);
        if w.len() > 0 {
            law_times_add_up(a, b, n, v, w.drop_last(), x);
            assert((v + w).drop_last() =~= v + w.drop_last());
            assert((v + w).last() == w.last());
        } else {
            assert(v + w =~= v);
            assert(numbers_in(w) =~= seq![]);
        }
        assert(numbers_in(v + w) =~= numbers_in(v) + numbers_in(w));
    }
}

/// Of the times on the first line, behind its label, the fourth is idle and all
/// the others are busy; with fewer than four there is nothing to tell.
pub proof fn law_idle_time_is_not_busy(file: Seq<char>, label: Seq<char>, times: Seq<Seq<char>>)
    requires
        text::text_lines(text::trimmed(file)).len() > 0,
        text::words(text::text_lines(text::trimmed(file))[0]) == seq![label] + times,
        sum_of(numbers_in(times)) <= u128::MAX,
    ensures
        numbers_in(times).len() < 4 ==> cpu_of(file).busy == 0 && cpu_of(file).total == 0,
        numbers_in(times).len() >= 4 ==> cpu_of(file).total == sum_of(numbers_in(times))
            && cpu_of(file).busy + numbers_in(times)[3] == cpu_of(file).total,
{
    let words = text::words(text::text_lines(text::trimmed(file))[0]);
    assert(words.skip(1) =~= times);
    let ns = numbers_in(times);
    if ns.len() >= 4 {
        lemma_part_of_sum(ns, 3);
    }
}

proof fn lemma_part_of_sum(v: Seq<nat>, i: int)
    requires
        0 <= i < v.len(),
    ensures
        v[i] <= sum_of(v),
    decreases v.len(),
{
    if i < v.len() - 1 {
        lemma_part_of_sum(v.drop_last(), i);
    }
}

/// The uptime is written in days, hours and minutes, the minutes with two
/// digits; seconds are left out.
pub proof fn law_uptime_is_split(days: u64, hours: u64, minutes: u64, seconds: u64)
    requires
        hours < 24,
        minutes < 60,
        seconds < 60,
        days * 86400 + hours * 3600 + minutes * 60 + seconds <= u64::MAX,
    ensures
        uptime_text((days * 86400 + hours * 3600 + minutes * 60 + seconds) as u64) == "up "@
            + text::decimal(days as nat) + " days, "@ + text::decimal(hours as nat) + ":"@
            + text::padded_left(text::decimal(minutes as nat), '0', 2),
{
    lemma_split_seconds(days as int, hours as int, minutes as int, seconds as int);
}

proof fn lemma_split_seconds(days: int, hours: int, minutes: int, seconds: int)
    requires
        0 <= days,
        0 <= hours < 24,
        0 <= minutes < 60,
        0 <= seconds < 60,
    ensures
        (days * 86400 + hours * 3600 + minutes * 60 + seconds) / 86400 == days,
        (days * 86400 + hours * 3600 + minutes * 60 + seconds) % 86400 / 3600 == hours,
        (days * 86400 + hours * 3600 + minutes * 60 + seconds) % 3600 / 60 == minutes,
{
    let s = days * 86400 + hours * 3600 + minutes * 60 + seconds;
    let m = minutes * 60 + seconds;
    assert(s % 86400 == hours * 3600 + m);
    assert(s == (days * 24 + hours) * 3600 + m);
    assert(s % 3600 == m);
}

/// The system's figures come each from its own file.
pub proof fn law_figures_come_from_their_files(f: SysFiles)
    ensures
        sysinfo_of(f).hostname == hostname_of(f.hostname@),
        sysinfo_of(f).uptime == uptime_text(f.uptime_secs),
        sysinfo_of(f).mem_total_mb == memory_of(f.meminfo@).0,
        sysinfo_of(f).mem_used_mb == memory_of(f.meminfo@).1,
        sysinfo_of(f).cpu == cpu_of(f.stat@),
        text::words(text::trimmed(f.loadavg@)).len() >= 3 ==> sysinfo_of(f).load_avg
            == text::words(text::trimmed(f.loadavg@))[0] + ", "@ + text::words(
            text::trimmed(f.loadavg@),
        )[1] + ", "@ + text::words(text::trimmed(f.loadavg@))[2],
        text::trimmed(f.hostname@).len() > 0 ==> sysinfo_of(f).hostname == text::trimmed(
            f.hostname@,
        ),
        text::trimmed(f.hostname@).len() == 0 ==> sysinfo_of(f).hostname == "unknown"@,
{
    let words = text::words(text::trimmed(f.loadavg@));
    if words.len() >= 3 {
        let three = words.take(3);
        assert(three.drop_last() =~= words.take(2));
        assert(words.take(2).drop_last() =~= words.take(1));
        assert(text::joined(words.take(1), ", "@) == words[0]);
        assert(text::joined(words.take(2), ", "@) == words[0] + ", "@ + words[1]);
        assert(text::joined(three, ", "@) == words[0] + ", "@ + words[1] + ", "@ + words[2]);
    }
}

/// What a value holds is what its fields hold, each under its own name.
pub proof fn law_views_hold_every_field(
    sys_info: SysInfo,
)
    ensures
        sys_info@.hostname == sys_info.hostname@,
        sys_info@.uptime == sys_info.uptime@,
        sys_info@.load_avg == sys_info.load_avg@,
        sys_info@.mem_total_mb == sys_info.mem_total_mb,
        sys_info@.mem_used_mb == sys_info.mem_used_mb,
        sys_info@.cpu == sys_info.cpu,
{
}

} // verus!
