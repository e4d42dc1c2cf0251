//! Processes and the host, out of what was read under `/proc`.

use rdmatop::stat::{
    aggregate_by_process, proc_mem_stats, read_proc_cmdline, read_proc_shr_kb, read_proc_stat,
    read_proc_uid, resolve_cmdline, resolve_user, tally, total_memory_kb, uid_to_name, ProcFiles,
    QpInfo,
};
use rdmatop::tui::sysinfo::{
    first_word, format_uptime, read_cpu_usage, read_hostname, read_load_avg, read_meminfo,
    read_sysinfo, CpuUsage, SysFiles,
};

const PASSWD: &str = "root:x:0:0:root:/root:/bin/sh\nbob:x:1000:1000::/home/bob:/bin/sh\n";

const STAT: &str = "42 (a ) b) S 1 2 3 4 5 6 7 8 9 10 11 12 13 14 15 -5 17 18 19 20480 21 22";

#[test]
fn the_command_name_may_hold_anything() {
    let ps = read_proc_stat(STAT).unwrap();
    assert_eq!(ps.state, 'S');
    assert_eq!(ps.nice, -5);
    assert_eq!(ps.num_threads, 17);
    assert_eq!(ps.vsize, 20480);
    assert_eq!(ps.rss_pages, 21);
    assert_eq!(proc_mem_stats(&Some(ps)), ('S', -5, 20, 84, 17));
    assert_eq!(proc_mem_stats(&None), ('?', 0, 0, 0, 0));
    assert!(read_proc_stat("no parenthesis").is_none());
    assert!(read_proc_stat("1 (x) S 1 2").is_none());
}

#[test]
fn small_files_are_read_word_by_word() {
    assert_eq!(read_proc_shr_kb("100 50 25 1 0"), 100);
    assert_eq!(read_proc_shr_kb("100 50"), 0);
    assert_eq!(read_proc_shr_kb("100 50 x"), 0);
    assert_eq!(read_proc_uid("Name:\tx\nUid:\t1000\t1000\n"), 1000);
    assert_eq!(read_proc_uid("Name:\tx\n"), 0);
    assert_eq!(total_memory_kb("MemTotal:  16384 kB\nMemFree: 1 kB\n"), 16384);
    assert_eq!(total_memory_kb(""), 1);
    assert_eq!(read_proc_cmdline("python\0train.py\0"), "python train.py");
    assert_eq!(resolve_cmdline("", "comm"), "comm");
    assert_eq!(resolve_cmdline("x\0", "comm"), "x");
}

#[test]
fn users_are_named_by_the_password_file() {
    assert_eq!(uid_to_name(PASSWD, 1000), "bob");
    assert_eq!(uid_to_name(PASSWD, 7), "7");
    assert_eq!(resolve_user(PASSWD, 0, &None), "?");
    assert_eq!(resolve_user(PASSWD, 0, &read_proc_stat(STAT)), "root");
    assert_eq!(resolve_user(PASSWD, 1000, &None), "bob");
}

fn qp(pid: u32, dev: &str) -> QpInfo {
    QpInfo {
        dev_name: dev.to_string(),
        lqpn: 0,
        qp_type: 0,
        state: 0,
        pid,
        comm: format!("c{pid}"),
    }
}

#[test]
fn queue_pairs_are_counted_by_process_and_device() {
    let qps = [qp(2, "a"), qp(1, "a"), qp(0, "a"), qp(2, "b"), qp(2, "a"), qp(1, "a"), qp(3, "a")];
    let counted: Vec<_> = tally(&qps)
        .iter()
        .map(|t| (t.pid, t.dev_name.clone(), t.qp_count))
        .collect();
    assert_eq!(counted.len(), 4);
    assert!(counted.contains(&(2, "a".to_string(), 2)));
    let files = [ProcFiles {
        pid: 2,
        stat: STAT.to_string(),
        statm: "1 2 3".to_string(),
        status: "Uid:\t1000\n".to_string(),
        cmdline: String::new(),
    }];
    let all = aggregate_by_process(&qps, &files, PASSWD, "MemTotal: 8 kB");
    let order: Vec<_> = all.iter().map(|p| (p.qp_count, p.pid)).collect();
    assert_eq!(order, vec![(2, 1), (2, 2), (1, 2), (1, 3)]);
    let two = &all[1];
    assert_eq!((two.user.as_str(), two.state, two.virt_kb, two.res_kb), ("bob", 'S', 20, 84));
    assert_eq!((two.shr_kb, two.mem_total_kb, two.threads), (12, 8, 17));
    assert_eq!(two.cmdline, "c2");
    // A process that has gone keeps its name and nothing else.
    assert_eq!((all[0].user.as_str(), all[0].state, all[0].cmdline.as_str()), ("?", '?', "c1"));
}

#[test]
fn host_figures_are_read() {
    assert_eq!(read_hostname(" node1\n"), "node1");
    assert_eq!(read_hostname("\n"), "unknown");
    assert_eq!(format_uptime(93_784), "up 1 days, 2:03");
    assert_eq!(format_uptime(0), "up 0 days, 0:00");
    assert_eq!(first_word(" 12.5 9\n"), "12.5");
    assert_eq!(first_word(""), "");
    assert_eq!(read_load_avg("0.1 0.2 0.3 1/2 3\n"), "0.1, 0.2, 0.3");
    assert_eq!(read_load_avg("0.1"), "0.1");
    assert_eq!(
        read_meminfo("MemTotal: 4096 kB\nMemFree: 1 kB\nMemAvailable: 1024 kB\n"),
        (4, 3)
    );
    assert_eq!(read_meminfo("MemAvailable: 9 kB"), (0, 0));
    assert_eq!(
        read_cpu_usage("cpu  10 0 20 60 10\ncpu0 1 1 1 1\n"),
        CpuUsage { busy: 40, total: 100 }
    );
    assert_eq!(read_cpu_usage("cpu 1 2 3"), CpuUsage { busy: 0, total: 0 });
    let all = read_sysinfo(&SysFiles {
        hostname: "h".to_string(),
        loadavg: "1 2 3".to_string(),
        meminfo: "MemTotal: 2048 kB\nMemAvailable: 2048 kB".to_string(),
        stat: "cpu 0 0 0 0".to_string(),
        uptime_secs: 60,
    });
    assert_eq!(all.hostname, "h");
    assert_eq!((all.mem_total_mb, all.mem_used_mb), (2, 0));
    assert_eq!(all.uptime, "up 0 days, 0:01");
    assert_eq!(all.cpu.total, 0);
}
