use appmem::procfs::{
    command_name, find_labeled, is_numeric_dir, parse_memtotal_kb, parse_status_vmrss_kb,
    split_cmdline, Labeled,
};
use appmem::sample::{ProcessSample, RawProcess};

fn lines(text: &[&str]) -> Vec<String> {
    text.iter().map(|l| l.to_string()).collect()
}

fn status_with_rss(kb: &str) -> Vec<String> {
    vec![
        "Name:\tworker".to_string(),
        "State:\tS (sleeping)".to_string(),
        "VmPeak:\t  999999 kB".to_string(),
        format!("VmRSS:\t{} kB", kb),
        "VmData:\t    1111 kB".to_string(),
    ]
}

#[test]
fn process_entries_are_named_by_digits() {
    assert!(is_numeric_dir("1"));
    assert!(is_numeric_dir("4242"));
    assert!(is_numeric_dir("007"));
    assert!(is_numeric_dir("99999999999999999999999999"));
    assert!(!is_numeric_dir(""));
    assert!(!is_numeric_dir("self"));
    assert!(!is_numeric_dir("12a"));
    assert!(!is_numeric_dir("a12"));
    assert!(!is_numeric_dir("1 2"));
    assert!(!is_numeric_dir("-1"));
    assert!(!is_numeric_dir("+1"));
    assert!(!is_numeric_dir("1.5"));
    assert!(!is_numeric_dir("٣"));
}

#[test]
fn command_name_is_the_file_name_of_the_first_argument() {
    assert_eq!(command_name("/usr/bin/python3\0script.py\0"), Some("python3".to_string()));
    assert_eq!(command_name("java\0-jar\0app.jar\0"), Some("java".to_string()));
    assert_eq!(command_name("bash"), Some("bash".to_string()));
    assert_eq!(command_name("/opt/jdk/bin/java\0"), Some("java".to_string()));
    assert_eq!(command_name("./run.sh\0--fast\0"), Some("run.sh".to_string()));
}

#[test]
fn command_name_is_the_first_word_of_the_first_argument() {
    assert_eq!(
        command_name("nginx: master process /usr/sbin/nginx\0"),
        Some("nginx:".to_string())
    );
    assert_eq!(command_name("/usr/sbin/sshd -D\0"), Some("sshd".to_string()));
    assert_eq!(command_name("postgres: writer\0\0\0"), Some("postgres:".to_string()));
    assert_eq!(command_name("/a b/c\0"), Some("a".to_string()));
    assert_eq!(command_name("/usr/bin/tool\t--flag\0"), Some("tool".to_string()));
    assert_eq!(command_name("  /usr/bin/padded  x\0"), Some("padded".to_string()));
}

#[test]
fn command_line_without_a_command() {
    assert_eq!(command_name(""), None);
    assert_eq!(command_name("\0"), None);
    assert_eq!(command_name("\0java\0"), None);
    assert_eq!(command_name(" \0java\0"), None);
    assert_eq!(command_name(" \t \0"), None);
    assert_eq!(command_name("/\0"), None);
    assert_eq!(command_name("..\0x\0"), None);
    assert_eq!(command_name("/usr/bin/.. x\0"), None);
}

#[test]
fn command_line_is_split_at_nul() {
    assert_eq!(split_cmdline("java\0-jar\0a.jar\0"), lines(&["java", "-jar", "a.jar"]));
    assert_eq!(split_cmdline("java\0-jar\0a.jar"), lines(&["java", "-jar", "a.jar"]));
    assert_eq!(split_cmdline("one"), lines(&["one"]));
    assert_eq!(split_cmdline("with blank\0x y\0"), lines(&["with blank", "x y"]));
}

#[test]
fn empty_arguments_are_left_out() {
    assert_eq!(split_cmdline(""), Vec::<String>::new());
    assert_eq!(split_cmdline("\0"), Vec::<String>::new());
    assert_eq!(split_cmdline("\0\0\0"), Vec::<String>::new());
    assert_eq!(split_cmdline("a\0\0b"), lines(&["a", "b"]));
    assert_eq!(split_cmdline("\0a\0\0\0b\0\0"), lines(&["a", "b"]));
    assert_eq!(split_cmdline("é\0語\0"), lines(&["é", "語"]));
}

#[test]
fn resident_memory_is_read_from_the_status() {
    assert_eq!(parse_status_vmrss_kb(&status_with_rss("    1234")), Some(1234));
    assert_eq!(parse_status_vmrss_kb(&lines(&["VmRSS:\t       8 kB"])), Some(8));
    assert_eq!(parse_status_vmrss_kb(&lines(&["VmRSS:77"])), Some(77));
    assert_eq!(parse_status_vmrss_kb(&lines(&["VmRSS: 0 kB"])), Some(0));
    assert_eq!(parse_status_vmrss_kb(&lines(&["VmRSS: +5 kB"])), Some(5));
}

#[test]
fn status_without_resident_memory_reads_as_zero() {
    assert_eq!(parse_status_vmrss_kb(&lines(&[])), Some(0));
    assert_eq!(parse_status_vmrss_kb(&lines(&["Name:\tkthreadd", "State:\tS"])), Some(0));
    assert_eq!(parse_status_vmrss_kb(&lines(&[" VmRSS: 12 kB"])), Some(0));
    assert_eq!(parse_status_vmrss_kb(&lines(&["vmrss: 12 kB"])), Some(0));
    assert_eq!(parse_status_vmrss_kb(&lines(&["VmRSS 12 kB"])), Some(0));
}

#[test]
fn resident_memory_that_cannot_be_read() {
    assert_eq!(parse_status_vmrss_kb(&lines(&["VmRSS:"])), None);
    assert_eq!(parse_status_vmrss_kb(&lines(&["VmRSS:   \t"])), None);
    assert_eq!(parse_status_vmrss_kb(&lines(&["VmRSS: lots kB"])), None);
    assert_eq!(parse_status_vmrss_kb(&lines(&["VmRSS: 12kB"])), None);
    assert_eq!(parse_status_vmrss_kb(&lines(&["VmRSS: -3 kB"])), None);
    assert_eq!(parse_status_vmrss_kb(&lines(&["VmRSS: 18446744073709551616 kB"])), None);
}

#[test]
fn the_first_line_with_the_label_decides() {
    assert_eq!(parse_status_vmrss_kb(&lines(&["VmRSS: 1 kB", "VmRSS: 2 kB"])), Some(1));
    assert_eq!(parse_status_vmrss_kb(&lines(&["VmRSS: x", "VmRSS: 2 kB"])), None);
    assert_eq!(parse_status_vmrss_kb(&lines(&["Other: 9", "VmRSS: 2 kB", "VmRSS: x"])), Some(2));
}

#[test]
fn total_memory_is_read_from_the_statistics() {
    let meminfo = lines(&[
        "MemFree:         1234567 kB",
        "MemTotal:       16384256 kB",
        "MemAvailable:    9876543 kB",
    ]);
    assert_eq!(parse_memtotal_kb(&meminfo), Some(16384256));
    assert_eq!(parse_memtotal_kb(&lines(&["MemTotal: 0 kB"])), Some(0));
    assert_eq!(parse_memtotal_kb(&lines(&["MemTotal:\u{a0}12\u{2003}kB"])), Some(12));
}

#[test]
fn total_memory_that_is_missing_or_cannot_be_read() {
    assert_eq!(parse_memtotal_kb(&lines(&[])), None);
    assert_eq!(parse_memtotal_kb(&lines(&["MemFree: 12 kB"])), None);
    assert_eq!(parse_memtotal_kb(&lines(&["MemTotal:"])), None);
    assert_eq!(parse_memtotal_kb(&lines(&["MemTotal: many"])), None);
    assert_eq!(parse_memtotal_kb(&lines(&["MemTotal: 1e9 kB"])), None);
    assert_eq!(parse_memtotal_kb(&lines(&["MemTotal: many", "MemTotal: 5 kB"])), None);
}

#[test]
fn labelled_values() {
    let text = lines(&["A: 1", "B:", "C: 18446744073709551615", "D: 18446744073709551616"]);
    assert_eq!(find_labeled(&text, "A:"), Labeled::Kilobytes(1));
    assert_eq!(find_labeled(&text, "B:"), Labeled::Malformed);
    assert_eq!(find_labeled(&text, "C:"), Labeled::Kilobytes(u64::MAX));
    assert_eq!(find_labeled(&text, "D:"), Labeled::Malformed);
    assert_eq!(find_labeled(&text, "E:"), Labeled::Missing);
    assert_eq!(find_labeled(&text, ""), Labeled::Malformed);
    assert_eq!(find_labeled(&lines(&["17 rest"]), ""), Labeled::Kilobytes(17));
}

fn raw(entry: &str, status: Option<Vec<String>>, cmdline: Option<&str>, exe: Option<&str>) -> RawProcess {
    RawProcess {
        entry: entry.to_string(),
        status,
        cmdline: cmdline.map(|c| c.to_string()),
        exe: exe.map(|e| e.to_string()),
    }
}

#[test]
fn a_sample_from_the_readings_of_a_process() {
    let readings = raw(
        "4242",
        Some(status_with_rss("  20480")),
        Some("/usr/lib/jvm/bin/java\0-Xmx1g\0-jar\0/srv/app.jar\0"),
        Some("/usr/lib/jvm/java-17-openjdk/bin/java"),
    );
    let sample = ProcessSample::from_proc(&readings).expect("a sample");
    assert_eq!(sample.pid(), "4242");
    assert_eq!(sample.rss_kb(), 20480);
    assert_eq!(sample.command(), "java");
    assert_eq!(sample.argv(), lines(&["/usr/lib/jvm/bin/java", "-Xmx1g", "-jar", "/srv/app.jar"]));
    assert_eq!(sample.exe(), Some("java"));
}

#[test]
fn a_sample_without_a_resolved_executable() {
    let gone = raw("1", Some(status_with_rss("5")), Some("sh\0"), None);
    assert_eq!(ProcessSample::from_proc(&gone).unwrap().exe(), None);
    let root = raw("1", Some(status_with_rss("5")), Some("sh\0"), Some("/"));
    assert_eq!(ProcessSample::from_proc(&root).unwrap().exe(), None);
    let deleted = raw("1", Some(status_with_rss("5")), Some("sh\0"), Some("/usr/bin/sh (deleted)"));
    assert_eq!(ProcessSample::from_proc(&deleted).unwrap().exe(), Some("sh (deleted)"));
}

#[test]
fn readings_that_give_no_sample() {
    let status = || Some(status_with_rss("64"));
    assert!(ProcessSample::from_proc(&raw("12", status(), Some("sh\0"), None)).is_some());
    assert!(ProcessSample::from_proc(&raw("self", status(), Some("sh\0"), None)).is_none());
    assert!(ProcessSample::from_proc(&raw("", status(), Some("sh\0"), None)).is_none());
    assert!(ProcessSample::from_proc(&raw("12", None, Some("sh\0"), None)).is_none());
    assert!(ProcessSample::from_proc(&raw("12", status(), None, None)).is_none());
    assert!(ProcessSample::from_proc(&raw("12", status(), Some(""), None)).is_none());
    assert!(ProcessSample::from_proc(&raw("12", status(), Some("\0"), None)).is_none());
    let zero = Some(status_with_rss("0"));
    assert!(ProcessSample::from_proc(&raw("12", zero, Some("sh\0"), None)).is_none());
    let kernel_thread = Some(lines(&["Name:\tkworker/0:1", "State:\tI (idle)"]));
    assert!(ProcessSample::from_proc(&raw("12", kernel_thread, Some(""), None)).is_none());
    let garbled = Some(lines(&["VmRSS:\t?? kB"]));
    assert!(ProcessSample::from_proc(&raw("12", garbled, Some("sh\0"), None)).is_none());
}

#[test]
fn samples_are_made_of_valid_parts_only() {
    assert!(ProcessSample::new("12", 1, "sh", vec![], None).is_some());
    assert!(ProcessSample::new("12", 0, "sh", vec![], None).is_none());
    assert!(ProcessSample::new("12", 1, "", vec![], None).is_none());
    assert!(ProcessSample::new("", 1, "sh", vec![], None).is_none());
    assert!(ProcessSample::new("pid", 1, "sh", vec![], None).is_none());
    let sample =
        ProcessSample::new("12", u64::MAX, "sh", lines(&["sh", "-c"]), Some("dash".to_string()))
            .unwrap();
    assert_eq!(sample.pid(), "12");
    assert_eq!(sample.rss_kb(), u64::MAX);
    assert_eq!(sample.command(), "sh");
    assert_eq!(sample.argv(), lines(&["sh", "-c"]));
    assert_eq!(sample.exe(), Some("dash"));
}
