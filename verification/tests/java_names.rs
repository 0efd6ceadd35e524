use appmem::identity::{resolve, starts_java};
use appmem::java::{
    find_jar_name, find_main_class, java_display_name, java_shown_name, parse_java_strategy,
    JavaStrategy,
};
use appmem::sample::ProcessSample;

fn args(tokens: &[&str]) -> Vec<String> {
    tokens.iter().map(|t| t.to_string()).collect()
}

fn java_sample(argv: &[&str], exe: Option<&str>) -> ProcessSample {
    ProcessSample::new("4242", 1000, "java", args(argv), exe.map(|e| e.to_string()))
        .expect("a process with memory and a name")
}

#[test]
fn automatic_strategy_names_the_archive() {
    let sample = java_sample(&["java", "-Xmx512m", "-jar", "/opt/app/server-1.2.jar"], None);
    assert_eq!(resolve(&sample, JavaStrategy::Auto), "java: server-1.2.jar");
}

#[test]
fn main_class_strategy_names_the_class_without_its_package() {
    let sample = java_sample(
        &["java", "-cp", "/lib/a.jar:/lib/b.jar", "com.example.Server", "--port=8080"],
        None,
    );
    assert_eq!(resolve(&sample, JavaStrategy::Main), "java: Server");
}

#[test]
fn without_a_name_the_executable_is_shown() {
    let bare = java_sample(&["java"], Some("openjdk"));
    assert_eq!(resolve(&bare, JavaStrategy::Auto), "java (openjdk)");
    assert_eq!(resolve(&bare, JavaStrategy::Jar), "java (openjdk)");
    assert_eq!(resolve(&bare, JavaStrategy::Main), "java (openjdk)");
    let flags_only = java_sample(&["java", "-Xmx1g", "-server"], Some("openjdk"));
    assert_eq!(resolve(&flags_only, JavaStrategy::Auto), "java (openjdk)");
}

#[test]
fn without_a_name_and_an_executable_the_placeholder_is_shown() {
    let sample = java_sample(&["java", "-Xmx1g"], None);
    assert_eq!(resolve(&sample, JavaStrategy::Auto), "java (java)");
    let empty = java_sample(&[], None);
    assert_eq!(resolve(&empty, JavaStrategy::Auto), "java (java)");
}

#[test]
fn automatic_strategy_falls_back_on_the_main_class() {
    let sample = java_sample(&["java", "-Dfoo=bar", "org.acme.tools.Indexer", "input"], None);
    assert_eq!(resolve(&sample, JavaStrategy::Auto), "java: Indexer");
    assert_eq!(resolve(&sample, JavaStrategy::Jar), "java (java)");
}

#[test]
fn the_windowless_launcher_is_a_java_launcher_too() {
    assert!(starts_java("java"));
    assert!(starts_java("javaw"));
    assert!(!starts_java("javac"));
    assert!(!starts_java("Java"));
    assert!(!starts_java(""));
    let sample =
        ProcessSample::new("7", 10, "javaw", args(&["javaw", "-jar", "ui.jar"]), None).unwrap();
    assert_eq!(resolve(&sample, JavaStrategy::Auto), "java: ui.jar");
}

#[test]
fn other_commands_are_their_own_key() {
    let sample = ProcessSample::new(
        "1",
        2048,
        "nginx",
        args(&["nginx", "-jar", "/x/y.jar"]),
        Some("nginx".to_string()),
    )
    .unwrap();
    assert_eq!(resolve(&sample, JavaStrategy::Auto), "nginx");
    assert_eq!(resolve(&sample, JavaStrategy::Jar), "nginx");
}

#[test]
fn jar_name_is_the_file_name_of_the_archive() {
    let cmdline = args(&["java", "-Xmx512m", "-jar", "/opt/app/server-1.2.jar"]);
    assert_eq!(find_jar_name(&cmdline), Some("server-1.2.jar".to_string()));
    assert_eq!(find_jar_name(&args(&["java", "-jar", "plain.jar"])), Some("plain.jar".to_string()));
    assert_eq!(
        find_jar_name(&args(&["java", "-jar", "/srv/apps/tool.jar/"])),
        Some("tool.jar".to_string())
    );
}

#[test]
fn jar_scan_skips_class_path_values() {
    for option in ["-cp", "-classpath", "--class-path"] {
        let cmdline = args(&["java", option, "-jar", "-jar", "/a/real.jar"]);
        assert_eq!(find_jar_name(&cmdline), Some("real.jar".to_string()));
    }
}

#[test]
fn jar_scan_stops_at_the_first_token_that_is_no_option() {
    assert_eq!(find_jar_name(&args(&["java", "com.example.Main", "-jar", "late.jar"])), None);
    assert_eq!(find_jar_name(&args(&["java", "", "-jar", "late.jar"])), None);
}

#[test]
fn jar_flag_without_a_file_gives_no_name() {
    assert_eq!(find_jar_name(&args(&["java", "-jar"])), None);
    assert_eq!(find_jar_name(&args(&["java", "-Xss1m", "-jar"])), None);
    assert_eq!(find_jar_name(&args(&["java", "-jar", "/"])), None);
    assert_eq!(find_jar_name(&args(&["java", "-jar", ".."])), None);
    assert_eq!(find_jar_name(&args(&["java", "-jar", ""])), None);
}

#[test]
fn jar_scan_of_short_command_lines() {
    assert_eq!(find_jar_name(&args(&[])), None);
    assert_eq!(find_jar_name(&args(&["java"])), None);
    assert_eq!(find_jar_name(&args(&["-jar", "first.jar"])), None);
    assert_eq!(find_jar_name(&args(&["java", "-cp"])), None);
    assert_eq!(find_jar_name(&args(&["java", "-cp", "lib"])), None);
}

#[test]
fn main_class_is_the_first_token_behind_the_options() {
    let cmdline =
        args(&["java", "-cp", "/lib/a.jar:/lib/b.jar", "com.example.Server", "--port=8080"]);
    assert_eq!(find_main_class(&cmdline), Some("com.example.Server".to_string()));
    assert_eq!(find_main_class(&args(&["java", "Main"])), Some("Main".to_string()));
    assert_eq!(find_main_class(&args(&["java", "-ea", "", "x"])), Some(String::new()));
}

#[test]
fn main_class_scan_runs_out_of_tokens() {
    assert_eq!(find_main_class(&args(&[])), None);
    assert_eq!(find_main_class(&args(&["java"])), None);
    assert_eq!(find_main_class(&args(&["java", "-Xmx1g", "-server"])), None);
    assert_eq!(find_main_class(&args(&["java", "-classpath"])), None);
    assert_eq!(find_main_class(&args(&["java", "--class-path", "x"])), None);
}

#[test]
fn main_class_scan_takes_the_jar_flag_for_a_plain_flag() {
    let cmdline = args(&["java", "-jar", "app.jar"]);
    assert_eq!(find_main_class(&cmdline), Some("app.jar".to_string()));
    assert_eq!(java_display_name(&cmdline, JavaStrategy::Main), Some("app.jar".to_string()));
    assert_eq!(java_display_name(&cmdline, JavaStrategy::Auto), Some("app.jar".to_string()));
    assert_eq!(java_shown_name(&cmdline, JavaStrategy::Main), Some("jar".to_string()));
    assert_eq!(java_shown_name(&cmdline, JavaStrategy::Auto), Some("app.jar".to_string()));
}

#[test]
fn an_unlisted_option_with_a_value_is_misread() {
    let cmdline = args(&["java", "--module-path", "mods", "-m", "app/com.example.Main"]);
    assert_eq!(find_main_class(&cmdline), Some("mods".to_string()));
    assert_eq!(java_display_name(&cmdline, JavaStrategy::Auto), Some("mods".to_string()));
    assert_eq!(java_shown_name(&cmdline, JavaStrategy::Auto), Some("mods".to_string()));
}

#[test]
fn display_name_follows_the_strategy() {
    let both = args(&["java", "-jar", "/opt/x/tool.jar", "run"]);
    assert_eq!(java_display_name(&both, JavaStrategy::Auto), Some("tool.jar".to_string()));
    assert_eq!(java_display_name(&both, JavaStrategy::Jar), Some("tool.jar".to_string()));
    assert_eq!(java_display_name(&both, JavaStrategy::Main), Some("/opt/x/tool.jar".to_string()));
    let class_only = args(&["java", "a.b.C"]);
    assert_eq!(java_display_name(&class_only, JavaStrategy::Auto), Some("a.b.C".to_string()));
    assert_eq!(java_display_name(&class_only, JavaStrategy::Jar), None);
    assert_eq!(java_display_name(&class_only, JavaStrategy::Main), Some("a.b.C".to_string()));
    assert_eq!(java_display_name(&args(&["java"]), JavaStrategy::Auto), None);
}

#[test]
fn display_name_keeps_the_package_of_the_main_class() {
    let with_class_path =
        args(&["java", "-cp", "/lib/a.jar:/lib/b.jar", "com.example.Server", "--port=8080"]);
    assert_eq!(
        java_display_name(&with_class_path, JavaStrategy::Main),
        Some("com.example.Server".to_string())
    );
    let with_flag = args(&["java", "-Xss1m", "com.example.Server"]);
    assert_eq!(
        java_display_name(&with_flag, JavaStrategy::Auto),
        Some("com.example.Server".to_string())
    );
}

#[test]
fn display_name_is_what_the_two_scans_find() {
    let command_lines = [
        args(&[]),
        args(&["java"]),
        args(&["java", "a.B"]),
        args(&["java", "-jar", "/x/y.jar", "z"]),
        args(&["java", "-cp", "lib", "-jar"]),
        args(&["java", "-jar", ".."]),
        args(&["java", "-Dx=y", "--class-path", "l", "p.q.R", "-jar", "late.jar"]),
    ];
    for cmdline in command_lines.iter() {
        let jar = find_jar_name(cmdline);
        let class = find_main_class(cmdline);
        assert_eq!(java_display_name(cmdline, JavaStrategy::Jar), jar);
        assert_eq!(java_display_name(cmdline, JavaStrategy::Main), class);
        let preferred = if jar.is_some() { jar.clone() } else { class.clone() };
        assert_eq!(java_display_name(cmdline, JavaStrategy::Auto), preferred);
    }
}

#[test]
fn shown_name_cuts_the_package_off_a_main_class_only() {
    let both = args(&["java", "-jar", "/opt/x/tool-1.2.jar", "run"]);
    assert_eq!(java_shown_name(&both, JavaStrategy::Auto), Some("tool-1.2.jar".to_string()));
    assert_eq!(java_shown_name(&both, JavaStrategy::Jar), Some("tool-1.2.jar".to_string()));
    let class_only = args(&["java", "a.b.C"]);
    assert_eq!(java_shown_name(&class_only, JavaStrategy::Auto), Some("C".to_string()));
    assert_eq!(java_shown_name(&class_only, JavaStrategy::Jar), None);
    assert_eq!(java_shown_name(&class_only, JavaStrategy::Main), Some("C".to_string()));
    assert_eq!(java_shown_name(&args(&["java", "Plain"]), JavaStrategy::Main), Some("Plain".to_string()));
    assert_eq!(java_shown_name(&args(&["java"]), JavaStrategy::Auto), None);
}

#[test]
fn a_class_name_that_ends_in_a_dot_is_shown_empty() {
    let cmdline = args(&["java", "com.example."]);
    assert_eq!(java_display_name(&cmdline, JavaStrategy::Main), Some("com.example.".to_string()));
    assert_eq!(java_shown_name(&cmdline, JavaStrategy::Main), Some(String::new()));
    let sample = java_sample(&["java", "com.example."], Some("openjdk"));
    assert_eq!(resolve(&sample, JavaStrategy::Main), "java: ");
}

#[test]
fn an_unresolvable_archive_lets_automatic_fall_back() {
    let cmdline = args(&["java", "-jar", ".."]);
    assert_eq!(java_display_name(&cmdline, JavaStrategy::Jar), None);
    assert_eq!(java_display_name(&cmdline, JavaStrategy::Auto), Some("..".to_string()));
    assert_eq!(java_shown_name(&cmdline, JavaStrategy::Auto), Some(String::new()));
}

#[test]
fn strategy_flag_values() {
    assert_eq!(parse_java_strategy(Some("--java-by=jar".to_string())), JavaStrategy::Jar);
    assert_eq!(parse_java_strategy(Some("--java-by=main".to_string())), JavaStrategy::Main);
    assert_eq!(parse_java_strategy(Some("--java-by=auto".to_string())), JavaStrategy::Auto);
    assert_eq!(parse_java_strategy(Some("--java-by=".to_string())), JavaStrategy::Auto);
    assert_eq!(parse_java_strategy(Some("--java-by=JAR".to_string())), JavaStrategy::Auto);
    assert_eq!(parse_java_strategy(Some("jar".to_string())), JavaStrategy::Auto);
    assert_eq!(parse_java_strategy(None), JavaStrategy::Auto);
}

#[test]
fn keys_are_never_empty() {
    let samples = [
        java_sample(&[], None),
        java_sample(&["java", ""], None),
        java_sample(&["java", "."], None),
        ProcessSample::new("9", 1, "x", args(&[]), None).unwrap(),
    ];
    for sample in samples.iter() {
        for strategy in [JavaStrategy::Auto, JavaStrategy::Jar, JavaStrategy::Main] {
            assert!(!resolve(sample, strategy).is_empty());
        }
    }
}
