//! Naming a Java virtual machine process after what it runs.
//!
//! Every JVM reports the same launcher as its command, so the application is
//! recovered from the launcher's arguments: the archive behind `-jar`, or the
//! main class that follows the JVM's own options.
//!
//! The scan knows three spellings of the class path option as options that
//! take their value from the next token. Every other token that begins with
//! `-` is taken for a flag that stands alone. An option outside that list which
//! does take a separate value is therefore misread: its value is the first
//! token without a dash, and is reported as the main class. This is a known
//! limit of the heuristic.

use vstd::prelude::*;
use crate::path::{basename, final_component};
use crate::text::{after_last, same_text, starts_with_char, tail_after_last};

verus! {

/// How a Java process is named.
#[derive(Clone, Copy, Debug, PartialEq, Eq, Structural)]
pub enum JavaStrategy {
    /// The archive name where there is one, else the main class.
    Auto,
    /// The archive name only.
    Jar,
    /// The main class only.
    Main,
}

/// The strategy that a command-line flag selects.
pub open spec fn strategy_of(flag: Option<Seq<char>>) -> JavaStrategy {
    if flag == Some("--java-by=jar"@) {
        JavaStrategy::Jar
    } else if flag == Some("--java-by=main"@) {
        JavaStrategy::Main
    } else {
        JavaStrategy::Auto
    }
}

/// Reads the strategy flag. An absent flag, and any flag but the two that
/// name a strategy, selects `Auto`.
pub fn parse_java_strategy(arg: Option<String>) -> (strategy: JavaStrategy)
    ensures
        strategy == strategy_of(arg.deep_view()),
{
    match arg {
        Some(flag) => {
            if same_text(flag.as_str(), "--java-by=jar") {
                JavaStrategy::Jar
            } else if same_text(flag.as_str(), "--java-by=main") {
                JavaStrategy::Main
            } else {
                JavaStrategy::Auto
            }
        },
        None => JavaStrategy::Auto,
    }
}

/// A token that the JVM reads as one of its own options.
pub open spec fn is_option(token: Seq<char>) -> bool {
    token.len() > 0 && token[0] == '-'
}

/// An option whose value is the token that follows it.
pub open spec fn takes_value(token: Seq<char>) -> bool {
    token == "-cp"@ || token == "-classpath"@ || token == "--class-path"@
}

/// The option that names the archive to run.
pub open spec fn is_jar_flag(token: Seq<char>) -> bool {
    token == "-jar"@
}

/// Where the option scan, begun at `from`, comes to rest: on the first token
/// that is no option, on `-jar` when `stop_at_jar` is set, or past the end.
/// An option that takes a value is skipped together with that value.
pub open spec fn scan_stop(args: Seq<Seq<char>>, from: int, stop_at_jar: bool) -> int
    decreases args.len() + 1 - from,
{
    if from < 0 || from >= args.len() {
        from
    } else if stop_at_jar && is_jar_flag(args[from]) {
        from
    } else if !is_option(args[from]) {
        from
    } else if takes_value(args[from]) {
        scan_stop(args, from + 2, stop_at_jar)
    } else {
        scan_stop(args, from + 1, stop_at_jar)
    }
}

/// The archive that the launcher was told to run: the file name of the token
/// behind `-jar`, where the scan from the first argument reaches `-jar`.
pub open spec fn jar_name(args: Seq<Seq<char>>) -> Option<Seq<char>> {
    let at = scan_stop(args, 1, true);
    if 1 <= at && at + 1 < args.len() && is_jar_flag(args[at]) {
        final_component(args[at + 1])
    } else {
        None
    }
}

/// The first token behind the launcher's options.
pub open spec fn main_class(args: Seq<Seq<char>>) -> Option<Seq<char>> {
    let at = scan_stop(args, 1, false);
    if 1 <= at < args.len() {
        Some(args[at])
    } else {
        None
    }
}

/// Whether `token` is one of the options that take a separate value.
fn token_takes_value(token: &str) -> (yes: bool)
    ensures
        yes == takes_value(token@),
{
    same_text(token, "-cp") || same_text(token, "-classpath") || same_text(token, "--class-path")
}

/// Looks for `-jar <file>` among the launcher's options and returns the
/// file's name without its directories.
pub fn find_jar_name(cmdline: &[String]) -> (name: Option<String>)
    ensures
        name.deep_view() == jar_name(cmdline.deep_view()),
{
    let ghost args = cmdline.deep_view();
    let mut i: usize = 1;
    while i < cmdline.len()
        invariant
            1 <= i,
            args == cmdline.deep_view(),
            scan_stop(args, 1, true) == scan_stop(args, i as int, true),
        decreases cmdline.len() - i,
    {
        let token = cmdline[i].as_str();
        if same_text(token, "-jar") {
            if cmdline.len() - i > 1 {
                return basename(cmdline[i + 1].as_str());
            } else {
                return None;
            }
        }
        if !starts_with_char(token, '-') {
            return None;
        }
        if token_takes_value(token) {
            if cmdline.len() - i <= 2 {
                assert(scan_stop(args, i + 2, true) == i + 2);
                return None;
            }
            i += 2;
        } else {
            i += 1;
        }
    }
    None
}

/// Skips the launcher's options and returns the first token behind them.
pub fn find_main_class(cmdline: &[String]) -> (name: Option<String>)
    ensures
        name.deep_view() == main_class(cmdline.deep_view()),
{
    let ghost args = cmdline.deep_view();
    let mut i: usize = 1;
    while i < cmdline.len()
        invariant
            1 <= i,
            args == cmdline.deep_view(),
            scan_stop(args, 1, false) == scan_stop(args, i as int, false),
        decreases cmdline.len() - i,
    {
        let token = cmdline[i].as_str();
        if !starts_with_char(token, '-') {
            return Some(cmdline[i].clone());
        }
        if token_takes_value(token) {
            if cmdline.len() - i <= 2 {
                assert(scan_stop(args, i + 2, false) == i + 2);
                return None;
            }
            i += 2;
        } else {
            i += 1;
        }
    }
    None
}

/// A class name without its package: what follows the last `.`.
pub open spec fn simple_name(class: Seq<char>) -> Seq<char> {
    after_last(class, '.')
}

/// The main class as it is shown: without its package.
pub open spec fn main_class_shown(args: Seq<Seq<char>>) -> Option<Seq<char>> {
    match main_class(args) {
        Some(class) => Some(simple_name(class)),
        None => None,
    }
}

/// The name that the launcher's arguments give a Java process: the archive
/// name, the main class with its package, or whichever of the two the
/// strategy prefers. `Auto` prefers the archive and falls back on the main
/// class.
pub open spec fn display_name(args: Seq<Seq<char>>, strategy: JavaStrategy) -> Option<Seq<char>> {
    match strategy {
        JavaStrategy::Jar => jar_name(args),
        JavaStrategy::Main => main_class(args),
        JavaStrategy::Auto => match jar_name(args) {
            Some(name) => Some(name),
            None => main_class(args),
        },
    }
}

/// The name under which a Java process is shown: the name that its
/// arguments give it, an archive name as it is, a main class without its
/// package.
pub open spec fn shown_name(args: Seq<Seq<char>>, strategy: JavaStrategy) -> Option<Seq<char>> {
    match strategy {
        JavaStrategy::Jar => jar_name(args),
        JavaStrategy::Main => main_class_shown(args),
        JavaStrategy::Auto => match jar_name(args) {
            Some(name) => Some(name),
            None => main_class_shown(args),
        },
    }
}

/// Names a Java process from its arguments: by the archive behind `-jar`, by
/// its main class, or by whichever of the two the strategy prefers.
pub fn java_display_name(cmdline: &[String], strat: JavaStrategy) -> (name: Option<String>)
    ensures
        name.deep_view() == display_name(cmdline.deep_view(), strat),
{
    match strat {
        JavaStrategy::Jar => find_jar_name(cmdline),
        JavaStrategy::Main => find_main_class(cmdline),
        JavaStrategy::Auto => match find_jar_name(cmdline) {
            Some(name) => Some(name),
            None => find_main_class(cmdline),
        },
    }
}

/// The main class of the launcher's arguments, without its package.
fn find_simple_main_class(cmdline: &[String]) -> (name: Option<String>)
    ensures
        name.deep_view() == main_class_shown(cmdline.deep_view()),
{
    match find_main_class(cmdline) {
        Some(class) => Some(tail_after_last(class.as_str(), '.')),
        None => None,
    }
}

/// The name under which a Java process is shown: that of `java_display_name`,
/// a main class cut down to what follows its package.
pub fn java_shown_name(cmdline: &[String], strat: JavaStrategy) -> (name: Option<String>)
    ensures
        name.deep_view() == shown_name(cmdline.deep_view(), strat),
{
    match strat {
        JavaStrategy::Jar => find_jar_name(cmdline),
        JavaStrategy::Main => find_simple_main_class(cmdline),
        JavaStrategy::Auto => match find_jar_name(cmdline) {
            Some(name) => Some(name),
            None => find_simple_main_class(cmdline),
        },
    }
}

} // verus!
