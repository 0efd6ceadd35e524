//! The key under which a process is counted: processes with one key make one
//! row of the report.

use vstd::prelude::*;
use crate::java::{java_shown_name, shown_name, JavaStrategy};
use crate::sample::{ProcessSample, SampleView};
use crate::text::same_text;

verus! {

/// The commands that start a Java virtual machine.
pub open spec fn is_java_launcher(command: Seq<char>) -> bool {
    command == "java"@ || command == "javaw"@
}

/// The key of a Java process: `java: ` and the name under which it is shown;
/// without such a name, `java (` and the file name of its executable `)`, and
/// `java (java)` where that is not known either.
pub open spec fn java_key(
    argv: Seq<Seq<char>>,
    exe: Option<Seq<char>>,
    strategy: JavaStrategy,
) -> Seq<char> {
    match shown_name(argv, strategy) {
        Some(name) => "java: "@ + name,
        None => match exe {
            Some(binary) => "java ("@ + binary + ")"@,
            None => "java (java)"@,
        },
    }
}

/// The key of a sample: its command name, but for a Java launcher, which is
/// named after what it runs.
pub open spec fn application_key(sample: SampleView, strategy: JavaStrategy) -> Seq<char> {
    if is_java_launcher(sample.command) {
        java_key(sample.argv, sample.exe, strategy)
    } else {
        sample.command
    }
}

/// Whether `command` starts a Java virtual machine.
pub fn starts_java(command: &str) -> (yes: bool)
    ensures
        yes == is_java_launcher(command@),
{
    same_text(command, "java") || same_text(command, "javaw")
}

/// Computes the key under which `sample` is counted. The key is never empty.
pub fn resolve(sample: &ProcessSample, strategy: JavaStrategy) -> (key: String)
    ensures
        key@ == application_key(sample@, strategy),
        key@.len() > 0,
{
    let command = sample.command();
    if !starts_java(command) {
        return command.to_owned();
    }
    proof {
        reveal_strlit("java: ");
        reveal_strlit("java (");
        reveal_strlit("java (java)");
    }
    match java_shown_name(sample.argv(), strategy) {
        Some(name) => String::from_str("java: ").concat(name.as_str()),
        None => match sample.exe() {
            Some(binary) => String::from_str("java (").concat(binary).concat(")"),
            None => String::from_str("java (java)"),
        },
    }
}

/// Every valid sample has a key, and the key is not empty.
pub proof fn lemma_key_is_not_empty(sample: SampleView, strategy: JavaStrategy)
    requires
        sample.valid(),
    ensures
        application_key(sample, strategy).len() > 0,
{
    reveal_strlit("java: ");
    reveal_strlit("java (");
    reveal_strlit("java (java)");
}

} // verus!
