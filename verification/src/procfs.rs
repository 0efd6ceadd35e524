//! Reading what the process table says of one process, from text that the
//! caller took out of it: which entries are processes, the command that a
//! process runs, its arguments, and the labelled fields of the memory
//! statistics.

use vstd::prelude::*;
use crate::decimal::{all_digits, is_digit, parse_decimal, read_decimal};
use crate::path::{basename, final_component, lemma_final_component_is_name};
use crate::text::{before_first, chars_of, find_first, first_word, first_word_range, has_prefix};

verus! {

/// The name of an entry that stands for a process: decimal digits, at least
/// one.
pub open spec fn is_process_id(name: Seq<char>) -> bool {
    name.len() > 0 && all_digits(name)
}

/// Whether an entry of the process table stands for a process.
pub fn is_numeric_dir(name: &str) -> (yes: bool)
    ensures
        yes == is_process_id(name@),
{
    let chars = chars_of(name);
    if chars.len() == 0 {
        return false;
    }
    let mut i: usize = 0;
    while i < chars.len()
        invariant
            i <= chars.len(),
            chars@ == name@,
            forall|j: int| 0 <= j < i ==> is_digit(#[trigger] chars@[j]),
        decreases chars.len() - i,
    {
        let c = chars[i];
        if !('0' <= c && c <= '9') {
            return false;
        }
        i += 1;
    }
    true
}

/// The command that a raw command line names: the file name of the first
/// word of its first argument. A process may have written its whole command
/// line, or a title, into that argument; what follows the first word is then
/// no part of the command. A first argument without a word names no command.
pub open spec fn command_of(cmdline: Seq<char>) -> Option<Seq<char>> {
    match first_word(before_first(cmdline, '\0')) {
        Some(word) => final_component(word),
        None => None,
    }
}

/// A command name is never empty.
pub proof fn lemma_command_is_not_empty(cmdline: Seq<char>)
    ensures
        command_of(cmdline) matches Some(command) ==> command.len() > 0,
{
    if let Some(word) = first_word(before_first(cmdline, '\0')) {
        lemma_final_component_is_name(word);
    }
}

/// The command name of a process, from its raw command line. It is never
/// empty.
pub fn command_name(cmdline: &str) -> (name: Option<String>)
    ensures
        name.deep_view() == command_of(cmdline@),
        name matches Some(command) ==> command@.len() > 0,
{
    proof {
        lemma_command_is_not_empty(cmdline@);
    }
    let chars = chars_of(cmdline);
    let len = chars.len();
    assert(chars@.subrange(0, len as int) == cmdline@);
    let argument_end = match find_first(&chars, 0, len, '\0') {
        Some(at) => at,
        None => len,
    };
    let argument = cmdline.substring_char(0, argument_end);
    let word_chars = chars_of(argument);
    assert(word_chars@.skip(0) == argument@);
    match first_word_range(&word_chars, 0) {
        Some((start, end)) => basename(argument.substring_char(start, end)),
        None => None,
    }
}

/// The arguments that a raw command line holds: its stretches between NUL
/// characters, in order, the empty ones left out.
pub open spec fn arguments_of(cmdline: Seq<char>) -> Seq<Seq<char>>
    decreases cmdline.len(),
{
    let head = before_first(cmdline, '\0');
    let found = if head.len() > 0 {
        seq![head]
    } else {
        Seq::empty()
    };
    if head.len() < cmdline.len() {
        found + arguments_of(cmdline.skip(head.len() as int + 1))
    } else {
        found
    }
}

/// Splits a raw command line into its arguments.
pub fn split_cmdline(cmdline: &str) -> (args: Vec<String>)
    ensures
        args.deep_view() == arguments_of(cmdline@),
{
    let chars = chars_of(cmdline);
    let len = chars.len();
    let mut args: Vec<String> = Vec::new();
    let mut start: usize = 0;
    let mut done = false;
    assert(cmdline@.skip(0) == cmdline@);
    while !done
        invariant
            start <= len == chars.len(),
            chars@ == cmdline@,
            !done ==> arguments_of(cmdline@) == args.deep_view() + arguments_of(
                cmdline@.skip(start as int),
            ),
            done ==> arguments_of(cmdline@) == args.deep_view(),
        decreases len - start + (if done { 0int } else { 1int }),
    {
        let ghost rest = cmdline@.skip(start as int);
        let end = match find_first(&chars, start, len, '\0') {
            Some(at) => at,
            None => len,
        };
        let ghost head = before_first(rest, '\0');
        assert(head == cmdline@.subrange(start as int, end as int));
        if end > start {
            let argument = cmdline.substring_char(start, end).to_owned();
            args.push(argument);
        }
        if end < len {
            assert(rest.skip(head.len() as int + 1) == cmdline@.skip(end + 1));
            start = end + 1;
        } else {
            done = true;
        }
    }
    args
}

/// What the statistics say under one label.
#[derive(Clone, Copy, Debug, PartialEq, Eq, Structural)]
pub enum Labeled {
    /// No line begins with the label.
    Missing,
    /// The first line with the label holds no number that can be read.
    Malformed,
    /// The number on the first line with the label, in kilobytes.
    Kilobytes(u64),
}

/// What one line says under `label`, where it begins with the label: the
/// number that its first word behind the label writes.
pub open spec fn line_value(line: Seq<char>, label: Seq<char>) -> Option<Labeled> {
    if label.is_prefix_of(line) {
        Some(
            match first_word(line.skip(label.len() as int)) {
                Some(word) => match parse_decimal(word, u64::MAX as nat) {
                    Some(value) => Labeled::Kilobytes(value as u64),
                    None => Labeled::Malformed,
                },
                None => Labeled::Malformed,
            },
        )
    } else {
        None
    }
}

/// What the lines say under `label`: the first line that begins with the
/// label decides.
pub open spec fn labeled_value(lines: Seq<Seq<char>>, label: Seq<char>) -> Labeled
    decreases lines.len(),
{
    if lines.len() == 0 {
        Labeled::Missing
    } else {
        match line_value(lines[0], label) {
            Some(value) => value,
            None => labeled_value(lines.drop_first(), label),
        }
    }
}

/// Reads one line for `label`.
fn read_line_value(line: &str, label: &[char]) -> (value: Option<Labeled>)
    ensures
        value == line_value(line@, label@),
{
    let chars = chars_of(line);
    if !has_prefix(&chars, label) {
        return None;
    }
    match first_word_range(&chars, label.len()) {
        Some((start, end)) => match read_decimal(&chars, start, end) {
            Some(value) => Some(Labeled::Kilobytes(value)),
            None => Some(Labeled::Malformed),
        },
        None => Some(Labeled::Malformed),
    }
}

/// Looks up the number that the statistics give under `label`.
pub fn find_labeled(lines: &[String], label: &str) -> (value: Labeled)
    ensures
        value == labeled_value(lines.deep_view(), label@),
{
    let wanted = chars_of(label);
    let ghost all = lines.deep_view();
    let mut i: usize = 0;
    assert(all.skip(0) == all);
    while i < lines.len()
        invariant
            i <= lines.len(),
            all == lines.deep_view(),
            wanted@ == label@,
            labeled_value(all, label@) == labeled_value(all.skip(i as int), label@),
        decreases lines.len() - i,
    {
        assert(all.skip(i as int).drop_first() == all.skip(i + 1));
        match read_line_value(lines[i].as_str(), &wanted) {
            Some(value) => {
                return value;
            },
            None => {},
        }
        i += 1;
    }
    Labeled::Missing
}

/// The total physical memory that the memory statistics report, in
/// kilobytes: the number under `MemTotal:`, if it is there and can be read.
pub open spec fn memtotal_of(lines: Seq<Seq<char>>) -> Option<u64> {
    match labeled_value(lines, "MemTotal:"@) {
        Labeled::Kilobytes(value) => Some(value),
        _ => None,
    }
}

/// Reads the total physical memory from the lines of the memory statistics.
pub fn parse_memtotal_kb(lines: &[String]) -> (total: Option<u64>)
    ensures
        total == memtotal_of(lines.deep_view()),
{
    match find_labeled(lines, "MemTotal:") {
        Labeled::Kilobytes(value) => Some(value),
        _ => None,
    }
}

/// The resident memory that a process status reports, in kilobytes: the
/// number under `VmRSS:`; zero where the status has no such line; nothing
/// where the line holds no number that can be read.
pub open spec fn resident_of(lines: Seq<Seq<char>>) -> Option<u64> {
    match labeled_value(lines, "VmRSS:"@) {
        Labeled::Kilobytes(value) => Some(value),
        Labeled::Missing => Some(0),
        Labeled::Malformed => None,
    }
}

/// Reads the resident memory of a process from the lines of its status.
pub fn parse_status_vmrss_kb(lines: &[String]) -> (resident: Option<u64>)
    ensures
        resident == resident_of(lines.deep_view()),
{
    match find_labeled(lines, "VmRSS:") {
        Labeled::Kilobytes(value) => Some(value),
        Labeled::Missing => Some(0),
        Labeled::Malformed => None,
    }
}

} // verus!
