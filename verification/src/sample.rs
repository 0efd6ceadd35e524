//! One process as the report sees it, and how it is made from what was read
//! of an entry of the process table.

use vstd::prelude::*;
use crate::procfs::{
    arguments_of, command_name, command_of, is_numeric_dir, is_process_id,
    parse_status_vmrss_kb, resident_of, split_cmdline,
};
use crate::path::{basename, final_component};

verus! {

/// What was read of one entry of the process table. A file that could not be
/// read is `None`: processes come and go while the table is walked.
#[derive(Debug)]
pub struct RawProcess {
    /// The entry's name in the table.
    pub entry: String,
    /// The lines of the process status.
    pub status: Option<Vec<String>>,
    /// The command line as the kernel keeps it, its arguments ended by NUL.
    pub cmdline: Option<String>,
    /// Where the link to the executable points.
    pub exe: Option<String>,
}

/// A `RawProcess` as specifications see it.
pub struct RawView {
    pub entry: Seq<char>,
    pub status: Option<Seq<Seq<char>>>,
    pub cmdline: Option<Seq<char>>,
    pub exe: Option<Seq<char>>,
}

impl View for RawProcess {
    type V = RawView;

    open spec fn view(&self) -> RawView {
        RawView {
            entry: self.entry@,
            status: self.status.deep_view(),
            cmdline: self.cmdline.deep_view(),
            exe: self.exe.deep_view(),
        }
    }
}

/// One live process at the time of the scan.
#[derive(Debug)]
pub struct ProcessSample {
    pid: String,
    rss_kb: u64,
    command: String,
    argv: Vec<String>,
    exe: Option<String>,
}

/// A `ProcessSample` as specifications see it.
pub struct SampleView {
    /// The process identifier, as the table writes it.
    pub pid: Seq<char>,
    /// Resident memory in kilobytes.
    pub rss_kb: u64,
    /// The command name.
    pub command: Seq<char>,
    /// The arguments, the command itself first.
    pub argv: Seq<Seq<char>>,
    /// The file name of the executable, where it could be resolved.
    pub exe: Option<Seq<char>>,
}

impl SampleView {
    /// A sample is worth reporting when it stands for a process, holds
    /// memory and has a name.
    pub open spec fn valid(self) -> bool {
        is_process_id(self.pid) && self.rss_kb > 0 && self.command.len() > 0
    }
}

/// The sample that the readings of one entry give: none where the entry is
/// no process, where its memory cannot be read or is zero, or where it has no
/// command name.
pub open spec fn sample_of(raw: RawView) -> Option<SampleView> {
    match (raw.status, raw.cmdline) {
        (Some(status), Some(cmdline)) => match (resident_of(status), command_of(cmdline)) {
            (Some(rss_kb), Some(command)) => {
                let sample = SampleView {
                    pid: raw.entry,
                    rss_kb,
                    command,
                    argv: arguments_of(cmdline),
                    exe: match raw.exe {
                        Some(path) => final_component(path),
                        None => None,
                    },
                };
                if sample.valid() {
                    Some(sample)
                } else {
                    None
                }
            },
            _ => None,
        },
        _ => None,
    }
}

impl View for ProcessSample {
    type V = SampleView;

    closed spec fn view(&self) -> SampleView {
        SampleView {
            pid: self.pid@,
            rss_kb: self.rss_kb,
            command: self.command@,
            argv: self.argv.deep_view(),
            exe: self.exe.deep_view(),
        }
    }
}

impl ProcessSample {
    #[verifier::type_invariant]
    spec fn well_formed(self) -> bool {
        self@.valid()
    }

    /// Makes a sample from its parts, if they describe a process worth
    /// reporting.
    pub fn new(
        pid: &str,
        rss_kb: u64,
        command: &str,
        argv: Vec<String>,
        exe: Option<String>,
    ) -> (sample: Option<ProcessSample>)
        ensures
            match sample {
                Some(made) => made@.valid() && made@ == (SampleView {
                    pid: pid@,
                    rss_kb,
                    command: command@,
                    argv: argv.deep_view(),
                    exe: exe.deep_view(),
                }),
                None => !(SampleView {
                    pid: pid@,
                    rss_kb,
                    command: command@,
                    argv: argv.deep_view(),
                    exe: exe.deep_view(),
                }).valid(),
            },
    {
        if !is_numeric_dir(pid) || rss_kb == 0 || command.is_empty() {
            return None;
        }
        Some(
            ProcessSample {
                pid: pid.to_owned(),
                rss_kb,
                command: command.to_owned(),
                argv,
                exe,
            },
        )
    }

    /// Makes a sample from what was read of one entry of the process table.
    pub fn from_proc(raw: &RawProcess) -> (sample: Option<ProcessSample>)
        ensures
            match sample {
                Some(made) => sample_of(raw@) == Some(made@),
                None => sample_of(raw@) is None,
            },
    {
        let status = match &raw.status {
            Some(lines) => lines,
            None => {
                return None;
            },
        };
        let cmdline = match &raw.cmdline {
            Some(text) => text,
            None => {
                return None;
            },
        };
        let rss_kb = match parse_status_vmrss_kb(status.as_slice()) {
            Some(value) => value,
            None => {
                return None;
            },
        };
        let command = match command_name(cmdline.as_str()) {
            Some(name) => name,
            None => {
                return None;
            },
        };
        let argv = split_cmdline(cmdline.as_str());
        let exe = match &raw.exe {
            Some(path) => basename(path.as_str()),
            None => None,
        };
        ProcessSample::new(raw.entry.as_str(), rss_kb, command.as_str(), argv, exe)
    }

    /// The process identifier.
    pub fn pid(&self) -> (pid: &str)
        ensures
            pid@ == self@.pid,
            is_process_id(pid@),
    {
        proof {
            use_type_invariant(self);
        }
        self.pid.as_str()
    }

    /// Resident memory in kilobytes; never zero.
    pub fn rss_kb(&self) -> (rss_kb: u64)
        ensures
            rss_kb == self@.rss_kb,
            rss_kb > 0,
    {
        proof {
            use_type_invariant(self);
        }
        self.rss_kb
    }

    /// The command name; never empty.
    pub fn command(&self) -> (command: &str)
        ensures
            command@ == self@.command,
            command@.len() > 0,
    {
        proof {
            use_type_invariant(self);
        }
        self.command.as_str()
    }

    /// The arguments, the command itself first.
    pub fn argv(&self) -> (argv: &[String])
        ensures
            argv.deep_view() == self@.argv,
    {
        self.argv.as_slice()
    }

    /// The file name of the executable, where it could be resolved.
    pub fn exe(&self) -> (exe: Option<&str>)
        ensures
            exe.deep_view() == self@.exe,
    {
        match &self.exe {
            Some(name) => Some(name.as_str()),
            None => None,
        }
    }
}

} // verus!
