//! The program's command line, as plain data.
//!
//! Parsing the process arguments happens outside the library; what stands
//! here is the parsed shape and the rule that flattens a subcommand into the
//! single `Argument` record the rest of the program reads.

use vstd::prelude::*;

verus! {

/// The program's subcommands, with their options.
#[derive(Debug)]
pub enum Command {
    /// Archive one or more ZFS filesystems to another ZFS filesystem.
    Archive { filesystem: Vec<String>, archive: String, progress: bool, verbose: u8, dryrun: bool },
    Restore { list: bool },
    Diff { list: bool },
    /// Take a snapshot on a ZFS filesystem.
    Snapshot { filesystem: Vec<String>, verbose: u8, dryrun: bool },
    /// Purge some existing snapshots on ZFS filesystems.
    Purge { filesystem: Vec<String>, verbose: u8, dryrun: bool },
    /// Show the existing snapshots on ZFS filesystems.
    Show { filesystem: Vec<String>, verbose: u8, dryrun: bool },
}

/// The whole command line: one subcommand.
#[derive(Debug)]
pub struct Program {
    pub command: Command,
}

/// The parsed command line, flattened into one record.
#[derive(Debug)]
pub struct Argument {
    pub command: Command,
    pub filesystem: Vec<String>,
    pub archive: String,
    pub progress: bool,
    pub verbose: u8,
    pub dryrun: bool,
}

/// The filesystems a command operates on.
pub open spec fn command_filesystems(c: Command) -> Seq<String> {
    match c {
        Command::Archive { filesystem, .. } => filesystem@,
        Command::Snapshot { filesystem, .. } => filesystem@,
        Command::Purge { filesystem, .. } => filesystem@,
        Command::Show { filesystem, .. } => filesystem@,
        _ => Seq::empty(),
    }
}

/// The archive target a command names, where it names one.
pub open spec fn command_archive(c: Command) -> Seq<char> {
    match c {
        Command::Archive { archive, .. } => archive@,
        _ => "Not expected"@,
    }
}

pub open spec fn command_progress(c: Command) -> bool {
    match c {
        Command::Archive { progress, .. } => progress,
        _ => false,
    }
}

pub open spec fn command_verbose(c: Command) -> u8 {
    match c {
        Command::Archive { verbose, .. } => verbose,
        Command::Snapshot { verbose, .. } => verbose,
        Command::Purge { verbose, .. } => verbose,
        Command::Show { verbose, .. } => verbose,
        _ => 0,
    }
}

pub open spec fn command_dryrun(c: Command) -> bool {
    match c {
        Command::Archive { dryrun, .. } => dryrun,
        Command::Snapshot { dryrun, .. } => dryrun,
        Command::Purge { dryrun, .. } => dryrun,
        Command::Show { dryrun, .. } => dryrun,
        _ => false,
    }
}

/// Copy a list of names.
fn clone_names(v: &Vec<String>) -> (r: Vec<String>)
    ensures
        r@ == v@,
{
    let mut r: Vec<String> = Vec::new();
    let mut i: usize = 0;
    while i < v.len()
        invariant
            i <= v@.len(),
            r@ == v@.subrange(0, i as int),
        decreases v@.len() - i,
    {
        r.push(v[i].clone());
        proof {
            assert(v@.subrange(0, i as int + 1) =~= v@.subrange(0, i as int).push(v@[i as int]));
        }
        i = i + 1;
    }
    proof {
        assert(v@.subrange(0, v@.len() as int) =~= v@);
    }
    r
}

impl Argument {
    /// Flatten a parsed command line.  The unimplemented subcommands carry no
    /// filesystem options and are refused before this point.
    pub fn new(program: Program) -> (a: Argument)
        requires
            !(program.command is Restore),
            !(program.command is Diff),
        ensures
            a.command == program.command,
            a.filesystem@ == command_filesystems(program.command),
            a.archive@ == command_archive(program.command),
            a.progress == command_progress(program.command),
            a.verbose == command_verbose(program.command),
            a.dryrun == command_dryrun(program.command),
    {
        let parts: (Vec<String>, String, bool, u8, bool) = match &program.command {
            Command::Archive { filesystem, archive, progress, verbose, dryrun } => (
                clone_names(filesystem),
                archive.clone(),
                *progress,
                *verbose,
                *dryrun,
            ),
            Command::Snapshot { filesystem, verbose, dryrun } => (
                clone_names(filesystem),
                "Not expected".to_owned(),
                false,
                *verbose,
                *dryrun,
            ),
            Command::Purge { filesystem, verbose, dryrun } => (
                clone_names(filesystem),
                "Not expected".to_owned(),
                false,
                *verbose,
                *dryrun,
            ),
            Command::Show { filesystem, verbose, dryrun } => (
                clone_names(filesystem),
                "Not expected".to_owned(),
                false,
                *verbose,
                *dryrun,
            ),
            Command::Restore { .. } => unreached(),
            Command::Diff { .. } => unreached(),
        };
        let filesystem: Vec<String> = parts.0;
        let archive: String = parts.1;
        let progress: bool = parts.2;
        let verbose: u8 = parts.3;
        let dryrun: bool = parts.4;
        Argument { command: program.command, filesystem, archive, progress, verbose, dryrun }
    }
}

} // verus!
