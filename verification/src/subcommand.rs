//! The program's subcommands, as a closed set of dispatchable values.
//!
//! Each subcommand knows which filesystems it is about to touch, and checks
//! that the storage system knows them before any work starts.  The work
//! itself (driver calls, printing) happens outside the library, against the
//! volume facade.

use vstd::prelude::*;

use crate::argument::Argument;
use crate::zfs::filesystem::{string_views, FilesystemController};

verus! {

/// The error a caller gets for a requested filesystem the storage system does
/// not know.
pub open spec fn missing_filesystem_message(name: Seq<char>) -> Seq<char> {
    "The '"@ + name + "' ZFS filesystem is not found"@
}

/// One runnable subcommand.
pub trait SubCommand {
    /// The volume names this subcommand requires to exist.
    spec fn required_filesystems(&self, args: &Argument) -> Seq<Seq<char>>;

    /// Confirm the ZFS filesystems of the command options are accessible:
    /// `Ok` exactly when every required filesystem exists, and otherwise an
    /// error naming a missing one.
    fn accessible_filesystem(&self, args: &Argument, controller: &FilesystemController) -> (r:
        Result<(), String>)
        ensures
            r is Ok <==> (forall|i: int|
                0 <= i < self.required_filesystems(args).len()
                    ==> controller.has_filesystem(
                    #[trigger] self.required_filesystems(args)[i],
                )),
            r matches Err(m) ==> exists|i: int|
                0 <= i < self.required_filesystems(args).len()
                    && !controller.has_filesystem(
                    #[trigger] self.required_filesystems(args)[i],
                ) && m@ == missing_filesystem_message(self.required_filesystems(args)[i]),
    ;
}

/// `Ok` exactly when every name of `names` is a known filesystem; otherwise
/// an error naming the first missing one.
#[verifier::loop_isolation(false)]
fn check_filesystems(names: &Vec<String>, controller: &FilesystemController) -> (r: Result<
    (),
    String,
>)
    ensures
        r is Ok <==> (forall|i: int|
            0 <= i < names@.len() ==> controller.has_filesystem((#[trigger] names@[i])@)),
        r matches Err(m) ==> exists|i: int|
            0 <= i < names@.len() && !controller.has_filesystem((#[trigger] names@[i])@) && m@
                == missing_filesystem_message(names@[i]@),
{
    let mut i: usize = 0;
    while i < names.len()
        invariant
            i <= names@.len(),
            forall|k: int| 0 <= k < i ==> controller.has_filesystem((#[trigger] names@[k])@),
        decreases names@.len() - i,
    {
        if !controller.exist(names[i].as_str()) {
            let mut message: String = "The '".to_owned();
            message.append(names[i].as_str());
            message.append("' ZFS filesystem is not found");
            return Err(message);
        }
        i = i + 1;
    }
    Ok(())
}

/// The accessibility check every subcommand shares: each requested
/// filesystem must exist.
fn accessible_filesystem_default(args: &Argument, controller: &FilesystemController) -> (r: Result<
    (),
    String,
>)
    ensures
        r is Ok <==> (forall|i: int|
            0 <= i < string_views(args.filesystem@).len() ==> controller.has_filesystem(
                #[trigger] string_views(args.filesystem@)[i],
            )),
        r matches Err(m) ==> exists|i: int|
            0 <= i < string_views(args.filesystem@).len() && !controller.has_filesystem(
                #[trigger] string_views(args.filesystem@)[i],
            ) && m@ == missing_filesystem_message(string_views(args.filesystem@)[i]),
{
    let r = check_filesystems(&args.filesystem, controller);
    proof {
        let ghost req = string_views(args.filesystem@);
        assert forall|i: int| 0 <= i < req.len() implies req[i] == (#[trigger] args.filesystem@[i])@
        by {}
        if r is Ok {
            assert forall|i: int| 0 <= i < req.len() implies controller.has_filesystem(
                #[trigger] req[i],
            ) by {
                assert(controller.has_filesystem(args.filesystem@[i]@));
            }
        } else {
            let i = choose|i: int|
                0 <= i < args.filesystem@.len() && !controller.has_filesystem(
                    (#[trigger] args.filesystem@[i])@,
                ) && r->Err_0@ == missing_filesystem_message(args.filesystem@[i]@);
            assert(req[i] == args.filesystem@[i]@);
            assert(!controller.has_filesystem(req[i]));
        }
    }
    r
}

/// Archive one or more ZFS filesystems to another ZFS filesystem.
pub struct ArchiveCommand;

/// Take a snapshot on each requested ZFS filesystem.
pub struct SnapshotCommand;

/// Purge snapshots on each requested ZFS filesystem.
pub struct PurgeCommand;

/// Show the snapshots of each requested ZFS filesystem.
pub struct ShowCommand;

impl SubCommand for ArchiveCommand {
    /// The requested filesystems, and the archive target.
    open spec fn required_filesystems(&self, args: &Argument) -> Seq<Seq<char>> {
        string_views(args.filesystem@).push(args.archive@)
    }

    fn accessible_filesystem(&self, args: &Argument, controller: &FilesystemController) -> (r:
        Result<(), String>)
    {
        let ghost required = self.required_filesystems(args);
        match accessible_filesystem_default(args, controller) {
            Err(m) => {
                proof {
                    let i = choose|i: int|
                        0 <= i < string_views(args.filesystem@).len() && !controller.has_filesystem(
                            #[trigger] string_views(args.filesystem@)[i],
                        ) && m@ == missing_filesystem_message(string_views(args.filesystem@)[i]);
                    assert(required[i] == string_views(args.filesystem@)[i]);
                }
                Err(m)
            },
            Ok(()) => {
                if controller.exist(args.archive.as_str()) {
                    proof {
                        assert forall|i: int|
                            0 <= i < required.len() implies controller.has_filesystem(
                            #[trigger] required[i],
                        ) by {
                            if i < args.filesystem@.len() {
                                assert(required[i] == string_views(args.filesystem@)[i]);
                                assert(string_views(args.filesystem@)[i] == args.filesystem@[i]@);
                            } else {
                                assert(required[i] == args.archive@);
                            }
                        }
                    }
                    Ok(())
                } else {
                    let mut message: String = "The '".to_owned();
                    message.append(args.archive.as_str());
                    message.append("' ZFS filesystem is not found");
                    proof {
                        assert(required[required.len() - 1] == args.archive@);
                    }
                    Err(message)
                }
            },
        }
    }
}

impl SubCommand for SnapshotCommand {
    /// The requested filesystems.
    open spec fn required_filesystems(&self, args: &Argument) -> Seq<Seq<char>> {
        string_views(args.filesystem@)
    }

    fn accessible_filesystem(&self, args: &Argument, controller: &FilesystemController) -> (r:
        Result<(), String>)
    {
        let r = accessible_filesystem_default(args, controller);
        proof {
            let req = self.required_filesystems(args);
            assert(req == string_views(args.filesystem@));
            if r is Ok {
                assert forall|i: int| 0 <= i < req.len() implies controller.has_filesystem(
                    #[trigger] req[i],
                ) by {
                    assert(controller.has_filesystem(string_views(args.filesystem@)[i]));
                }
            } else {
                let i = choose|i: int|
                    0 <= i < string_views(args.filesystem@).len() && !controller.has_filesystem(
                        #[trigger] string_views(args.filesystem@)[i],
                    ) && r->Err_0@ == missing_filesystem_message(string_views(args.filesystem@)[i]);
                assert(0 <= i < req.len() && !controller.has_filesystem(#[trigger] req[i])
                    && r->Err_0@ == missing_filesystem_message(req[i]));
            }
        }
        r
    }
}

impl SubCommand for PurgeCommand {
    /// The requested filesystems.
    open spec fn required_filesystems(&self, args: &Argument) -> Seq<Seq<char>> {
        string_views(args.filesystem@)
    }

    fn accessible_filesystem(&self, args: &Argument, controller: &FilesystemController) -> (r:
        Result<(), String>)
    {
        let r = accessible_filesystem_default(args, controller);
        proof {
            let req = self.required_filesystems(args);
            assert(req == string_views(args.filesystem@));
            if r is Ok {
                assert forall|i: int| 0 <= i < req.len() implies controller.has_filesystem(
                    #[trigger] req[i],
                ) by {
                    assert(controller.has_filesystem(string_views(args.filesystem@)[i]));
                }
            } else {
                let i = choose|i: int|
                    0 <= i < string_views(args.filesystem@).len() && !controller.has_filesystem(
                        #[trigger] string_views(args.filesystem@)[i],
                    ) && r->Err_0@ == missing_filesystem_message(string_views(args.filesystem@)[i]);
                assert(0 <= i < req.len() && !controller.has_filesystem(#[trigger] req[i])
                    && r->Err_0@ == missing_filesystem_message(req[i]));
            }
        }
        r
    }
}

impl SubCommand for ShowCommand {
    /// The requested filesystems.
    open spec fn required_filesystems(&self, args: &Argument) -> Seq<Seq<char>> {
        string_views(args.filesystem@)
    }

    fn accessible_filesystem(&self, args: &Argument, controller: &FilesystemController) -> (r:
        Result<(), String>)
    {
        let r = accessible_filesystem_default(args, controller);
        proof {
            let req = self.required_filesystems(args);
            assert(req == string_views(args.filesystem@));
            if r is Ok {
                assert forall|i: int| 0 <= i < req.len() implies controller.has_filesystem(
                    #[trigger] req[i],
                ) by {
                    assert(controller.has_filesystem(string_views(args.filesystem@)[i]));
                }
            } else {
                let i = choose|i: int|
                    0 <= i < string_views(args.filesystem@).len() && !controller.has_filesystem(
                        #[trigger] string_views(args.filesystem@)[i],
                    ) && r->Err_0@ == missing_filesystem_message(string_views(args.filesystem@)[i]);
                assert(0 <= i < req.len() && !controller.has_filesystem(#[trigger] req[i])
                    && r->Err_0@ == missing_filesystem_message(req[i]));
            }
        }
        r
    }
}

/// The closed set of implemented subcommands.
pub enum SubCommandKind {
    Archive(ArchiveCommand),
    Snapshot(SnapshotCommand),
    Purge(PurgeCommand),
    Show(ShowCommand),
}

impl SubCommandKind {
    /// The volume names the selected subcommand requires to exist.
    pub open spec fn required_filesystems(&self, args: &Argument) -> Seq<Seq<char>> {
        match self {
            SubCommandKind::Archive(c) => c.required_filesystems(args),
            SubCommandKind::Snapshot(c) => c.required_filesystems(args),
            SubCommandKind::Purge(c) => c.required_filesystems(args),
            SubCommandKind::Show(c) => c.required_filesystems(args),
        }
    }

    /// Confirm the ZFS filesystems of the command options are accessible.
    pub fn accessible_filesystem(&self, args: &Argument, controller: &FilesystemController) -> (r:
        Result<(), String>)
        ensures
            r is Ok <==> (forall|i: int|
                0 <= i < self.required_filesystems(args).len()
                    ==> controller.has_filesystem(
                    #[trigger] self.required_filesystems(args)[i],
                )),
    {
        match self {
            SubCommandKind::Archive(c) => c.accessible_filesystem(args, controller),
            SubCommandKind::Snapshot(c) => c.accessible_filesystem(args, controller),
            SubCommandKind::Purge(c) => c.accessible_filesystem(args, controller),
            SubCommandKind::Show(c) => c.accessible_filesystem(args, controller),
        }
    }
}

/// Select the subcommand a parsed command names.  The unimplemented
/// subcommands are refused before this point.
pub fn from(command: &crate::argument::Command) -> (s: SubCommandKind)
    requires
        !(command is Restore),
        !(command is Diff),
    ensures
        (command is Archive <==> s is Archive),
        (command is Snapshot <==> s is Snapshot),
        (command is Purge <==> s is Purge),
        (command is Show <==> s is Show),
{
    match command {
        crate::argument::Command::Archive { .. } => SubCommandKind::Archive(ArchiveCommand {}),
        crate::argument::Command::Snapshot { .. } => SubCommandKind::Snapshot(SnapshotCommand {}),
        crate::argument::Command::Purge { .. } => SubCommandKind::Purge(PurgeCommand {}),
        crate::argument::Command::Show { .. } => SubCommandKind::Show(ShowCommand {}),
        crate::argument::Command::Restore { .. } => unreached(),
        crate::argument::Command::Diff { .. } => unreached(),
    }
}

} // verus!
