use elephant_archive::argument::{Argument, Command, Program};
use elephant_archive::elephant_log::{Level, Logger};
use elephant_archive::subcommand::{self, SubCommand, SubCommandKind};
use elephant_archive::zfs::filesystem::{
    Filesystem, FilesystemAttribute, FilesystemController, SnapshotCollector,
};
use elephant_archive::zfs::snapshot::Snapshot;

fn strings(items: &[&str]) -> Vec<String> {
    items.iter().map(|s| s.to_string()).collect()
}

fn controller(filesystems: &[&str], snapshots: &[&str]) -> FilesystemController {
    FilesystemController::new(FilesystemAttribute::new(strings(filesystems), strings(snapshots)))
}

fn names(list: &[Snapshot]) -> Vec<String> {
    list.iter().map(|s| s.name()).collect()
}

#[test]
fn exist_consults_the_filesystem_list() {
    let c = controller(&["tank", "tank/data"], &[]);
    assert!(Filesystem::exist("tank/data", &c));
    assert!(Filesystem::exist("tank", &c));
    assert!(!Filesystem::exist("tank/other", &c));
    assert!(!Filesystem::exist("", &c));
}

#[test]
fn absent_volume_is_refused_with_not_found() {
    // the volume is absent from the filesystem listing, so construction
    // fails and no driver mutation is ever asked for
    let c = controller(&["tank"], &[]);
    assert!(!Filesystem::exist("tank/data", &c));
    let r = Filesystem::from("tank/data", &c);
    match r {
        Ok(_) => panic!("absent volume accepted"),
        Err(m) => assert_eq!(m, "'tank/data' filesystem is not exist on this machine."),
    }
}

#[test]
fn volume_collects_only_its_own_snapshots() {
    let c = controller(
        &["tank/data", "tank/data2"],
        &[
            "tank/data@elephant-2022-0427-193000",
            "tank/data2@elephant-2022-0427-193001",
            "tank/data/sub@elephant-2022-0427-193002",
            "tank/data@elephant-2022-0427-193003",
        ],
    );
    let f = Filesystem::from("tank/data", &c).unwrap();
    assert_eq!(f.name(), "tank/data");
    assert_eq!(
        names(&f.snapshots()),
        strings(&[
            "tank/data@elephant-2022-0427-193000",
            "tank/data@elephant-2022-0427-193003",
        ])
    );
    assert_eq!(names(f.get_snapshots()), names(&f.snapshots()));
}

#[test]
fn take_snapshot_records_the_new_name() {
    let mut c = controller(&["tank/data"], &["tank/data@elephant-2022-0427-193000"]);
    let mut f = Filesystem::from("tank/data", &c).unwrap();
    let before = f.snapshots().len();
    let s = f.take_snapshot(&mut c);
    assert!(s.name().starts_with("tank/data@elephant-"));
    assert!(s.try_get_datetime().is_some());
    assert_eq!(f.snapshots().len(), before + 1);
    assert_eq!(f.snapshots().last().unwrap().name(), s.name());
    let cached = c.get_snapshots("tank/data");
    assert_eq!(cached.last().unwrap(), &s.name());
}

#[test]
fn purge_snapshots_reconciles_the_cache() {
    // past-dated history is entirely young, so nothing is destroyed
    let mut c = controller(
        &["tank/data"],
        &[
            "tank/data@elephant-2022-0427-193000",
            "tank/data@elephant-2022-0427-193003",
        ],
    );
    let mut f = Filesystem::from("tank/data", &c).unwrap();
    let destroys = f.purge_snapshots(&mut c);
    assert!(destroys.is_empty());
    assert_eq!(c.get_snapshots("tank/data").len(), 2);
}

#[test]
fn cache_add_and_destroy() {
    let mut c = controller(&["tank/data"], &["tank/data@elephant-2022-0427-193000"]);
    c.add_snapshot("tank/data@elephant-2022-0427-193003");
    assert_eq!(
        c.get_snapshots("tank/data"),
        strings(&[
            "tank/data@elephant-2022-0427-193000",
            "tank/data@elephant-2022-0427-193003",
        ])
    );
    let destroys = vec![Snapshot::new("tank/data@elephant-2022-0427-193000")];
    c.destroy_snapshots(&destroys);
    assert_eq!(
        c.get_snapshots("tank/data"),
        strings(&["tank/data@elephant-2022-0427-193003"])
    );
}

#[test]
fn collector_reads_the_cache() {
    let c = controller(
        &["tank/data"],
        &[
            "other@elephant-2022-0427-193000",
            "tank/data@elephant-2022-0427-193001",
        ],
    );
    let collector = SnapshotCollector::new("tank/data", &c);
    assert_eq!(
        names(&collector.snapshots()),
        strings(&["tank/data@elephant-2022-0427-193001"])
    );
}

#[test]
fn subcommand_selection_matches_the_command() {
    let purge = Command::Purge { filesystem: strings(&["tank"]), verbose: 0, dryrun: false };
    assert!(matches!(subcommand::from(&purge), SubCommandKind::Purge(_)));
    let snapshot = Command::Snapshot { filesystem: strings(&["tank"]), verbose: 0, dryrun: false };
    assert!(matches!(subcommand::from(&snapshot), SubCommandKind::Snapshot(_)));
    let show = Command::Show { filesystem: strings(&["tank"]), verbose: 0, dryrun: false };
    assert!(matches!(subcommand::from(&show), SubCommandKind::Show(_)));
    let archive = Command::Archive {
        filesystem: strings(&["tank"]),
        archive: "backup".to_string(),
        progress: false,
        verbose: 0,
        dryrun: false,
    };
    assert!(matches!(subcommand::from(&archive), SubCommandKind::Archive(_)));
}

#[test]
fn accessible_filesystem_names_the_missing_volume() {
    let c = controller(&["tank"], &[]);
    let program = Program {
        command: Command::Show {
            filesystem: strings(&["tank", "tank/data"]),
            verbose: 0,
            dryrun: false,
        },
    };
    let args = Argument::new(program);
    let sub = subcommand::from(&args.command);
    match sub.accessible_filesystem(&args, &c) {
        Ok(()) => panic!("missing filesystem accepted"),
        Err(m) => assert_eq!(m, "The 'tank/data' ZFS filesystem is not found"),
    }
}

#[test]
fn accessible_filesystem_accepts_known_volumes() {
    let c = controller(&["tank", "backup"], &[]);
    let program = Program {
        command: Command::Archive {
            filesystem: strings(&["tank"]),
            archive: "backup".to_string(),
            progress: false,
            verbose: 1,
            dryrun: false,
        },
    };
    let args = Argument::new(program);
    let sub = subcommand::from(&args.command);
    assert!(sub.accessible_filesystem(&args, &c).is_ok());
}

#[test]
fn archive_requires_its_target_too() {
    let c = controller(&["tank"], &[]);
    let args = Argument::new(Program {
        command: Command::Archive {
            filesystem: strings(&["tank"]),
            archive: "backup".to_string(),
            progress: false,
            verbose: 0,
            dryrun: false,
        },
    });
    let archive = subcommand::ArchiveCommand {};
    match archive.accessible_filesystem(&args, &c) {
        Ok(()) => panic!("missing archive target accepted"),
        Err(m) => assert_eq!(m, "The 'backup' ZFS filesystem is not found"),
    }
}

#[test]
fn argument_flattens_the_subcommand() {
    let args = Argument::new(Program {
        command: Command::Purge { filesystem: strings(&["a", "b"]), verbose: 2, dryrun: true },
    });
    assert_eq!(args.filesystem, strings(&["a", "b"]));
    assert_eq!(args.archive, "Not expected");
    assert!(!args.progress);
    assert_eq!(args.verbose, 2);
    assert!(args.dryrun);
    assert!(matches!(args.command, Command::Purge { .. }));
}

#[test]
fn logger_filters_by_level() {
    let mut logger = Logger::init(Level::Info);
    assert!(logger.should_log(&Level::Error));
    assert!(logger.should_log(&Level::Info));
    assert!(!logger.should_log(&Level::Debug));
    assert!(!logger.should_log(&Level::Trace));
    logger.set_level(Level::Trace);
    assert!(logger.should_log(&Level::Trace));
}

#[test]
fn level_labels() {
    assert_eq!(Level::Error.label(), "ERR");
    assert_eq!(Level::Warn.label(), "WRN");
    assert_eq!(Level::Display.label(), "DSP");
    assert_eq!(Level::Info.label(), "INF");
    assert_eq!(Level::Debug.label(), "DBG");
    assert_eq!(Level::Trace.label(), "TRC");
}
