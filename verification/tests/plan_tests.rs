use lvq::checks::verify_uniqueness;
use lvq::cli::{parse, parse_provision};
use lvq::planner::{plan, plan_provision};
use lvq::probes::{probes_for, Probe};
use lvq::state::SystemState;
use lvq::types::{Action, Call, Command, Draft, DraftStatus, Filesystem, FsMount, LvRequest, SizeUnit};

fn args(list: &[&str]) -> Vec<String> {
    list.iter().map(|s| s.to_string()).collect()
}

fn lv(name: &str, size: SizeUnit, fs: Option<(Filesystem, Option<&str>)>) -> LvRequest {
    LvRequest {
        name: name.to_string(),
        size,
        fs: fs.map(|(fs, m)| FsMount { fs, mount_path: m.map(|p| p.to_string()) }),
    }
}

#[test]
fn plan_provision_orders_the_calls() {
    let plan = plan_provision(
        vec!["/dev/sdb".to_string(), "/dev/sdc".to_string()],
        "data".to_string(),
        SizeUnit::Megabytes(4),
        vec![
            lv("web", SizeUnit::Gigabytes(10), Some((Filesystem::Xfs, Some("/srv/www")))),
            lv("raw", SizeUnit::Extents(5), None),
        ],
    )
    .unwrap();
    assert_eq!(
        plan,
        vec![
            Call::PvCreate("/dev/sdb".to_string()),
            Call::PvCreate("/dev/sdc".to_string()),
            Call::VgCreate {
                name: "data".to_string(),
                pvs: vec!["/dev/sdb".to_string(), "/dev/sdc".to_string()],
                pe_size: SizeUnit::Megabytes(4),
            },
            Call::LvCreate { vg: "data".to_string(), name: "web".to_string(), size: SizeUnit::Gigabytes(10) },
            Call::Mkfs { device: "/dev/data/web".to_string(), fs: Filesystem::Xfs },
            Call::Mkdir("/srv/www".to_string()),
            Call::Mount { device: "/dev/data/web".to_string(), path: "/srv/www".to_string() },
            Call::Fstab { device: "/dev/data/web".to_string(), path: "/srv/www".to_string(), fs: Filesystem::Xfs },
            Call::LvCreate { vg: "data".to_string(), name: "raw".to_string(), size: SizeUnit::Extents(5) },
        ]
    );
}

#[test]
fn plan_provision_never_mounts_swap() {
    let plan = plan_provision(
        vec!["/dev/sdb".to_string()],
        "vg".to_string(),
        SizeUnit::Megabytes(4),
        vec![lv("sw", SizeUnit::Gigabytes(2), Some((Filesystem::Swap, Some("/mnt/x"))))],
    )
    .unwrap();
    assert_eq!(
        &plan[2..],
        &[
            Call::LvCreate { vg: "vg".to_string(), name: "sw".to_string(), size: SizeUnit::Gigabytes(2) },
            Call::MkSwap("/dev/vg/sw".to_string()),
            Call::Fstab { device: "/dev/vg/sw".to_string(), path: "none".to_string(), fs: Filesystem::Swap },
        ]
    );
}

#[test]
fn planned_drafts_pass_uniqueness() {
    let action = Action {
        command: Command::Provision {
            pvs: vec!["/dev/sdb".to_string(), "/dev/sdc".to_string()],
            vg_name: "vg".to_string(),
            pe_size: SizeUnit::Megabytes(4),
            lvs: vec![lv("a", SizeUnit::Extents(1), None), lv("b", SizeUnit::Extents(1), None)],
        },
        auto_confirm: true,
    };
    let draft = plan(action).unwrap();
    assert_eq!(draft.draft_type, "provision");
    assert_eq!(draft.status, DraftStatus::Pending);
    assert!(draft.auto_confirm);
    assert!(draft.warnings.is_empty());
    assert!(verify_uniqueness(&draft).is_ok());
}

#[test]
fn parse_reads_a_provision_command() {
    let a = parse(&args(&[
        "lvq", "-y", "provision", "--vg", "data", "--pv", "/dev/sdb", "--pv", "/dev/sdc", "--lv",
        "web:10G:xfs:/srv/www",
    ]))
    .unwrap();
    assert!(a.auto_confirm);
    match a.command {
        Command::Provision { pvs, vg_name, pe_size, lvs } => {
            assert_eq!(pvs, vec!["/dev/sdb".to_string(), "/dev/sdc".to_string()]);
            assert_eq!(vg_name, "data");
            assert_eq!(pe_size, SizeUnit::Megabytes(4));
            assert_eq!(lvs, vec![lv("web", SizeUnit::Gigabytes(10), Some((Filesystem::Xfs, Some("/srv/www"))))]);
        }
    }
}

#[test]
fn parse_errors() {
    assert_eq!(parse(&args(&["lvq"])).unwrap_err(), "Usage: lvq <command> [options]");
    assert_eq!(parse(&args(&["lvq", "shrink"])).unwrap_err(), "Unknown command: shrink");
    assert_eq!(parse(&args(&["lvq", "--vg", "x"])).unwrap_err(), "Unknown command: ");
    assert_eq!(
        parse(&args(&["lvq", "provision", "--pv", "/dev/sdb"])).unwrap_err(),
        "Missing required option --vg"
    );
    assert_eq!(
        parse(&args(&["lvq", "provision", "--vg", "v"])).unwrap_err(),
        "At least one --pv is required"
    );
    assert_eq!(
        parse(&args(&["lvq", "provision", "--vg", "v", "--pv"])).unwrap_err(),
        "Missing value for the last option"
    );
    assert_eq!(
        parse(&args(&["lvq", "provision", "extra"])).unwrap_err(),
        "Unexpected argument: 'extra'"
    );
    assert_eq!(
        parse(&args(&["lvq", "provision", "--vg", "v", "--pv", "/d", "--pe-size", "10%XY"])).unwrap_err(),
        "Unsupported percentage target: '%XY'"
    );
}

#[test]
fn parse_provision_uses_the_given_extent_size() {
    let c = parse_provision(&args(&["lvq", "--pe-size", "16M", "provision", "--vg", "v", "--pv", "/d"]), 3).unwrap();
    match c {
        Command::Provision { pe_size, .. } => assert_eq!(pe_size, SizeUnit::Megabytes(16)),
    }
    assert_eq!(
        parse_provision(&args(&["lvq", "provision", "--vg", "v", "--pv", "/d", "--lv", "bad"]), 1).unwrap_err(),
        "Invalid format 'bad'. Min: name:size"
    );
}

#[test]
fn probes_follow_the_draft() {
    let draft = Draft {
        auto_confirm: false,
        draft_type: "provision".to_string(),
        draft: vec![
            Call::PvCreate("/dev/sdb".to_string()),
            Call::VgCreate { name: "v".to_string(), pvs: vec!["/dev/sdb".to_string()], pe_size: SizeUnit::Megabytes(4) },
            Call::Mkdir("/mnt/a".to_string()),
        ],
        status: DraftStatus::Pending,
        warnings: vec![],
    };
    let probes = probes_for(&draft);
    let d = "/dev/sdb".to_string();
    assert_eq!(
        probes,
        vec![
            Probe::PvExists(d.clone()),
            Probe::Signature(d.clone()),
            Probe::FstabReference(d.clone()),
            Probe::VgExists("v".to_string()),
            Probe::PathExists(d.clone()),
            Probe::DeviceSize(d.clone()),
            Probe::FullDisk(d.clone()),
            Probe::Signature(d.clone()),
            Probe::FstabReference(d.clone()),
            Probe::PathExists("/mnt/a".to_string()),
        ]
    );
}

#[test]
fn record_enters_observations() {
    let mut state = SystemState::new();
    state.record(&Probe::PvExists("/dev/sdb".to_string()), true, None);
    state.record(&Probe::VgExists("v".to_string()), false, None);
    state.record(&Probe::DeviceSize("/dev/sdb".to_string()), true, Some(4096));
    state.record(&Probe::LvExists("v".to_string(), "a".to_string()), true, None);
    assert!(state.pvs.contains("/dev/sdb"));
    assert!(!state.vgs.contains("v"));
    assert_eq!(state.block_device_sizes.get("/dev/sdb"), Some(4096));
    assert_eq!(state.block_device_sizes.get("/dev/sdc"), None);
    assert!(state.lvs.contains("v", "a"));
    assert!(!state.lvs.contains("a", "v"));
}

#[test]
fn name_sets_behave_as_sets() {
    let mut state = SystemState::default();
    state.mounts.insert("/a".to_string());
    state.mounts.insert("/a".to_string());
    state.mounts.insert("/b".to_string());
    state.mounts.remove("/a");
    assert!(!state.mounts.contains("/a"));
    assert!(state.mounts.contains("/b"));
    state.block_device_sizes.insert("/d".to_string(), 1);
    state.block_device_sizes.insert("/d".to_string(), 2);
    assert_eq!(state.block_device_sizes.get("/d"), Some(2));
}

#[test]
fn from_draft_reads_answers_in_probe_order() {
    let draft = Draft {
        auto_confirm: false,
        draft_type: "provision".to_string(),
        draft: vec![
            Call::PvCreate("/dev/sdb".to_string()),
            Call::VgCreate { name: "v".to_string(), pvs: vec!["/dev/sdb".to_string()], pe_size: SizeUnit::Megabytes(4) },
            Call::Mkdir("/mnt/a".to_string()),
        ],
        status: DraftStatus::Pending,
        warnings: vec![],
    };
    // Answers for: PvExists, Signature, FstabReference, VgExists,
    // PathExists, DeviceSize, FullDisk, Signature, FstabReference, PathExists.
    let answers = vec![
        (false, None),
        (true, None),
        (false, None),
        (false, None),
        (true, None),
        (true, Some(8 * 1048576)),
        (true, None),
        (true, None),
        (false, None),
        (false, None),
    ];
    let state = SystemState::from_draft(&draft, &answers);
    assert!(!state.pvs.contains("/dev/sdb"));
    assert!(state.filesystems.contains("/dev/sdb"));
    assert!(!state.fstab_device_refs.contains("/dev/sdb"));
    assert!(!state.vgs.contains("v"));
    assert!(state.paths_exist.contains("/dev/sdb"));
    assert!(!state.paths_exist.contains("/mnt/a"));
    assert!(state.is_full_disk.contains("/dev/sdb"));
    assert_eq!(state.block_device_sizes.get("/dev/sdb"), Some(8 * 1048576));

    // Probes left without an answer count as facts not found.
    let partial = SystemState::from_draft(&draft, &vec![(true, None)]);
    assert!(partial.pvs.contains("/dev/sdb"));
    assert!(!partial.filesystems.contains("/dev/sdb"));
    assert_eq!(partial.block_device_sizes.get("/dev/sdb"), None);
}
