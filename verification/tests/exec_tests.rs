use lvq::commands::{authorize_apply, command_outcome, confirm_execution, exec_provision};
use lvq::types::{Call, Draft, DraftStatus, Exec, Filesystem, PercentTarget, SizeUnit, ValidPercentage};
use proptest::arbitrary::any;

use proptest::strategy::{BoxedStrategy, Just, Strategy, Union};
use proptest::string::string_regex;
use proptest::test_runner::{Config, TestRunner};

fn runner() -> TestRunner {
    TestRunner::new(Config { cases: 1000, ..Config::default() })
}

fn arb_valid_percentage() -> BoxedStrategy<ValidPercentage> {
    (1u8..=100u8).prop_map(|v| ValidPercentage::new(v).unwrap()).boxed()
}

fn arb_percent_target() -> BoxedStrategy<PercentTarget> {
    Union::new(vec![Just(PercentTarget::Free), Just(PercentTarget::Vg), Just(PercentTarget::Pvs)]).boxed()
}

fn arb_size_unit() -> BoxedStrategy<SizeUnit> {
    Union::new(vec![
        any::<u64>().prop_map(SizeUnit::Bytes).boxed(),
        any::<u64>().prop_map(SizeUnit::Kilobytes).boxed(),
        any::<u64>().prop_map(SizeUnit::Megabytes).boxed(),
        any::<u64>().prop_map(SizeUnit::Gigabytes).boxed(),
        any::<u64>().prop_map(SizeUnit::Terabytes).boxed(),
        any::<u64>().prop_map(SizeUnit::Petabytes).boxed(),
        any::<u64>().prop_map(SizeUnit::Exabytes).boxed(),
        any::<u64>().prop_map(SizeUnit::Sectors).boxed(),
        any::<u64>().prop_map(SizeUnit::Extents).boxed(),
        (arb_valid_percentage(), arb_percent_target())
            .prop_map(|(p, t)| SizeUnit::Percentage(p, t))
            .boxed(),
    ])
    .boxed()
}

fn arb_filesystem() -> BoxedStrategy<Filesystem> {
    Union::new(vec![
        Just(Filesystem::Xfs),
        Just(Filesystem::Ext4),
        Just(Filesystem::Btrfs),
        Just(Filesystem::Vfat),
        Just(Filesystem::Swap),
        Just(Filesystem::F2FS),
        Just(Filesystem::Ntfs),
        Just(Filesystem::Exfat),
    ])
    .boxed()
}

fn arb_path() -> BoxedStrategy<String> {
    string_regex("[a-z0-9/]{1,20}").unwrap().boxed()
}

fn arb_call() -> BoxedStrategy<Call> {
    Union::new(vec![
        arb_path().prop_map(Call::PvCreate).boxed(),
        (any::<String>(), proptest::collection::vec(arb_path(), 1..5), arb_size_unit())
            .prop_map(|(name, pvs, pe_size)| Call::VgCreate { name, pvs, pe_size })
            .boxed(),
        (any::<String>(), any::<String>(), arb_size_unit())
            .prop_map(|(vg, name, size)| Call::LvCreate { vg, name, size })
            .boxed(),
        (arb_path(), arb_filesystem()).prop_map(|(device, fs)| Call::Mkfs { device, fs }).boxed(),
        arb_path().prop_map(Call::MkSwap).boxed(),
        arb_path().prop_map(Call::Mkdir).boxed(),
        (arb_path(), arb_path()).prop_map(|(device, path)| Call::Mount { device, path }).boxed(),
        (arb_path(), arb_path(), arb_filesystem())
            .prop_map(|(device, path, fs)| Call::Fstab { device, path, fs })
            .boxed(),
    ])
    .boxed()
}

fn arb_draft() -> BoxedStrategy<Draft> {
    (any::<bool>(), any::<String>(), proptest::collection::vec(arb_call(), 0..20), proptest::collection::vec(any::<String>(), 0..5))
        .prop_map(|(auto_confirm, draft_type, draft, warnings)| Draft {
            auto_confirm,
            draft_type,
            draft,
            status: DraftStatus::Pending,
            warnings,
        })
        .boxed()
}

fn draft_of(calls: Vec<Call>) -> Draft {
    Draft {
        auto_confirm: false,
        draft_type: "test".to_string(),
        draft: calls,
        status: DraftStatus::Pending,
        warnings: vec![],
    }
}

#[test]
fn test_fstab_lifecycle_invariants() {
    runner()
        .run(&arb_draft(), |draft| {
            let has_fstab = draft.draft.iter().any(|c| matches!(c, Call::Fstab { .. }));
            if let Ok(exec) = exec_provision(draft) {
                if has_fstab {
                    assert_eq!(exec.list.first().unwrap(), "cp -p /etc/fstab /etc/fstab.bak");
                    assert_eq!(exec.list.last().unwrap(), "systemctl daemon-reload");
                    for (i, cmd) in exec.list.iter().enumerate() {
                        if cmd.contains("blkid") && cmd.contains(">> /etc/fstab") {
                            assert!(exec.list[i - 1].contains(".tmp"), "Fstab append missing preceding temp copy.");
                            assert!(exec.list[i + 1].starts_with("mv /etc/fstab."), "Fstab append missing following move command.");
                        }
                    }
                }
            }
            Ok(())
        })
        .unwrap();
}

#[test]
fn test_swap_atomicity_invariants() {
    runner()
        .run(&arb_draft(), |draft| {
            if let Ok(exec) = exec_provision(draft) {
                for (i, cmd) in exec.list.iter().enumerate() {
                    if cmd.starts_with("mkswap ") {
                        let device = &cmd[7..];
                        assert!(i + 1 < exec.list.len(), "mkswap was the last command in the list, missing swapon for {}", device);
                        let next_cmd = &exec.list[i + 1];
                        assert_eq!(next_cmd, &format!("swapon {}", device));
                    }
                }
            }
            Ok(())
        })
        .unwrap();
}

#[test]
fn test_vg_create_precision_invariants() {
    runner()
        .run(&arb_draft(), |draft| {
            let original_draft = draft.clone();
            if let Ok(exec) = exec_provision(draft) {
                for call in original_draft.draft {
                    if let Call::VgCreate { name, pvs: _, pe_size } = call {
                        let bytes = pe_size.to_bytes().unwrap();
                        let expected_flag = format!("-s {}B", bytes);
                        let found = exec.list.iter().any(|cmd| {
                            cmd.contains("vgcreate") && cmd.contains(&name) && cmd.contains(&expected_flag)
                        });
                        assert!(found, "VG creation command lost precision or was malformed for size: {:?}", pe_size);
                    }
                }
            }
            Ok(())
        })
        .unwrap();
}

#[test]
fn test_exec_struct_integrity() {
    runner()
        .run(&arb_draft(), |draft| {
            let expected_confirm = draft.auto_confirm;
            let expected_warnings = draft.warnings.clone();
            if let Ok(exec) = exec_provision(draft) {
                assert_eq!(exec.auto_confirm, expected_confirm);
                assert_eq!(exec.warnings, expected_warnings);
                assert!(!exec.is_allowed, "Exec should never be pre-allowed by the provisioner logic.");
            }
            Ok(())
        })
        .unwrap();
}

#[test]
fn test_exec_provision_error_on_invalid_size() {
    let bad_call = Call::VgCreate {
        name: "vg0".to_string(),
        pvs: vec!["/dev/sda".to_string()],
        pe_size: SizeUnit::Percentage(ValidPercentage::new(50).unwrap(), PercentTarget::Free),
    };
    let draft = Draft {
        auto_confirm: false,
        draft_type: "test".to_string(),
        draft: vec![bad_call],
        status: DraftStatus::Pending,
        warnings: vec![],
    };
    let result = exec_provision(draft);
    assert!(result.is_err());
    assert!(result.unwrap_err().contains("Percentage"));
}

#[test]
fn test_path_escaping_in_commands() {
    let complex_path = "/mnt/external drive/backup_01".to_string();
    let call = Call::Mkdir(complex_path.clone());
    let draft = Draft {
        auto_confirm: false,
        draft_type: "test".to_string(),
        draft: vec![call],
        status: DraftStatus::Pending,
        warnings: vec![],
    };
    let exec = exec_provision(draft).expect("Provisioning should succeed");
    let expected_cmd = format!("mkdir -p {:?}", std::path::PathBuf::from(&complex_path));
    assert!(exec.list.contains(&expected_cmd));
    assert!(exec.list[0].contains("\"/mnt/external drive/backup_01\""));
}

#[test]
fn test_empty_draft_yields_empty_exec() {
    let draft = Draft {
        auto_confirm: true,
        draft_type: "empty".to_string(),
        draft: vec![],
        status: DraftStatus::Pending,
        warnings: vec![],
    };
    let exec = exec_provision(draft).expect("Empty draft should be valid");
    assert!(exec.list.is_empty());
    assert!(exec.auto_confirm);
}

#[test]
fn test_confirm_execution_auto_confirm() {
    let mut exec = Exec {
        list: vec!["pvcreate /dev/sdb1".to_string()],
        auto_confirm: true,
        is_allowed: false,
        warnings: vec!["Disk will be wiped".to_string()],
    };
    let result = confirm_execution(&mut exec, None);
    assert!(result.is_ok(), "auto_confirm should return Ok without seeking input");
    assert!(exec.is_allowed, "is_allowed must be toggled to true when auto_confirm is enabled");
}

#[test]
fn test_apply_execution_security_gate() {
    let exec = Exec {
        list: vec!["rm -rf /".to_string()],
        auto_confirm: false,
        is_allowed: false,
        warnings: vec![],
    };
    let result = authorize_apply(&exec);
    assert!(result.is_err(), "Apply must fail if is_allowed is false");
    assert!(result.unwrap_err().contains("Security Error"), "Should return a specific security error message");
}

// Concrete cases.

#[test]
fn exec_commands_for_every_call() {
    let calls = vec![
        Call::PvCreate("/dev/sdb".to_string()),
        Call::VgCreate {
            name: "data".to_string(),
            pvs: vec!["/dev/sdb".to_string(), "/dev/sdc".to_string()],
            pe_size: SizeUnit::Megabytes(4),
        },
        Call::LvCreate {
            vg: "data".to_string(),
            name: "a".to_string(),
            size: SizeUnit::Percentage(ValidPercentage::new(50).unwrap(), PercentTarget::Free),
        },
        Call::LvCreate { vg: "data".to_string(), name: "b".to_string(), size: SizeUnit::Extents(10) },
        Call::LvCreate { vg: "data".to_string(), name: "c".to_string(), size: SizeUnit::Kilobytes(2) },
        Call::Mkfs { device: "/dev/data/a".to_string(), fs: Filesystem::Ext4 },
        Call::MkSwap("/dev/data/b".to_string()),
        Call::Mkdir("/mnt/a".to_string()),
        Call::Mount { device: "/dev/data/a".to_string(), path: "/mnt/a".to_string() },
    ];
    let exec = exec_provision(draft_of(calls)).unwrap();
    assert_eq!(
        exec.list,
        vec![
            "pvcreate -y \"/dev/sdb\"",
            "vgcreate -s 4194304B data \"/dev/sdb\" \"/dev/sdc\"",
            "lvcreate -y -n a -l 50%FREE data",
            "lvcreate -y -n b -l 10 data",
            "lvcreate -y -n c -L 2048B data",
            "mkfs -t ext4 \"/dev/data/a\"",
            "mkswap \"/dev/data/b\"",
            "swapon \"/dev/data/b\"",
            "mkdir -p \"/mnt/a\"",
            "mount \"/dev/data/a\" \"/mnt/a\"",
        ]
    );
}

#[test]
fn exec_fstab_entries_are_staged() {
    let calls = vec![
        Call::Fstab { device: "/dev/data/a".to_string(), path: "/mnt/a".to_string(), fs: Filesystem::Xfs },
        Call::Fstab { device: "/dev/data/s".to_string(), path: "none".to_string(), fs: Filesystem::Swap },
    ];
    let exec = exec_provision(draft_of(calls)).unwrap();
    assert_eq!(exec.list.len(), 8);
    assert_eq!(exec.list[0], "cp -p /etc/fstab /etc/fstab.bak");
    assert_eq!(exec.list[1], "cp -p /etc/fstab /etc/fstab.xfs.tmp");
    assert_eq!(
        exec.list[2],
        "UUID=$(blkid -s UUID -o value \"/dev/data/a\"); if [ -n \"$UUID\" ]; then echo \"UUID=$UUID /mnt/a xfs defaults 0 0\" >> /etc/fstab.xfs.tmp; else echo \"/dev/data/a /mnt/a xfs defaults 0 0\" >> /etc/fstab.xfs.tmp; fi"
    );
    assert_eq!(exec.list[3], "mv /etc/fstab.xfs.tmp /etc/fstab");
    assert_eq!(exec.list[4], "cp -p /etc/fstab /etc/fstab.swap.tmp");
    assert!(exec.list[5].contains("UUID=$UUID none swap sw 0 0"));
    assert_eq!(exec.list[6], "mv /etc/fstab.swap.tmp /etc/fstab");
    assert_eq!(exec.list[7], "systemctl daemon-reload");
}

#[test]
fn exec_refuses_extents_as_extent_size() {
    let calls = vec![Call::VgCreate { name: "v".to_string(), pvs: vec![], pe_size: SizeUnit::Extents(4) }];
    let e = exec_provision(draft_of(calls)).unwrap_err();
    assert_eq!(e, "Cannot calculate raw bytes from Extents without knowing the Physical Extent (PE) size.");
}

#[test]
fn confirm_execution_reads_the_reply() {
    let fresh = || Exec { list: vec![], auto_confirm: false, is_allowed: false, warnings: vec![] };
    let mut a = fresh();
    assert!(confirm_execution(&mut a, Some(" Y\n")).is_ok());
    assert!(a.is_allowed);
    let mut b = fresh();
    assert!(confirm_execution(&mut b, Some("y\n")).is_ok());
    assert!(b.is_allowed);
    let mut c = fresh();
    assert!(confirm_execution(&mut c, None).is_err());
    assert!(!c.is_allowed);
    for declined in ["\n", "", "n", "yes", "N\n", "yy"] {
        let mut d = fresh();
        assert_eq!(confirm_execution(&mut d, Some(declined)).unwrap_err(), "Execution aborted by user.");
        assert!(!d.is_allowed);
    }
}

#[test]
fn apply_passes_a_confirmed_plan() {
    let exec = Exec { list: vec![], auto_confirm: false, is_allowed: true, warnings: vec![] };
    assert!(authorize_apply(&exec).is_ok());
}

#[test]
fn command_outcome_reports_exit_code() {
    assert!(command_outcome(true, Some(0)).is_ok());
    assert_eq!(command_outcome(false, Some(5)).unwrap_err(), "Command failed with exit code: Some(5)");
    assert_eq!(command_outcome(false, Some(-2)).unwrap_err(), "Command failed with exit code: Some(-2)");
    assert_eq!(command_outcome(false, None).unwrap_err(), "Command failed with exit code: None");
}

#[test]
fn exec_fstab_entries_are_literal_in_the_shell() {
    let calls = vec![Call::Fstab { device: "/dev/v/a".to_string(), path: "/mnt/$HOME \"x\"".to_string(), fs: Filesystem::Ext4 }];
    let exec = exec_provision(draft_of(calls)).unwrap();
    assert_eq!(
        exec.list[2],
        "UUID=$(blkid -s UUID -o value \"/dev/v/a\"); if [ -n \"$UUID\" ]; then echo \"UUID=$UUID /mnt/\\$HOME \\\"x\\\" ext4 defaults 0 0\" >> /etc/fstab.ext4.tmp; else echo \"/dev/v/a /mnt/\\$HOME \\\"x\\\" ext4 defaults 0 0\" >> /etc/fstab.ext4.tmp; fi"
    );
}

#[test]
fn paths_are_quoted_as_path_debug_quotes_them() {
    for p in ["/mnt/it's", "/mnt/a\"b", "/mnt/back\\slash", "/mnt/tab\there", "/mnt/e\u{301}"] {
        let exec = exec_provision(draft_of(vec![Call::Mkdir(p.to_string()), Call::MkSwap(p.to_string())])).unwrap();
        let q = format!("{:?}", std::path::PathBuf::from(p));
        assert_eq!(exec.list[0], format!("mkdir -p {}", q));
        assert_eq!(exec.list[1], format!("mkswap {}", q));
        assert_eq!(exec.list[2], format!("swapon {}", q));
    }
}
