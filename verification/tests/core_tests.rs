use lvq::types::{Filesystem, FsMount, LvRequest, PercentTarget, SizeUnit, ValidPercentage};
use proptest::arbitrary::any;
use proptest::strategy::{BoxedStrategy, Just, Strategy, Union};
use proptest::string::string_regex;
use proptest::test_runner::{Config, TestRunner};

fn runner() -> TestRunner {
    TestRunner::new(Config { cases: 2000, ..Config::default() })
}

fn re(pattern: &str) -> BoxedStrategy<String> {
    string_regex(pattern).unwrap().boxed()
}

fn arb_filesystem() -> BoxedStrategy<Filesystem> {
    Union::new(vec![
        Just(Filesystem::Xfs),
        Just(Filesystem::Ext4),
        Just(Filesystem::Btrfs),
        Just(Filesystem::Vfat),
        Just(Filesystem::Swap),
        Just(Filesystem::F2FS),
        Just(Filesystem::Ntfs),
        Just(Filesystem::Exfat),
    ])
    .boxed()
}

fn arb_target() -> BoxedStrategy<PercentTarget> {
    Union::new(vec![Just(PercentTarget::Free), Just(PercentTarget::Vg), Just(PercentTarget::Pvs)]).boxed()
}

fn arb_size_unit() -> BoxedStrategy<SizeUnit> {
    Union::new(vec![
        any::<u64>().prop_map(SizeUnit::Bytes).boxed(),
        any::<u64>().prop_map(SizeUnit::Sectors).boxed(),
        any::<u64>().prop_map(SizeUnit::Kilobytes).boxed(),
        any::<u64>().prop_map(SizeUnit::Megabytes).boxed(),
        any::<u64>().prop_map(SizeUnit::Gigabytes).boxed(),
        any::<u64>().prop_map(SizeUnit::Terabytes).boxed(),
        any::<u64>().prop_map(SizeUnit::Petabytes).boxed(),
        any::<u64>().prop_map(SizeUnit::Exabytes).boxed(),
        any::<u64>().prop_map(SizeUnit::Extents).boxed(),
        (1..=100u8, arb_target())
            .prop_map(|(p, t)| SizeUnit::Percentage(ValidPercentage::new(p).unwrap(), t))
            .boxed(),
    ])
    .boxed()
}

fn arb_lv_name() -> BoxedStrategy<String> {
    re("[a-zA-Z0-9_\\.][a-zA-Z0-9_\\.-]{0,20}")
}

fn arb_unix_path() -> BoxedStrategy<String> {
    re("/[a-z]{1,5}(/[a-z]{1,5}){0,2}")
}

fn arb_fs_mount() -> BoxedStrategy<FsMount> {
    (arb_filesystem(), proptest::option::of(arb_unix_path()))
        .prop_map(|(fs, mount_path)| FsMount { fs, mount_path })
        .boxed()
}

fn arb_lv_request() -> BoxedStrategy<LvRequest> {
    (arb_lv_name(), arb_size_unit(), proptest::option::of(arb_fs_mount()))
        .prop_map(|(name, size, fs)| LvRequest { name, size, fs })
        .boxed()
}

#[test]
fn valid_percentage_proof() {
    for val in 0..=255u8 {
        let res = ValidPercentage::new(val);
        if (1..=100).contains(&val) {
            assert!(res.is_ok(), "Failed on valid value: {}", val);
        } else {
            assert!(res.is_err(), "Accepted invalid value: {}", val);
        }
    }
    println!("Successfully verified all 256 possible u8 values.");
}

#[test]
fn test_parse_percentage_valid_cases() {
    let strategy = (0..=255u8, 0..3usize, re("[ \t]*"), re("[ \t]*"), any::<bool>());
    runner()
        .run(&strategy, |(val, target_idx, prefix, suffix, is_lowercase)| {
            let targets = ["%FREE", "%VG", "%PVS"];
            let mut target_str = targets[target_idx].to_string();
            if is_lowercase {
                target_str = target_str.to_lowercase();
            }
            let input = format!("{}{}{}{}", prefix, val, target_str, suffix);
            let result = SizeUnit::parse(&input);
            if (1..=100).contains(&val) {
                assert!(result.is_ok(), "Failed on valid input: '{}'", input);
                if let Ok(SizeUnit::Percentage(p, t)) = result {
                    assert_eq!(p.get(), val);
                    let expected_t = match target_idx {
                        0 => PercentTarget::Free,
                        1 => PercentTarget::Vg,
                        2 => PercentTarget::Pvs,
                        _ => unreachable!(),
                    };
                    assert_eq!(t, expected_t);
                }
            } else {
                assert!(result.is_err(), "Should have rejected value {}: '{}'", val, input);
            }
            Ok(())
        })
        .unwrap();
}

#[test]
fn test_parse_percentage_chaos() {
    runner()
        .run(&re("[a-zA-Z0-9 \t]*%[a-zA-Z0-9 \t]*"), |s| {
            let result = SizeUnit::parse(&s);
            if result.is_ok() {
                assert!(matches!(result.unwrap(), SizeUnit::Percentage(_, _)));
            }
            Ok(())
        })
        .unwrap();
}

#[test]
fn test_parse_absolute_valid() {
    let strategy = (0..u64::MAX, 0..16usize, re("[ \t]*"), re("[ \t]*"), any::<bool>());
    runner()
        .run(&strategy, |(val, unit_idx, prefix, suffix, is_lowercase)| {
            let units = ["B", "K", "KB", "M", "MB", "G", "GB", "T", "TB", "P", "PB", "EB", "S", "", "E"];
            let mut unit_str = units[unit_idx % units.len()].to_string();
            if is_lowercase {
                unit_str = unit_str.to_lowercase();
            }
            let input = format!("{}{}{}{}", prefix, val, unit_str, suffix);
            let result = SizeUnit::parse(&input);
            assert!(result.is_ok(), "Should parse valid absolute size: '{}'", input);
            match result.unwrap() {
                SizeUnit::Bytes(v) => assert_eq!(v, val),
                SizeUnit::Kilobytes(v) => assert_eq!(v, val),
                SizeUnit::Megabytes(v) => assert_eq!(v, val),
                SizeUnit::Gigabytes(v) => assert_eq!(v, val),
                SizeUnit::Terabytes(v) => assert_eq!(v, val),
                SizeUnit::Petabytes(v) => assert_eq!(v, val),
                SizeUnit::Exabytes(v) => assert_eq!(v, val),
                SizeUnit::Sectors(v) => assert_eq!(v, val),
                SizeUnit::Extents(v) => assert_eq!(v, val),
                SizeUnit::Percentage(_, _) => panic!("Should not be percentage"),
            }
            Ok(())
        })
        .unwrap();
}

#[test]
fn test_parse_absolute_overflow() {
    runner()
        .run(&re("1[0-9]{20}B"), |num_str| {
            assert!(SizeUnit::parse(&num_str).is_err());
            Ok(())
        })
        .unwrap();
}

#[test]
fn test_parse_absolute_junk() {
    runner()
        .run(&re("[A-Z]{3,10}[0-9]{1,5}"), |s| {
            assert!(SizeUnit::parse(&s).is_err());
            Ok(())
        })
        .unwrap();
}

#[test]
fn test_from_str_dispatch() {
    let cmd = Union::new(vec![
        re("[0-9]{1,3}%(FREE|VG|PVS|free|vg|pvs)"),
        re("[0-9]{1,10}(B|K|KB|M|MB|G|GB|T|TB|P|PB|EB|S|E|b|k|kb|m|mb|g|gb|t|tb|p|pb|eb|s|e)"),
        re("[0-9]{1,10}"),
    ]);
    let strategy = (cmd, re("[ \t\n\r]*"), re("[ \t\n\r]*"));
    runner()
        .run(&strategy, |(cmd, padding_l, padding_r)| {
            let input = format!("{}{}{}", padding_l, cmd, padding_r);
            let result = SizeUnit::parse(&input);
            if input.contains('%') {
                let num_part: u8 = cmd.split('%').next().unwrap().parse().unwrap_or(255);
                if (1..=100).contains(&num_part) {
                    assert!(result.is_ok(), "Strict failure on: '{}'", input);
                } else {
                    assert!(result.is_err());
                }
            } else {
                assert!(result.is_ok(), "Absolute failure on: '{}'", input);
            }
            Ok(())
        })
        .unwrap();
}

#[test]
fn test_filesystem_from_str_exhaustive() {
    let cases = Union::new(vec![
        re("[xX][fF][sS]").prop_map(|s| (s, Some(Filesystem::Xfs))).boxed(),
        re("[eE][xX][tT]4").prop_map(|s| (s, Some(Filesystem::Ext4))).boxed(),
        re("[bB][tT][rR][fF][sS]").prop_map(|s| (s, Some(Filesystem::Btrfs))).boxed(),
        re("[vV][fF][aA][tT]").prop_map(|s| (s, Some(Filesystem::Vfat))).boxed(),
        re("[sS][wW][aA][pP]").prop_map(|s| (s, Some(Filesystem::Swap))).boxed(),
        re("[fF]2[fF][sS]").prop_map(|s| (s, Some(Filesystem::F2FS))).boxed(),
        re("[nN][tT][fF][sS]").prop_map(|s| (s, Some(Filesystem::Ntfs))).boxed(),
        re("[eE][xX][fF][aA][tT]").prop_map(|s| (s, Some(Filesystem::Exfat))).boxed(),
        re("[a-zA-Z0-9]{6,15}").prop_map(|s| (s, None)).boxed(),
        re(" xfs").prop_map(|s| (s, None)).boxed(),
        re("ntfs ").prop_map(|s| (s, None)).boxed(),
    ]);
    runner()
        .run(&cases, |(input, expected_variant)| {
            let result = Filesystem::parse(&input);
            match expected_variant {
                Some(expected) => {
                    assert!(result.is_ok(), "Failed to parse valid FS: '{}'", input);
                    assert_eq!(result.unwrap(), expected, "Mismatched variant for: '{}'", input);
                }
                None => {
                    assert!(result.is_err(), "Strict Mode violation: accepted '{}'", input);
                }
            }
            Ok(())
        })
        .unwrap();
}

#[test]
fn test_lv_request_from_str_integration() {
    let fs_choice = Union::new(vec![Just("xfs"), Just("ext4"), Just("btrfs"), Just("vfat"), Just("ntfs")]);
    let strategy = (arb_lv_name(), 1..100u8, fs_choice, re("/[a-z]{1,5}/[a-z]{1,5}"), 0..4usize);
    runner()
        .run(&strategy, |(name, size_val, fs_str, path_str, mode)| {
            let size_str = format!("{}%FREE", size_val);
            let input = match mode {
                0 => format!("{}:{}", name, size_str),
                1 => format!("{}:{}:", name, size_str),
                2 => format!("{}:{}:{}", name, size_str, fs_str),
                3 => format!("{}:{}:{}:{}", name, size_str, fs_str, path_str),
                _ => unreachable!(),
            };
            let result = LvRequest::parse(&input);
            assert!(result.is_ok(), "Failed to parse valid structure: '{}'", input);
            let req = result.unwrap();
            assert_eq!(req.name, name);
            match mode {
                0 | 1 => assert!(req.fs.is_none(), "Should have no FS for mode {}", mode),
                2 => {
                    let fs_mount = req.fs.unwrap();
                    assert_eq!(fs_mount.fs.to_string().to_lowercase(), fs_str);
                    assert!(fs_mount.mount_path.is_none());
                }
                3 => {
                    let fs_mount = req.fs.unwrap();
                    assert_eq!(fs_mount.fs.to_string().to_lowercase(), fs_str);
                    assert_eq!(fs_mount.mount_path.unwrap(), path_str);
                }
                _ => {}
            }
            Ok(())
        })
        .unwrap();
}

#[test]
fn test_lv_request_structural_errors() {
    runner()
        .run(&(arb_lv_name(), re("/mnt/data")), |(name, path)| {
            let forbidden = format!("{}:10G::{}", name, path);
            assert!(LvRequest::parse(&forbidden).is_err());
            let too_many = format!("{}:10G:xfs:/mnt:extra", name);
            assert!(LvRequest::parse(&too_many).is_err());
            let bad_name = "-invalid:10G".to_string();
            assert!(LvRequest::parse(&bad_name).is_err());
            Ok(())
        })
        .unwrap();
}

#[test]
fn test_size_unit_reflexivity() {
    runner()
        .run(&arb_size_unit(), |unit| {
            let serialized = unit.to_string();
            let deserialized = SizeUnit::parse(&serialized);
            assert!(deserialized.is_ok(), "Failed to parse its own output: '{}'", serialized);
            assert_eq!(unit, deserialized.unwrap(), "Reflexivity failed for: '{}'", serialized);
            Ok(())
        })
        .unwrap();
}

#[test]
fn test_filesystem_reflexivity() {
    runner()
        .run(&arb_filesystem(), |fs| {
            let serialized = fs.to_string();
            let deserialized = Filesystem::parse(&serialized);
            assert!(deserialized.is_ok(), "Filesystem failed to parse its own Display output: '{}'", serialized);
            assert_eq!(fs, deserialized.unwrap(), "Reflexivity mismatch for filesystem: '{}'", serialized);
            Ok(())
        })
        .unwrap();
}

#[test]
fn test_lv_request_reflexivity() {
    runner()
        .run(&arb_lv_request(), |req| {
            let serialized = req.to_string();
            let deserialized = LvRequest::parse(&serialized);
            assert!(deserialized.is_ok(), "LvRequest failed to parse its own output: '{}'", serialized);
            let back = deserialized.unwrap();
            assert_eq!(req.name, back.name, "Name mismatch for: '{}'", serialized);
            assert_eq!(req.size, back.size, "Size mismatch for: '{}'", serialized);
            assert_eq!(req.fs.is_some(), back.fs.is_some(), "FS presence mismatch for: '{}'", serialized);
            if let (Some(orig_fs), Some(back_fs)) = (req.fs, back.fs) {
                assert_eq!(orig_fs.fs, back_fs.fs, "FS type mismatch for: '{}'", serialized);
                assert_eq!(orig_fs.mount_path, back_fs.mount_path, "Path mismatch for: '{}'", serialized);
            }
            Ok(())
        })
        .unwrap();
}

// Concrete cases.

#[test]
fn to_bytes_exact_values() {
    assert_eq!(SizeUnit::Bytes(7).to_bytes(), Ok(7));
    assert_eq!(SizeUnit::Sectors(2).to_bytes(), Ok(1024));
    assert_eq!(SizeUnit::Kilobytes(3).to_bytes(), Ok(3072));
    assert_eq!(SizeUnit::Megabytes(4).to_bytes(), Ok(4_194_304));
    assert_eq!(SizeUnit::Gigabytes(1).to_bytes(), Ok(1_073_741_824));
    assert_eq!(SizeUnit::Terabytes(1).to_bytes(), Ok(1_099_511_627_776));
    assert_eq!(SizeUnit::Petabytes(1).to_bytes(), Ok(1_125_899_906_842_624));
    assert_eq!(
        SizeUnit::Exabytes(u64::MAX).to_bytes(),
        Ok((u64::MAX as u128) * 1_152_921_504_606_846_976)
    );
}

#[test]
fn to_bytes_refuses_relative_sizes() {
    let p = SizeUnit::Percentage(ValidPercentage::new(10).unwrap(), PercentTarget::Vg);
    assert!(p.to_bytes().unwrap_err().contains("Percentage"));
    assert!(SizeUnit::Extents(5).to_bytes().unwrap_err().contains("Extents"));
}

#[test]
fn percentage_error_message() {
    assert_eq!(
        ValidPercentage::new(0).unwrap_err(),
        "Percentage must be between 1 and 100, got 0%"
    );
    assert_eq!(
        ValidPercentage::new(101).unwrap_err(),
        "Percentage must be between 1 and 100, got 101%"
    );
    assert_eq!(ValidPercentage::new(100).unwrap().get(), 100);
}

#[test]
fn size_parse_errors() {
    assert_eq!(SizeUnit::parse("10%XYZ").unwrap_err(), "Unsupported percentage target: '%XYZ'");
    assert_eq!(SizeUnit::parse("x5%FREE").unwrap_err(), "Invalid percentage number");
    assert_eq!(SizeUnit::parse("0%VG").unwrap_err(), "Percentage must be between 1 and 100, got 0%");
    assert_eq!(SizeUnit::parse("G10").unwrap_err(), "No numeric value found in size: 'G10'");
    assert_eq!(SizeUnit::parse("99999999999999999999").unwrap_err(), "Invalid numeric value");
    assert_eq!(SizeUnit::parse("10 G").unwrap_err(), "Unknown size unit: ' G'");
    assert_eq!(SizeUnit::parse("10XB").unwrap_err(), "Unknown size unit: 'XB'");
}

#[test]
fn size_parse_trims_and_ignores_case() {
    assert_eq!(SizeUnit::parse("  10g \n"), Ok(SizeUnit::Gigabytes(10)));
    assert_eq!(SizeUnit::parse("512s"), Ok(SizeUnit::Sectors(512)));
    assert_eq!(SizeUnit::parse("100"), Ok(SizeUnit::Extents(100)));
    assert_eq!(
        SizeUnit::parse("+50%free"),
        Ok(SizeUnit::Percentage(ValidPercentage::new(50).unwrap(), PercentTarget::Free))
    );
    assert_eq!(SizeUnit::parse_canonical("8MB"), Ok(SizeUnit::Megabytes(8)));
}

#[test]
fn size_text_forms() {
    assert_eq!(SizeUnit::Sectors(9).to_string(), "9s");
    assert_eq!(SizeUnit::Extents(0).to_string(), "0");
    assert_eq!(SizeUnit::Exabytes(2).to_string(), "2E");
    assert_eq!(
        SizeUnit::Percentage(ValidPercentage::new(25).unwrap(), PercentTarget::Pvs).to_string(),
        "25%PVS"
    );
}

#[test]
fn filesystem_parse_errors_keep_input() {
    assert_eq!(Filesystem::parse("XFS"), Ok(Filesystem::Xfs));
    assert_eq!(Filesystem::parse("zfs").unwrap_err(), "Unsupported or unknown filesystem: 'zfs'");
    assert_eq!(Filesystem::F2FS.to_string(), "f2fs");
}

#[test]
fn lv_request_errors() {
    assert_eq!(LvRequest::parse("data").unwrap_err(), "Invalid format 'data'. Min: name:size");
    assert_eq!(
        LvRequest::parse("a:1G:xfs:/m:x").unwrap_err(),
        "Invalid format 'a:1G:xfs:/m:x'. Max: name:size:fs:mount"
    );
    assert_eq!(LvRequest::parse(":1G").unwrap_err(), "Invalid LV name: ''");
    assert_eq!(LvRequest::parse("a b:1G").unwrap_err(), "Invalid LV name: 'a b'");
    assert_eq!(
        LvRequest::parse("data:1G::/mnt").unwrap_err(),
        "Provided a mountpath '/mnt' but no filesystem."
    );
    assert_eq!(LvRequest::parse("data:1Q").unwrap_err(), "Unknown size unit: 'Q'");
    assert_eq!(
        LvRequest::parse("data:1G:zfs").unwrap_err(),
        "Unsupported or unknown filesystem: 'zfs'"
    );
}

#[test]
fn lv_request_accepts_unicode_names() {
    let r = LvRequest::parse("daten\u{e9}:1G").unwrap();
    assert_eq!(r.name, "daten\u{e9}");
}

#[test]
fn lv_request_full_form() {
    let r = LvRequest::parse("web:10G:xfs:/srv/www").unwrap();
    assert_eq!(r.name, "web");
    assert_eq!(r.size, SizeUnit::Gigabytes(10));
    assert_eq!(
        r.fs,
        Some(FsMount { fs: Filesystem::Xfs, mount_path: Some("/srv/www".to_string()) })
    );
    assert_eq!(r.to_string(), "web:10G:xfs:/srv/www");
    let s: LvRequest = "swap0:2G:swap".parse().unwrap();
    assert_eq!(s.fs, Some(FsMount { fs: Filesystem::Swap, mount_path: None }));
}

#[test]
fn size_parse_trims_unicode_white_space() {
    assert_eq!(SizeUnit::parse("\u{a0}10G\u{3000}"), Ok(SizeUnit::Gigabytes(10)));
    assert_eq!(SizeUnit::parse("\u{2009}5%vg\u{85}").unwrap().to_string(), "5%VG");
}

#[test]
fn percentage_and_absolute_parsers() {
    assert_eq!(SizeUnit::parse_percentage("50FREE").unwrap_err(), "Missing '%' in percentage string");
    assert_eq!(
        SizeUnit::parse_percentage("50%FREE"),
        Ok(SizeUnit::Percentage(ValidPercentage::new(50).unwrap(), PercentTarget::Free))
    );
    assert_eq!(SizeUnit::parse_percentage("0%VG").unwrap_err(), "Percentage must be between 1 and 100, got 0%");
    assert_eq!(SizeUnit::parse_absolute("12KB"), Ok(SizeUnit::Kilobytes(12)));
    assert_eq!(SizeUnit::parse_absolute("12"), Ok(SizeUnit::Extents(12)));
    assert_eq!(SizeUnit::parse_absolute("KB").unwrap_err(), "No numeric value found in size: 'KB'");
}
