use lvq::reports::{
    block_size_from_report, contains_text, fstab_references, full_disk_from_report, mentions_in_table,
    proc_table_mentions,
};

const FSTAB: &str = "# /etc/fstab\n# /dev/vg0/old /mnt/old xfs defaults 0 0\nUUID=1234-abcd /data xfs defaults 0 0\r\n/dev/sdc1 /boot ext4 defaults 0 0\n";

#[test]
fn contains_text_finds_substrings() {
    assert!(contains_text("abcdef", "cde"));
    assert!(contains_text("abc", ""));
    assert!(contains_text("", ""));
    assert!(!contains_text("abc", "abcd"));
    assert!(!contains_text("abc", "ac"));
}

#[test]
fn fstab_matches_by_mount_point_uuid_or_device() {
    assert!(fstab_references(FSTAB, "/dev/vg0/data", "/data", ""));
    assert!(fstab_references(FSTAB, "/dev/vg0/data", "", "1234-abcd\n"));
    assert!(fstab_references(FSTAB, "/dev/sdc1", "", ""));
    assert!(!fstab_references(FSTAB, "/dev/sdd", "", "  \n"));
}

#[test]
fn fstab_skips_comments_and_placeholder_mount_points() {
    // Only mentioned in a comment line.
    assert!(!fstab_references(FSTAB, "/dev/vg0/old", "/mnt/old", ""));
    // `none` is no mount point to look for.
    assert!(!fstab_references("/dev/x none swap sw 0 0\n", "/dev/y", "none", ""));
    assert!(fstab_references("/dev/x none swap sw 0 0\n", "/dev/x", "none", ""));
}

#[test]
fn proc_tables_keep_every_line() {
    let mounts = "#odd /mnt/a xfs rw 0 0\n/dev/sda1 / ext4 rw 0 0";
    assert!(proc_table_mentions(mounts, "/mnt/a"));
    assert!(proc_table_mentions(mounts, "/dev/sda1"));
    assert!(!proc_table_mentions(mounts, "/mnt/b"));
    assert!(!proc_table_mentions("", "/mnt/a"));
}

#[test]
fn lines_split_as_str_lines_does() {
    // A carriage return before a line feed is not part of the line.
    assert!(!mentions_in_table("a\r\nb\n", "a\r", false));
    // A final carriage return without a line feed stays.
    assert!(mentions_in_table("a\nb\r", "b\r", false));
    // No empty line after the final line feed, but empty lines inside count.
    assert!(!mentions_in_table("#a\n", "", true));
    assert!(mentions_in_table("#a\n\n#b", "", true));
    assert!(!mentions_in_table("", "", false));
}

#[test]
fn block_size_reads_the_trimmed_number() {
    assert_eq!(block_size_from_report("1073741824\n"), Some(1073741824));
    assert_eq!(block_size_from_report("  42 "), Some(42));
    assert_eq!(block_size_from_report("+7"), Some(7));
    assert_eq!(block_size_from_report("18446744073709551615"), Some(u64::MAX));
    assert_eq!(block_size_from_report("18446744073709551616"), None);
    assert_eq!(block_size_from_report(""), None);
    assert_eq!(block_size_from_report("12 34"), None);
}

#[test]
fn full_disk_is_any_type_but_a_partition() {
    assert!(full_disk_from_report("disk\n"));
    assert!(full_disk_from_report("loop"));
    assert!(!full_disk_from_report("part\n"));
    assert!(!full_disk_from_report("\n"));
}

#[test]
fn trim_text_agrees_with_str_trim() {
    for s in [
        "", " ", "  a b  ", "\t\n\u{b}\u{c}\rx\r\n", "\u{85}\u{a0}y\u{1680}", "\u{2000}\u{200a}z\u{2028}\u{2029}",
        "\u{202f}\u{205f}w\u{3000}", "\u{200b}k\u{200b}", "\u{180e}m",
    ] {
        assert_eq!(lvq::text::trim_text(s), s.trim(), "on {:?}", s);
    }
}
