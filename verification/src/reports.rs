//! Reading the system's tables and tool reports: `/etc/fstab`,
//! `/proc/mounts`, `/proc/swaps`, and the output of `lsblk` and `blkid`.
//! The files are read and the tools run outside the library; what their
//! text means is decided here.

use vstd::prelude::*;
use crate::text::{
    lemma_split_nonempty, parse_uint, split_on, split_text, text_eq, trim_model, trim_text,
    uint_parse,
};

verus! {

/// A line without the carriage return that ends it, if any.
pub open spec fn strip_cr(l: Seq<char>) -> Seq<char> {
    if l.len() > 0 && l.last() == '\r' {
        l.drop_last()
    } else {
        l
    }
}

/// The lines of a text as `str::lines` yields them: split at each line
/// feed, a carriage return right before a line feed dropped, and no empty
/// line after a final line feed.
pub open spec fn text_lines(t: Seq<char>) -> Seq<Seq<char>> {
    let p = split_on(t, '\n');
    let ended = p.take(p.len() - 1).map_values(|l: Seq<char>| strip_cr(l));
    if p.last().len() == 0 {
        ended
    } else {
        ended.push(p.last())
    }
}

/// `needle` occurs in `hay`.
pub open spec fn text_contains(hay: Seq<char>, needle: Seq<char>) -> bool {
    exists|k: int| 0 <= k && k + needle.len() <= hay.len() && #[trigger] hay.subrange(k, k + needle.len()) == needle
}

/// Some line of the table mentions `needle`; with `skip_comments`, lines
/// that start with `#` are left out.
pub open spec fn table_mentions(t: Seq<char>, needle: Seq<char>, skip_comments: bool) -> bool {
    exists|i: int|
        0 <= i < text_lines(t).len() && !(skip_comments && text_lines(t)[i].len() > 0
            && text_lines(t)[i][0] == '#') && text_contains(#[trigger] text_lines(t)[i], needle)
}

/// Whether `needle` occurs in `hay`.
pub fn contains_text(hay: &str, needle: &str) -> (r: bool)
    ensures
        r == text_contains(hay@, needle@),
{
    let n = hay.unicode_len();
    let m = needle.unicode_len();
    if m > n {
        return false;
    }
    if m == 0 {
        assert(hay@.subrange(0int, 0int + needle@.len()) =~= needle@);
        return true;
    }
    let mut k: usize = 0;
    while k <= n - m
        invariant
            n == hay@.len(),
            m == needle@.len(),
            1 <= m <= n,
            k <= n - m + 1,
            forall|j: int| 0 <= j < k ==> #[trigger] hay@.subrange(j, j + m) != needle@,
        decreases n - m + 1 - k,
    {
        let piece = hay.substring_char(k, k + m);
        if text_eq(piece, needle) {
            assert(hay@.subrange(k as int, k + m) == needle@);
            return true;
        }
        k = k + 1;
    }
    assert(!text_contains(hay@, needle@)) by {
        if text_contains(hay@, needle@) {
            let j = choose|j: int|
                0 <= j && j + needle@.len() <= hay@.len() && #[trigger] hay@.subrange(j, j + needle@.len()) == needle@;
            assert(hay@.subrange(j, j + m) != needle@);
        }
    }
    false
}

fn without_cr(l: &str) -> (r: &str)
    ensures
        r@ == strip_cr(l@),
{
    let n = l.unicode_len();
    if n > 0 && l.get_char(n - 1) == '\r' {
        l.substring_char(0, n - 1)
    } else {
        l
    }
}

proof fn lemma_text_lines(t: Seq<char>)
    ensures
        split_on(t, '\n').len() >= 1,
        text_lines(t).len() == split_on(t, '\n').len() - 1 + (if split_on(t, '\n').last().len() == 0 {
            0int
        } else {
            1int
        }),
        forall|i: int|
            0 <= i < split_on(t, '\n').len() - 1 ==> #[trigger] text_lines(t)[i] == strip_cr(split_on(t, '\n')[i]),
        split_on(t, '\n').last().len() > 0 ==> text_lines(t)[split_on(t, '\n').len() - 1] == split_on(t, '\n').last(),
{
    lemma_split_nonempty(t, '\n');
}

/// Whether some line of table `t` mentions `needle`, comment lines left out
/// when `skip_comments` holds.
pub fn mentions_in_table(t: &str, needle: &str, skip_comments: bool) -> (r: bool)
    ensures
        r == table_mentions(t@, needle@, skip_comments),
{
    let parts = split_text(t, '\n');
    let ghost p = split_on(t@, '\n');
    let ghost lines = text_lines(t@);
    proof {
        lemma_text_lines(t@);
    }
    assert(forall|i: int| 0 <= i < parts.len() ==> parts@[i]@ == #[trigger] p[i]);
    let n = parts.len();
    let mut i: usize = 0;
    while i < n
        invariant
            n == parts.len(),
            n == p.len(),
            n >= 1,
            i <= n,
            p == split_on(t@, '\n'),
            lines == text_lines(t@),
            forall|k: int| 0 <= k < parts.len() ==> parts@[k]@ == #[trigger] p[k],
            lines.len() == p.len() - 1 + (if p.last().len() == 0 { 0int } else { 1int }),
            forall|k: int| 0 <= k < p.len() - 1 ==> #[trigger] lines[k] == strip_cr(p[k]),
            p.last().len() > 0 ==> lines[p.len() - 1] == p.last(),
            forall|k: int|
                0 <= k < i && k < lines.len() ==> !(!(skip_comments && lines[k].len() > 0 && lines[k][0] == '#')
                    && text_contains(#[trigger] lines[k], needle@)),
        decreases n - i,
    {
        let is_last = i + 1 == n;
        let raw = parts[i].as_str();
        if is_last && raw.unicode_len() == 0 {
            i = i + 1;
            continue;
        }
        let line = if is_last {
            raw
        } else {
            without_cr(raw)
        };
        assert(line@ == lines[i as int]);
        let commented = skip_comments && line.unicode_len() > 0 && line.get_char(0) == '#';
        if !commented && contains_text(line, needle) {
            assert(text_contains(lines[i as int], needle@));
            return true;
        }
        i = i + 1;
    }
    false
}

/// Whether `/etc/fstab` (text `fstab`) refers to a device: by its mount
/// point, unless that is empty or `none`; by its UUID (the output of
/// `blkid -s UUID -o value`, trimmed), unless that is empty; or by its
/// path. Comment lines are left out.
pub fn fstab_references(fstab: &str, device: &str, mount_path: &str, uuid: &str) -> (r: bool)
    ensures
        r == ((mount_path@.len() > 0 && mount_path@ != "none"@ && table_mentions(fstab@, mount_path@, true))
            || (trim_model(uuid@).len() > 0 && table_mentions(fstab@, trim_model(uuid@), true))
            || table_mentions(fstab@, device@, true)),
{
    if mount_path.unicode_len() > 0 && !text_eq(mount_path, "none") && mentions_in_table(fstab, mount_path, true) {
        return true;
    }
    let u = trim_text(uuid);
    if u.unicode_len() > 0 && mentions_in_table(fstab, u, true) {
        return true;
    }
    mentions_in_table(fstab, device, true)
}

/// Whether some line of a table of `/proc` (`/proc/mounts`, `/proc/swaps`)
/// mentions `needle`.
pub fn proc_table_mentions(table: &str, needle: &str) -> (r: bool)
    ensures
        r == table_mentions(table@, needle@, false),
{
    mentions_in_table(table, needle, false)
}

/// The size in bytes that `lsblk -b -n -o SIZE` printed: the trimmed
/// output read as an unsigned 64-bit number.
pub fn block_size_from_report(out: &str) -> (r: Option<u64>)
    ensures
        match uint_parse(trim_model(out@), u64::MAX as nat) {
            Some(v) => r == Some(v as u64),
            None => r is None,
        },
{
    let t = trim_text(out);
    match parse_uint(t, 18446744073709551615u128) {
        Some(v) => Some(v as u64),
        None => None,
    }
}

/// Whether `lsblk -n -d -o TYPE` reports a whole device: the trimmed
/// output is neither empty nor `part`.
pub fn full_disk_from_report(out: &str) -> (r: bool)
    ensures
        r == (trim_model(out@).len() > 0 && trim_model(out@) != "part"@),
{
    let t = trim_text(out);
    t.unicode_len() > 0 && !text_eq(t, "part")
}

} // verus!
