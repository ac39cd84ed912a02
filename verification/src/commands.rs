//! Translation of a verified plan into shell commands, and the gates
//! before and during their execution.

use vstd::prelude::*;
use crate::text::{concat3, path_quoted, decimal, decimal_text, quoted, trim_model, trim_text, text_eq, views};
use crate::types::{
    size_bytes, to_bytes_spec, Call, Draft, Exec, Filesystem, PercentTarget, SizeUnit,
};
use crate::units::{fs_name, lemma_size_text_roundtrip, size_parse_text, size_text, target_suffix};

verus! {

pub open spec fn fstab_backup_command() -> Seq<char> {
    "cp -p /etc/fstab /etc/fstab.bak"@
}

pub open spec fn daemon_reload_command() -> Seq<char> {
    "systemctl daemon-reload"@
}

/// The staging copy of `/etc/fstab` for an entry of filesystem `fs`.
pub open spec fn fstab_staging(fs: Filesystem) -> Seq<char> {
    "/etc/fstab."@ + fs_name(fs) + ".tmp"@
}

pub open spec fn fstab_mount_point(path: Seq<char>, fs: Filesystem) -> Seq<char> {
    if fs == Filesystem::Swap {
        "none"@
    } else {
        path
    }
}

pub open spec fn fstab_options(fs: Filesystem) -> Seq<char> {
    if fs == Filesystem::Swap {
        "sw"@
    } else {
        "defaults"@
    }
}

/// An `/etc/fstab` line naming the device by `ident`.
pub open spec fn fstab_line(ident: Seq<char>, path: Seq<char>, fs: Filesystem) -> Seq<char> {
    ident + " "@ + fstab_mount_point(path, fs) + " "@ + fs_name(fs) + " "@ + fstab_options(fs) + " 0 0"@
}

pub open spec fn fstab_stage_command(fs: Filesystem) -> Seq<char> {
    "cp -p /etc/fstab "@ + fstab_staging(fs)
}

/// The characters that keep a special meaning inside double quotes in the
/// shell: backslash, double quote, dollar and backquote.
pub open spec fn dq_special(c: char) -> bool {
    c == '\\' || c == '"' || c == '$' || c == '`'
}

/// A text made literal inside shell double quotes: each special character
/// gets a backslash before it.
pub open spec fn dq_escaped(s: Seq<char>) -> Seq<char>
    decreases s.len(),
{
    if s.len() == 0 {
        Seq::empty()
    } else {
        dq_escaped(s.drop_last()) + if dq_special(s.last()) {
            seq!['\\', s.last()]
        } else {
            seq![s.last()]
        }
    }
}

/// Appends the entry to the staging copy, by UUID when `blkid` finds one
/// and by device path otherwise. The device and the mount point are
/// written literally into the double-quoted `echo` argument.
pub open spec fn fstab_append_command(device: Seq<char>, path: Seq<char>, fs: Filesystem) -> Seq<char> {
    "UUID=$(blkid -s UUID -o value "@ + path_quoted(device) + "); if [ -n \"$UUID\" ]; then echo \""@
        + fstab_line("UUID=$UUID"@, dq_escaped(path), fs) + "\" >> "@ + fstab_staging(fs) + "; else echo \""@
        + fstab_line(dq_escaped(device), dq_escaped(path), fs) + "\" >> "@ + fstab_staging(fs) + "; fi"@
}

pub open spec fn fstab_commit_command(fs: Filesystem) -> Seq<char> {
    "mv "@ + fstab_staging(fs) + " /etc/fstab"@
}

/// The words joined by single spaces.
pub open spec fn join_spaced(parts: Seq<Seq<char>>) -> Seq<char>
    decreases parts.len(),
{
    if parts.len() == 0 {
        Seq::empty()
    } else if parts.len() == 1 {
        parts[0]
    } else {
        join_spaced(parts.drop_last()) + " "@ + parts.last()
    }
}

pub open spec fn quoted_all(parts: Seq<Seq<char>>) -> Seq<Seq<char>> {
    parts.map_values(|p: Seq<char>| path_quoted(p))
}

pub open spec fn vgcreate_command(name: Seq<char>, pvs: Seq<Seq<char>>, pe_bytes: nat) -> Seq<char> {
    "vgcreate -s "@ + decimal(pe_bytes) + "B "@ + name + " "@ + join_spaced(quoted_all(pvs))
}

pub open spec fn lvcreate_command(vg: Seq<char>, name: Seq<char>, size: SizeUnit) -> Seq<char> {
    let head = "lvcreate -y -n "@ + name;
    match size {
        SizeUnit::Percentage(p, t) => head + " -l "@ + decimal(p.value() as nat) + "%"@ + target_suffix(t) + " "@ + vg,
        SizeUnit::Extents(e) => head + " -l "@ + decimal(e as nat) + " "@ + vg,
        _ => head + " -L "@ + decimal(size_bytes(size).unwrap()) + "B "@ + vg,
    }
}

/// The shell commands for one call, or the error that stops translation.
pub open spec fn call_commands(c: Call) -> Result<Seq<Seq<char>>, Seq<char>> {
    match c {
        Call::PvCreate(p) => Ok(seq!["pvcreate -y "@ + path_quoted(p@)]),
        Call::VgCreate { name, pvs, pe_size } => match to_bytes_spec(pe_size) {
            Err(m) => Err(m),
            Ok(b) => Ok(seq![vgcreate_command(name@, views(pvs@), b)]),
        },
        Call::LvCreate { vg, name, size } => Ok(seq![lvcreate_command(vg@, name@, size)]),
        Call::Mkfs { device, fs } => Ok(seq!["mkfs -t "@ + fs_name(fs) + " "@ + path_quoted(device@)]),
        Call::MkSwap(d) => Ok(
            seq!["mkswap "@ + path_quoted(d@), "swapon "@ + path_quoted(d@)],
        ),
        Call::Mkdir(p) => Ok(seq!["mkdir -p "@ + path_quoted(p@)]),
        Call::Mount { device, path } => Ok(
            seq!["mount "@ + path_quoted(device@) + " "@ + path_quoted(path@)],
        ),
        Call::Fstab { device, path, fs } => Ok(
            seq![
                fstab_stage_command(fs),
                fstab_append_command(device@, path@, fs),
                fstab_commit_command(fs),
            ],
        ),
    }
}

/// The commands of the calls in order, or the first error.
pub open spec fn commands_scan(s: Seq<Call>) -> Result<Seq<Seq<char>>, Seq<char>>
    decreases s.len(),
{
    if s.len() == 0 {
        Ok(Seq::empty())
    } else {
        match commands_scan(s.drop_last()) {
            Err(m) => Err(m),
            Ok(cmds) => match call_commands(s.last()) {
                Err(m) => Err(m),
                Ok(c) => Ok(cmds + c),
            },
        }
    }
}

pub open spec fn has_fstab(s: Seq<Call>) -> bool {
    exists|i: int| 0 <= i < s.len() && s[i] is Fstab
}

/// The full command list of a plan: when it edits `/etc/fstab`, a backup of
/// the file comes first and a reload of the service manager last.
pub open spec fn exec_commands(s: Seq<Call>) -> Result<Seq<Seq<char>>, Seq<char>> {
    match commands_scan(s) {
        Err(m) => Err(m),
        Ok(c) => Ok(
            if has_fstab(s) {
                seq![fstab_backup_command()] + c + seq![daemon_reload_command()]
            } else {
                c
            },
        ),
    }
}

fn join_quoted(pvs: &Vec<String>) -> (r: String)
    ensures
        r@ == join_spaced(quoted_all(views(pvs@))),
{
    let ghost q = quoted_all(views(pvs@));
    let mut r = String::new();
    let mut i: usize = 0;
    assert(q.take(0) =~= Seq::<Seq<char>>::empty());
    while i < pvs.len()
        invariant
            i <= pvs.len(),
            q == quoted_all(views(pvs@)),
            r@ == join_spaced(q.take(i as int)),
        decreases pvs.len() - i,
    {
        let p = quoted(pvs[i].as_str());
        assert(q.take(i + 1).drop_last() =~= q.take(i as int));
        assert(q.take(i + 1).last() == p@);
        if i != 0 {
            r.append(" ");
        } else {
            assert(q.take(i + 1) =~= seq![p@]);
        }
        r.append(p.as_str());
        i = i + 1;
    }
    assert(q.take(pvs.len() as int) =~= q);
    r
}

fn stage_text(fs: Filesystem) -> (r: String)
    ensures
        r@ == fstab_staging(fs),
{
    let n = fs.to_string();
    concat3("/etc/fstab.", n.as_str(), ".tmp")
}

fn fstab_line_text(ident: &str, path: &str, fs: Filesystem) -> (r: String)
    ensures
        r@ == fstab_line(ident@, path@, fs),
{
    let n = fs.to_string();
    let mp: &str = match fs {
        Filesystem::Swap => "none",
        _ => path,
    };
    let opts: &str = match fs {
        Filesystem::Swap => "sw",
        _ => "defaults",
    };
    let mut r = concat3(ident, " ", mp);
    r.append(" ");
    r.append(n.as_str());
    r.append(" ");
    r.append(opts);
    r.append(" 0 0");
    r
}

/// Escapes `s` for use inside shell double quotes.
fn dq_escape_text(s: &str) -> (r: String)
    ensures
        r@ == dq_escaped(s@),
{
    let n = s.unicode_len();
    let mut r = String::new();
    let mut i: usize = 0;
    assert(s@.take(0) =~= Seq::<char>::empty());
    while i < n
        invariant
            n == s@.len(),
            i <= n,
            r@ == dq_escaped(s@.take(i as int)),
        decreases n - i,
    {
        let c = s.get_char(i);
        let one = s.substring_char(i, i + 1);
        assert(one@ =~= seq![c]);
        let ghost before = r@;
        if c == '\\' || c == '"' || c == '$' || c == '`' {
            proof {
                reveal_strlit("\\");
                assert("\\"@ =~= seq!['\\']);
            }
            r.append("\\");
            r.append(one);
            assert(r@ =~= before + seq!['\\', c]);
        } else {
            r.append(one);
        }
        assert(s@.take(i + 1).drop_last() =~= s@.take(i as int));
        assert(s@.take(i + 1).last() == c);
        i = i + 1;
    }
    assert(s@.take(n as int) =~= s@);
    r
}

fn fstab_append_text(device: &str, path: &str, fs: Filesystem) -> (r: String)
    ensures
        r@ == fstab_append_command(device@, path@, fs),
{
    let q = quoted(device);
    let tmp = stage_text(fs);
    let ed = dq_escape_text(device);
    let ep = dq_escape_text(path);
    let by_uuid = fstab_line_text("UUID=$UUID", ep.as_str(), fs);
    let by_path = fstab_line_text(ed.as_str(), ep.as_str(), fs);
    let mut r = concat3("UUID=$(blkid -s UUID -o value ", q.as_str(), "); if [ -n \"$UUID\" ]; then echo \"");
    r.append(by_uuid.as_str());
    r.append("\" >> ");
    r.append(tmp.as_str());
    r.append("; else echo \"");
    r.append(by_path.as_str());
    r.append("\" >> ");
    r.append(tmp.as_str());
    r.append("; fi");
    r
}

fn lvcreate_text(vg: &str, name: &str, size: SizeUnit) -> (r: Result<String, String>)
    ensures
        r matches Ok(c) && c@ == lvcreate_command(vg@, name@, size),
{
    let mut r = String::from_str("lvcreate -y -n ");
    r.append(name);
    match size {
        SizeUnit::Percentage(pct, target) => {
            let p = decimal_text(pct.get() as u128);
            let t = match target {
                PercentTarget::Free => "FREE",
                PercentTarget::Vg => "VG",
                PercentTarget::Pvs => "PVS",
            };
            r.append(" -l ");
            r.append(p.as_str());
            r.append("%");
            r.append(t);
            r.append(" ");
            r.append(vg);
        },
        SizeUnit::Extents(e) => {
            let d = decimal_text(e as u128);
            r.append(" -l ");
            r.append(d.as_str());
            r.append(" ");
            r.append(vg);
        },
        _ => {
            let b = match size.to_bytes() {
                Ok(b) => b,
                Err(e) => {
                    return Err(e);
                },
            };
            let d = decimal_text(b);
            r.append(" -L ");
            r.append(d.as_str());
            r.append("B ");
            r.append(vg);
        },
    }
    Ok(r)
}

fn call_text(call: &Call, list: &mut Vec<String>) -> (r: Result<(), String>)
    ensures
        match call_commands(*call) {
            Ok(c) => r is Ok && views(final(list)@) == views(old(list)@) + c,
            Err(m) => r matches Err(e) && e@ == m,
        },
{
    let ghost before = views(list@);
    match call {
        Call::PvCreate(path) => {
            let q = quoted(path.as_str());
            let c = concat3("pvcreate -y ", q.as_str(), "");
            list.push(c);
        },
        Call::VgCreate { name, pvs, pe_size } => {
            let b = match pe_size.to_bytes() {
                Ok(b) => b,
                Err(e) => {
                    return Err(e);
                },
            };
            let d = decimal_text(b);
            let j = join_quoted(pvs);
            let mut c = concat3("vgcreate -s ", d.as_str(), "B ");
            c.append(name.as_str());
            c.append(" ");
            c.append(j.as_str());
            list.push(c);
        },
        Call::LvCreate { vg, name, size } => {
            let c = match lvcreate_text(vg.as_str(), name.as_str(), *size) {
                Ok(c) => c,
                Err(e) => {
                    return Err(e);
                },
            };
            list.push(c);
        },
        Call::Mkfs { device, fs } => {
            let n = fs.to_string();
            let q = quoted(device.as_str());
            let mut c = concat3("mkfs -t ", n.as_str(), " ");
            c.append(q.as_str());
            list.push(c);
        },
        Call::MkSwap(device) => {
            let q = quoted(device.as_str());
            list.push(concat3("mkswap ", q.as_str(), ""));
            list.push(concat3("swapon ", q.as_str(), ""));
        },
        Call::Mkdir(path) => {
            let q = quoted(path.as_str());
            list.push(concat3("mkdir -p ", q.as_str(), ""));
        },
        Call::Mount { device, path } => {
            let qd = quoted(device.as_str());
            let qp = quoted(path.as_str());
            let mut c = concat3("mount ", qd.as_str(), " ");
            c.append(qp.as_str());
            list.push(c);
        },
        Call::Fstab { device, path, fs } => {
            let tmp = stage_text(*fs);
            list.push(concat3("cp -p /etc/fstab ", tmp.as_str(), ""));
            list.push(fstab_append_text(device.as_str(), path.as_str(), *fs));
            list.push(concat3("mv ", tmp.as_str(), " /etc/fstab"));
        },
    }
    proof {
        reveal_strlit("");
    }
    assert(views(list@) =~= before + call_commands(*call)->Ok_0);
    Ok(())
}

/// Translates a plan into the shell commands that carry it out; the plan
/// may not run until it is confirmed.
pub fn exec_provision(draft: Draft) -> (r: Result<Exec, String>)
    ensures
        match exec_commands(draft.draft@) {
            Ok(c) => r matches Ok(x) && views(x.list@) == c && x.auto_confirm == draft.auto_confirm
                && x.warnings == draft.warnings && !x.is_allowed,
            Err(m) => r matches Err(e) && e@ == m,
        },
{
    let ghost calls = draft.draft@;
    let mut command_list: Vec<String> = Vec::new();
    let mut has_fstab_calls = false;
    let n = draft.draft.len();
    let mut i: usize = 0;
    assert(calls.take(0) =~= Seq::<Call>::empty());
    assert(views(command_list@) =~= Seq::<Seq<char>>::empty());
    while i < n
        invariant
            n == draft.draft.len(),
            calls == draft.draft@,
            i <= n,
            commands_scan(calls.take(i as int)) == Ok::<Seq<Seq<char>>, Seq<char>>(views(command_list@)),
            has_fstab_calls == has_fstab(calls.take(i as int)),
        decreases n - i,
    {
        let ghost pre = calls.take(i as int);
        let ghost nxt = calls.take(i + 1);
        assert(nxt.drop_last() =~= pre);
        assert(nxt.last() == calls[i as int]);
        let call = &draft.draft[i];
        match call_text(call, &mut command_list) {
            Ok(()) => {},
            Err(e) => {
                proof {
                    lemma_commands_prefix(calls, i + 1);
                }
                return Err(e);
            },
        }
        if let Call::Fstab { .. } = call {
            has_fstab_calls = true;
            assert(nxt[i as int] is Fstab);
        }
        assert(has_fstab_calls == has_fstab(nxt)) by {
            if has_fstab(nxt) && !(calls[i as int] is Fstab) {
                let k = choose|k: int| 0 <= k < nxt.len() && nxt[k] is Fstab;
                assert(pre[k] == nxt[k]);
            }
            if has_fstab(pre) {
                let k = choose|k: int| 0 <= k < pre.len() && pre[k] is Fstab;
                assert(nxt[k] == pre[k]);
            }
        }
        i = i + 1;
    }
    assert(calls.take(n as int) =~= calls);
    let list = if has_fstab_calls {
        let mut full: Vec<String> = Vec::new();
        full.push(String::from_str("cp -p /etc/fstab /etc/fstab.bak"));
        let ghost head = views(full@);
        let mut k: usize = 0;
        while k < command_list.len()
            invariant
                k <= command_list.len(),
                views(full@) == head + views(command_list@).take(k as int),
                head == seq![fstab_backup_command()],
            decreases command_list.len() - k,
        {
            let ghost before_full = views(full@);
            let item = command_list[k].clone();
            full.push(item);
            assert(views(full@) =~= before_full.push(command_list@[k as int]@));
            assert(views(command_list@).take(k + 1) =~= views(command_list@).take(k as int).push(
                command_list@[k as int]@,
            ));
            assert(views(full@) =~= head + views(command_list@).take(k + 1));
            k = k + 1;
        }
        assert(views(command_list@).take(command_list.len() as int) =~= views(command_list@));
        let ghost body = views(full@);
        full.push(String::from_str("systemctl daemon-reload"));
        assert(views(full@) =~= body + seq![daemon_reload_command()]);
        full
    } else {
        command_list
    };
    Ok(Exec { list, auto_confirm: draft.auto_confirm, is_allowed: false, warnings: draft.warnings })
}

proof fn lemma_commands_prefix(s: Seq<Call>, k: int)
    requires
        0 <= k <= s.len(),
        commands_scan(s.take(k)) is Err,
    ensures
        commands_scan(s) == commands_scan(s.take(k)),
    decreases s.len(),
{
    if k < s.len() {
        assert(s.drop_last().take(k) =~= s.take(k));
        lemma_commands_prefix(s.drop_last(), k);
    } else {
        assert(s.take(k) =~= s);
    }
}


/// The commands of call `k` stand together in the commands of the calls,
/// right after those of the calls before it.
proof fn lemma_commands_at(s: Seq<Call>, k: int)
    requires
        0 <= k < s.len(),
        commands_scan(s) is Ok,
    ensures
        call_commands(s[k]) is Ok,
        commands_scan(s.take(k)) is Ok,
        commands_scan(s.take(k))->Ok_0.len() + call_commands(s[k])->Ok_0.len() <= commands_scan(s)->Ok_0.len(),
        forall|t: int|
            0 <= t < call_commands(s[k])->Ok_0.len() ==> commands_scan(s)->Ok_0[commands_scan(s.take(k))->Ok_0.len() + t]
                == #[trigger] call_commands(s[k])->Ok_0[t],
    decreases s.len(),
{
    let p = s.drop_last();
    if k == s.len() - 1 {
        assert(s.take(k) =~= p);
    } else {
        lemma_commands_at(p, k);
        assert(p.take(k) =~= s.take(k));
        assert(p[k] == s[k]);
    }
}

/// Where the commands of the calls start in the full list.
pub open spec fn commands_offset(s: Seq<Call>) -> int {
    if has_fstab(s) {
        1
    } else {
        0
    }
}

/// `c` stands in `full` from position `j` on.
pub open spec fn placed_at(full: Seq<Seq<char>>, c: Seq<Seq<char>>, j: int) -> bool {
    &&& 0 <= j
    &&& j + c.len() <= full.len()
    &&& forall|t: int| 0 <= t < c.len() ==> full[j + t] == #[trigger] c[t]
}

proof fn lemma_exec_at(s: Seq<Call>, k: int) -> (j: int)
    requires
        0 <= k < s.len(),
        exec_commands(s) is Ok,
    ensures
        call_commands(s[k]) is Ok,
        placed_at(exec_commands(s)->Ok_0, call_commands(s[k])->Ok_0, j),
{
    lemma_commands_at(s, k);
    let j = commands_offset(s) + commands_scan(s.take(k))->Ok_0.len();
    let c = call_commands(s[k])->Ok_0;
    let all = commands_scan(s)->Ok_0;
    let full = exec_commands(s)->Ok_0;
    assert forall|t: int| 0 <= t < c.len() implies full[j + t] == #[trigger] c[t] by {
        assert(all[commands_scan(s.take(k))->Ok_0.len() + t] == c[t]);
    }
    j
}

/// When a plan edits `/etc/fstab`, its commands begin with a backup of the
/// file and end with a reload of the service manager.
pub proof fn lemma_fstab_framing(s: Seq<Call>)
    requires
        exec_commands(s) is Ok,
        has_fstab(s),
    ensures
        exec_commands(s)->Ok_0.len() >= 2,
        exec_commands(s)->Ok_0[0] == fstab_backup_command(),
        exec_commands(s)->Ok_0.last() == daemon_reload_command(),
{
}

/// Every `/etc/fstab` entry is written by copying the file to a staging
/// file, appending the entry there, and moving the staging file over the
/// original, as three consecutive commands.
pub proof fn lemma_fstab_staged(s: Seq<Call>, k: int)
    requires
        exec_commands(s) is Ok,
        0 <= k < s.len(),
        s[k] is Fstab,
    ensures
        exists|j: int|
            0 <= j && j + 3 <= exec_commands(s)->Ok_0.len() && #[trigger] exec_commands(s)->Ok_0[j] == fstab_stage_command(
                s[k]->Fstab_fs,
            ) && exec_commands(s)->Ok_0[j + 1] == fstab_append_command(
                s[k]->Fstab_device@,
                s[k]->Fstab_path@,
                s[k]->Fstab_fs,
            ) && exec_commands(s)->Ok_0[j + 2] == fstab_commit_command(s[k]->Fstab_fs),
{
    let j = lemma_exec_at(s, k);
    let c = call_commands(s[k])->Ok_0;
    let full = exec_commands(s)->Ok_0;
    assert(full[j] == c[0]);
    assert(full[j + 1] == c[1]);
    assert(full[j + 2] == c[2]);
}

/// Swap space is switched on right after it is made: every `mkswap` is
/// followed at once by the `swapon` of the same device.
pub proof fn lemma_swap_paired(s: Seq<Call>, k: int)
    requires
        exec_commands(s) is Ok,
        0 <= k < s.len(),
        s[k] is MkSwap,
    ensures
        exists|j: int|
            0 <= j && j + 2 <= exec_commands(s)->Ok_0.len() && #[trigger] exec_commands(s)->Ok_0[j] == "mkswap "@
                + path_quoted(s[k]->MkSwap_0@) && exec_commands(s)->Ok_0[j + 1] == "swapon "@ + path_quoted(
                s[k]->MkSwap_0@,
            ),
{
    let j = lemma_exec_at(s, k);
    let c = call_commands(s[k])->Ok_0;
    let full = exec_commands(s)->Ok_0;
    assert(full[j] == c[0]);
    assert(full[j + 1] == c[1]);
}

/// Every volume group is created with its extent size given in exact bytes.
pub proof fn lemma_vgcreate_exact(s: Seq<Call>, k: int)
    requires
        exec_commands(s) is Ok,
        0 <= k < s.len(),
        s[k] is VgCreate,
    ensures
        size_bytes(s[k]->VgCreate_pe_size) is Some,
        exists|j: int|
            0 <= j < exec_commands(s)->Ok_0.len() && #[trigger] exec_commands(s)->Ok_0[j] == vgcreate_command(
                s[k]->VgCreate_name@,
                views(s[k]->VgCreate_pvs@),
                size_bytes(s[k]->VgCreate_pe_size).unwrap(),
            ),
{
    let j = lemma_exec_at(s, k);
    let c = call_commands(s[k])->Ok_0;
    let full = exec_commands(s)->Ok_0;
    assert(full[j] == c[0]);
}

/// Translation fails exactly when a volume group's extent size is not an
/// absolute size.
pub proof fn lemma_exec_refusal(s: Seq<Call>)
    ensures
        exec_commands(s) is Err <==> exists|k: int| 0 <= k < s.len() && (#[trigger] s[k] matches Call::VgCreate { pe_size, .. } && !pe_size.is_absolute()),
    decreases s.len(),
{
    if s.len() > 0 {
        let p = s.drop_last();
        lemma_exec_refusal(p);
        assert(forall|k: int| 0 <= k < p.len() ==> p[k] == s[k]);
        if commands_scan(s) is Err && commands_scan(p) is Ok {
            assert(s[s.len() - 1] == s.last());
        }
        if exists|k: int| 0 <= k < s.len() && (#[trigger] s[k] matches Call::VgCreate { pe_size, .. } && !pe_size.is_absolute()) {
            let k = choose|k: int| 0 <= k < s.len() && (#[trigger] s[k] matches Call::VgCreate { pe_size, .. } && !pe_size.is_absolute());
            if k < p.len() {
                assert(p[k] == s[k]);
            }
        }
    }
}

/// A command that makes swap space.
pub open spec fn is_mkswap_line(c: Seq<char>) -> bool {
    c.len() >= 7 && c.take(7) == "mkswap "@
}

/// Every `mkswap` line of `cs` is followed at once by the `swapon` of the
/// same device.
pub open spec fn swap_paired(cs: Seq<Seq<char>>) -> bool {
    forall|j: int|
        0 <= j < cs.len() && is_mkswap_line(#[trigger] cs[j]) ==> j + 1 < cs.len() && cs[j + 1] == "swapon "@
            + cs[j].skip(7)
}

/// Neither the backup of `/etc/fstab` nor the reload of the service
/// manager.
pub open spec fn frame_free(c: Seq<char>) -> bool {
    c != fstab_backup_command() && c != daemon_reload_command()
}

/// What the first characters of each command of a call rule out.
proof fn lemma_call_heads(c: Call)
    requires
        call_commands(c) is Ok,
    ensures
        forall|t: int|
            0 <= t < call_commands(c)->Ok_0.len() ==> {
                let e = #[trigger] call_commands(c)->Ok_0[t];
                &&& !(c is Fstab) ==> frame_free(e)
                &&& !(c is MkSwap) ==> !is_mkswap_line(e)
            },
        swap_paired(call_commands(c)->Ok_0),
{
    reveal_strlit("cp -p /etc/fstab /etc/fstab.bak");
    reveal_strlit("systemctl daemon-reload");
    reveal_strlit("mkswap ");
    reveal_strlit("swapon ");
    reveal_strlit("pvcreate -y ");
    reveal_strlit("vgcreate -s ");
    reveal_strlit("lvcreate -y -n ");
    reveal_strlit("mkfs -t ");
    reveal_strlit("mkdir -p ");
    reveal_strlit("mount ");
    reveal_strlit("cp -p /etc/fstab ");
    reveal_strlit("UUID=$(blkid -s UUID -o value ");
    reveal_strlit("mv ");
    let cs = call_commands(c)->Ok_0;
    let bk = fstab_backup_command();
    let rl = daemon_reload_command();
    let mk = "mkswap "@;
    assert(bk[0] == 'c' && rl[0] == 's' && rl[1] == 'y');
    assert(mk[0] == 'm' && mk[1] == 'k' && mk[2] == 's');
    assert forall|t: int| 0 <= t < cs.len() implies {
        let e = #[trigger] cs[t];
        &&& !(c is Fstab) ==> frame_free(e)
        &&& !(c is MkSwap) ==> !is_mkswap_line(e)
    } by {
        let e = cs[t];
        if e.len() >= 7 && e.take(7) == mk {
            assert(e[0] == mk[0] && e[1] == mk[1] && e[2] == mk[2]);
        }
        if e == bk {
            assert(e[0] == 'c');
        }
        if e == rl {
            assert(e[0] == 's' && e[1] == 'y');
        }
        match c {
            Call::PvCreate(p) => {
                assert(e[0] == 'p');
            },
            Call::VgCreate { name, pvs, pe_size } => {
                assert(e[0] == 'v');
            },
            Call::LvCreate { vg, name, size } => {
                assert(e[0] == 'l');
            },
            Call::Mkfs { device, fs } => {
                assert(e[0] == 'm' && e[2] == 'f');
            },
            Call::MkSwap(d) => {
                assert(e[0] == 'm' || e[1] == 'w');
            },
            Call::Mkdir(p) => {
                assert(e[0] == 'm' && e[2] == 'd');
            },
            Call::Mount { device, path } => {
                assert(e[0] == 'm' && e[1] == 'o');
            },
            Call::Fstab { device, path, fs } => {
                if t == 0 {
                    assert(e[0] == 'c');
                } else if t == 1 {
                    assert(e[0] == 'U');
                } else {
                    assert(e[0] == 'm' && e[1] == 'v');
                }
            },
        }
    }
    if let Call::MkSwap(d) = c {
        let q = path_quoted(d@);
        assert((mk + q).take(7) =~= mk);
        assert((mk + q).skip(7) =~= q);
        let sw = "swapon "@;
        assert(sw[1] == 'w');
        if is_mkswap_line(cs[1]) {
            assert(cs[1][1] == mk[1]);
        }
    }
}

proof fn lemma_swap_paired_concat(a: Seq<Seq<char>>, b: Seq<Seq<char>>)
    requires
        swap_paired(a),
        swap_paired(b),
    ensures
        swap_paired(a + b),
{
    let c = a + b;
    assert forall|j: int| 0 <= j < c.len() && is_mkswap_line(#[trigger] c[j]) implies j + 1 < c.len() && c[j + 1]
        == "swapon "@ + c[j].skip(7) by {
        if j < a.len() {
            assert(c[j] == a[j]);
            assert(c[j + 1] == a[j + 1]);
        } else {
            assert(c[j] == b[j - a.len()]);
            assert(c[j + 1] == b[j + 1 - a.len()]);
        }
    }
}

proof fn lemma_scan_heads(s: Seq<Call>)
    requires
        commands_scan(s) is Ok,
    ensures
        swap_paired(commands_scan(s)->Ok_0),
        !has_fstab(s) ==> forall|j: int|
            0 <= j < commands_scan(s)->Ok_0.len() ==> frame_free(#[trigger] commands_scan(s)->Ok_0[j]),
    decreases s.len(),
{
    if s.len() > 0 {
        let p = s.drop_last();
        assert(forall|k: int| 0 <= k < p.len() ==> p[k] == s[k]);
        if has_fstab(p) {
            let k = choose|k: int| 0 <= k < p.len() && p[k] is Fstab;
            assert(s[k] is Fstab);
        }
        lemma_scan_heads(p);
        let a = commands_scan(p)->Ok_0;
        let b = call_commands(s.last())->Ok_0;
        lemma_call_heads(s.last());
        lemma_swap_paired_concat(a, b);
        if !has_fstab(s) {
            assert(!(s[s.len() - 1] is Fstab));
            assert forall|j: int| 0 <= j < (a + b).len() implies frame_free(#[trigger] (a + b)[j]) by {
                if j >= a.len() {
                    assert((a + b)[j] == b[j - a.len()]);
                }
            }
        }
    } else {
        assert(commands_scan(s)->Ok_0 =~= Seq::<Seq<char>>::empty());
    }
}

/// Every line that makes swap space is followed at once by the line that
/// switches the same device on.
pub proof fn lemma_swap_lines_paired(s: Seq<Call>)
    requires
        exec_commands(s) is Ok,
    ensures
        swap_paired(exec_commands(s)->Ok_0),
{
    lemma_scan_heads(s);
    let c = commands_scan(s)->Ok_0;
    if has_fstab(s) {
        reveal_strlit("cp -p /etc/fstab /etc/fstab.bak");
        reveal_strlit("systemctl daemon-reload");
        reveal_strlit("mkswap ");
        let mk = "mkswap "@;
        let bk = seq![fstab_backup_command()];
        let rl = seq![daemon_reload_command()];
        assert(swap_paired(bk)) by {
            if is_mkswap_line(bk[0]) {
                assert(bk[0][0] == mk[0]);
            }
        }
        assert(swap_paired(rl)) by {
            if is_mkswap_line(rl[0]) {
                assert(rl[0][1] == mk[1]);
            }
        }
        lemma_swap_paired_concat(bk, c);
        lemma_swap_paired_concat(bk + c, rl);
    }
}

/// A plan that edits no `/etc/fstab` entry neither backs the file up nor
/// reloads the service manager.
pub proof fn lemma_no_fstab_no_frame(s: Seq<Call>)
    requires
        exec_commands(s) is Ok,
        !has_fstab(s),
    ensures
        forall|j: int| 0 <= j < exec_commands(s)->Ok_0.len() ==> frame_free(#[trigger] exec_commands(s)->Ok_0[j]),
{
    lemma_scan_heads(s);
}

/// A plan without swap space and without `/etc/fstab` entries turns into
/// one command per call, in the order of the calls.
pub proof fn lemma_one_command_per_call(s: Seq<Call>)
    requires
        exec_commands(s) is Ok,
        forall|i: int| 0 <= i < s.len() ==> !(#[trigger] s[i] is MkSwap) && !(s[i] is Fstab),
    ensures
        exec_commands(s)->Ok_0.len() == s.len(),
        forall|i: int|
            0 <= i < s.len() ==> call_commands(#[trigger] s[i]) == Ok::<Seq<Seq<char>>, Seq<char>>(
                seq![exec_commands(s)->Ok_0[i]],
            ),
    decreases s.len(),
{
    if has_fstab(s) {
        let k = choose|k: int| 0 <= k < s.len() && s[k] is Fstab;
        assert(!(s[k] is Fstab));
    }
    if s.len() > 0 {
        let p = s.drop_last();
        assert(forall|i: int| 0 <= i < p.len() ==> p[i] == s[i]);
        assert(!(s[s.len() - 1] is MkSwap) && !(s[s.len() - 1] is Fstab));
        if has_fstab(p) {
            let k = choose|k: int| 0 <= k < p.len() && p[k] is Fstab;
            assert(s[k] is Fstab);
        }
        lemma_one_command_per_call(p);
        let a = commands_scan(p)->Ok_0;
        let b = call_commands(s.last())->Ok_0;
        assert(b.len() == 1);
        assert forall|i: int| 0 <= i < s.len() implies call_commands(#[trigger] s[i]) == Ok::<Seq<Seq<char>>, Seq<char>>(
            seq![exec_commands(s)->Ok_0[i]],
        ) by {
            if i < p.len() {
                assert(p[i] == s[i]);
                assert((a + b)[i] == a[i]);
            } else {
                assert((a + b)[i] == b[0]);
                assert(b =~= seq![b[0]]);
            }
        }
    }
}

/// A logical volume sized as a percentage is created with `-l` and the
/// percentage of its own target: `FREE`, `VG` or `PVS`. The text after
/// `-l` is the one that the size parser reads back as the request's size.
pub proof fn lemma_lvcreate_percentage(s: Seq<Call>, k: int)
    requires
        exec_commands(s) is Ok,
        0 <= k < s.len(),
        s[k] is LvCreate,
        s[k]->LvCreate_size is Percentage,
    ensures
        ({
            let p = s[k]->LvCreate_size->Percentage_0;
            let tg = s[k]->LvCreate_size->Percentage_1;
            let arg = decimal(p.value() as nat) + "%"@ + match tg {
                PercentTarget::Free => "FREE"@,
                PercentTarget::Vg => "VG"@,
                PercentTarget::Pvs => "PVS"@,
            };
            &&& exists|j: int|
                0 <= j < exec_commands(s)->Ok_0.len() && #[trigger] exec_commands(s)->Ok_0[j] == "lvcreate -y -n "@
                    + s[k]->LvCreate_name@ + " -l "@ + arg + " "@ + s[k]->LvCreate_vg@
            &&& s[k]->LvCreate_size.wf() ==> size_parse_text(arg) == Ok::<SizeUnit, Seq<char>>(s[k]->LvCreate_size)
        }),
{
    let j = lemma_exec_at(s, k);
    let c = call_commands(s[k])->Ok_0;
    let full = exec_commands(s)->Ok_0;
    assert(full[j] == c[0]);
    let size = s[k]->LvCreate_size;
    let p = size->Percentage_0;
    let tg = size->Percentage_1;
    let name = s[k]->LvCreate_name@;
    let vg = s[k]->LvCreate_vg@;
    assert(c[0] == lvcreate_command(vg, name, size));
    assert(lvcreate_command(vg, name, size) =~= "lvcreate -y -n "@ + name + " -l "@ + (decimal(p.value() as nat)
        + "%"@ + target_suffix(tg)) + " "@ + vg);
    if size.wf() {
        lemma_size_text_roundtrip(size);
        assert(size_text(size) =~= decimal(p.value() as nat) + "%"@ + target_suffix(tg));
    }
}

/// The commands of a call stand at position `j` of `full`: the shell text
/// that carries the call out.
pub open spec fn commands_at(full: Seq<Seq<char>>, j: int, c: Call) -> bool {
    &&& 0 <= j < full.len()
    &&& match c {
        Call::PvCreate(p) => full[j] == "pvcreate -y "@ + path_quoted(p@),
        Call::VgCreate { name, pvs, pe_size } => size_bytes(pe_size) is Some && full[j] == "vgcreate -s "@
            + decimal(size_bytes(pe_size).unwrap()) + "B "@ + name@ + " "@ + join_spaced(
            views(pvs@).map_values(|x: Seq<char>| path_quoted(x)),
        ),
        Call::LvCreate { vg, name, size } => match size {
            SizeUnit::Extents(e) => full[j] == "lvcreate -y -n "@ + name@ + " -l "@ + decimal(e as nat) + " "@ + vg@,
            SizeUnit::Percentage(_, _) => true,
            _ => full[j] == "lvcreate -y -n "@ + name@ + " -L "@ + decimal(size_bytes(size).unwrap()) + "B "@ + vg@,
        },
        Call::Mkfs { device, fs } => full[j] == "mkfs -t "@ + fs_name(fs) + " "@ + path_quoted(device@),
        Call::MkSwap(d) => j + 1 < full.len() && full[j] == "mkswap "@ + path_quoted(d@) && full[j + 1] == "swapon "@
            + path_quoted(d@),
        Call::Mkdir(p) => full[j] == "mkdir -p "@ + path_quoted(p@),
        Call::Mount { device, path } => full[j] == "mount "@ + path_quoted(device@) + " "@ + path_quoted(path@),
        Call::Fstab { device, path, fs } => j + 2 < full.len() && full[j] == "cp -p /etc/fstab /etc/fstab."@
            + fs_name(fs) + ".tmp"@ && full[j + 1] == fstab_append_command(device@, path@, fs) && full[j + 2]
            == "mv /etc/fstab."@ + fs_name(fs) + ".tmp /etc/fstab"@,
    }
}

/// Every call of a translated plan stands in the command list as the shell
/// text that carries it out: `pvcreate -y`, `vgcreate -s` with the extent
/// size in bytes, `lvcreate -l` with extents or `-L` with bytes, `mkfs -t`
/// with the filesystem's name, `mkswap` then `swapon`, `mkdir -p`,
/// `mount`, and the staged `/etc/fstab` edit.
pub proof fn lemma_command_texts(s: Seq<Call>, k: int)
    requires
        exec_commands(s) is Ok,
        0 <= k < s.len(),
    ensures
        exists|j: int| commands_at(exec_commands(s)->Ok_0, j, #[trigger] s[k]),
{
    reveal_strlit("/etc/fstab.");
    reveal_strlit(".tmp");
    reveal_strlit(".tmp /etc/fstab");
    reveal_strlit(" /etc/fstab");
    reveal_strlit("cp -p /etc/fstab ");
    reveal_strlit("cp -p /etc/fstab /etc/fstab.");
    reveal_strlit("mv ");
    reveal_strlit("mv /etc/fstab.");
    let j = lemma_exec_at(s, k);
    let c = call_commands(s[k])->Ok_0;
    let full = exec_commands(s)->Ok_0;
    assert(full[j] == c[0]);
    match s[k] {
        Call::VgCreate { name, pvs, pe_size } => {
            assert(quoted_all(views(pvs@)) =~= views(pvs@).map_values(|x: Seq<char>| path_quoted(x)));
        },
        Call::MkSwap(d) => {
            assert(full[j + 1] == c[1]);
        },
        Call::Fstab { device, path, fs } => {
            assert(full[j + 1] == c[1]);
            assert(full[j + 2] == c[2]);
            assert(fstab_stage_command(fs) =~= "cp -p /etc/fstab /etc/fstab."@ + fs_name(fs) + ".tmp"@);
            assert(fstab_commit_command(fs) =~= "mv /etc/fstab."@ + fs_name(fs) + ".tmp /etc/fstab"@);
        },
        _ => {},
    }
    assert(commands_at(full, j, s[k]));
}

pub open spec fn aborted_message() -> Seq<char> {
    "Execution aborted by user."@
}

/// The reply that confirms a plan: `y` or `Y`, once surrounding white
/// space is removed; anything else, the empty reply included, declines.
pub open spec fn is_confirmation(reply: Seq<char>) -> bool {
    trim_model(reply) == "y"@ || trim_model(reply) == "Y"@
}

/// Decides whether a plan may run: at once when it runs without asking,
/// otherwise only on the user's reply `y` or `Y`; `reply` is what the user typed,
/// none when the question was not asked.
pub fn confirm_execution(exec: &mut Exec, reply: Option<&str>) -> (r: Result<(), String>)
    ensures
        final(exec).list == old(exec).list,
        final(exec).auto_confirm == old(exec).auto_confirm,
        final(exec).warnings == old(exec).warnings,
        old(exec).auto_confirm ==> r is Ok && final(exec).is_allowed,
        !old(exec).auto_confirm ==> if (reply matches Some(t) && is_confirmation(t@)) {
            r is Ok && final(exec).is_allowed
        } else {
            (r matches Err(e) && e@ == aborted_message()) && !final(exec).is_allowed
        },
{
    if exec.auto_confirm {
        exec.is_allowed = true;
        return Ok(());
    }
    let confirmed = match reply {
        Some(t) => {
            let a = trim_text(t);
            text_eq(a, "y") || text_eq(a, "Y")
        },
        None => false,
    };
    if confirmed {
        exec.is_allowed = true;
        Ok(())
    } else {
        exec.is_allowed = false;
        Err(String::from_str("Execution aborted by user."))
    }
}

pub open spec fn unauthorized_message() -> Seq<char> {
    "Security Error: Attempted to apply an unauthorized execution plan."@
}

/// Refuses to apply a plan that has not been confirmed.
pub fn authorize_apply(exec: &Exec) -> (r: Result<(), String>)
    ensures
        r is Ok <==> exec.is_allowed,
        r matches Err(e) ==> e@ == unauthorized_message(),
{
    if !exec.is_allowed {
        return Err(String::from_str("Security Error: Attempted to apply an unauthorized execution plan."));
    }
    Ok(())
}

/// A signed integer in decimal.
pub open spec fn signed_decimal(c: int) -> Seq<char> {
    if c < 0 {
        "-"@ + decimal((-c) as nat)
    } else {
        decimal(c as nat)
    }
}

/// The `Debug` text of an optional exit code.
pub open spec fn exit_code_text(code: Option<i32>) -> Seq<char> {
    match code {
        Some(c) => "Some("@ + signed_decimal(c as int) + ")"@,
        None => "None"@,
    }
}

pub open spec fn command_failed_message(code: Option<i32>) -> Seq<char> {
    "Command failed with exit code: "@ + exit_code_text(code)
}

/// What one executed command means for the run: it goes on after a
/// success and stops, with the exit code, after a failure.
pub fn command_outcome(succeeded: bool, code: Option<i32>) -> (r: Result<(), String>)
    ensures
        succeeded ==> r is Ok,
        !succeeded ==> (r matches Err(e) && e@ == command_failed_message(code)),
{
    if succeeded {
        return Ok(());
    }
    let text = match code {
        Some(c) => {
            let mag: i64 = c as i64;
            let d = if mag < 0 {
                let m = decimal_text((-mag) as u128);
                concat3("-", m.as_str(), "")
            } else {
                decimal_text(mag as u128)
            };
            proof {
                reveal_strlit("");
            }
            assert(d@ == signed_decimal(c as int));
            concat3("Some(", d.as_str(), ")")
        },
        None => String::from_str("None"),
    };
    failure_text("Command failed with exit code: ", text.as_str())
}

fn failure_text(a: &str, b: &str) -> (r: Result<(), String>)
    ensures
        r matches Err(e) && e@ == a@ + b@,
{
    let mut e = String::from_str(a);
    e.append(b);
    Err(e)
}

} // verus!
