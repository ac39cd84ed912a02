//! Verification of a draft against a snapshot of the system: whether its
//! work is already done, whether it is safe, and whether it fits.

use vstd::prelude::*;
use crate::state::{NameSet, PairSet, SystemState};
use crate::text::{concat3, path_quoted, decimal, decimal_text, quoted, text_eq, views};
use crate::types::{Call, Draft, DraftStatus, PercentTarget, SizeUnit, size_bytes, to_bytes_spec};

verus! {

// ---------------------------------------------------------------------
// Idempotency: how much of the draft the system already reflects.

/// A call whose effect the system already shows.
pub open spec fn call_matched(c: Call, st: SystemState) -> bool {
    match c {
        Call::PvCreate(p) => st.pvs@.contains(p@),
        Call::VgCreate { name, .. } => st.vgs@.contains(name@),
        Call::LvCreate { vg, name, .. } => st.lvs@.contains((vg@, name@)),
        Call::Mount { path, .. } => st.mounts@.contains(path@),
        Call::Fstab { device, path, .. } => st.fstabs@.contains((device@, path@)),
        Call::MkSwap(d) => st.swaps@.contains(d@),
        _ => false,
    }
}

/// A preparatory call (format, directory) whose result already exists and
/// so is no work left.
pub open spec fn call_prepared(c: Call, st: SystemState) -> bool {
    match c {
        Call::Mkfs { device, .. } => st.filesystems@.contains(device@),
        Call::Mkdir(p) => st.paths_exist@.contains(p@),
        _ => false,
    }
}

pub open spec fn count_matched(s: Seq<Call>, st: SystemState) -> nat
    decreases s.len(),
{
    if s.len() == 0 {
        0
    } else {
        count_matched(s.drop_last(), st) + if call_matched(s.last(), st) {
            1nat
        } else {
            0nat
        }
    }
}

pub open spec fn count_prepared(s: Seq<Call>, st: SystemState) -> nat
    decreases s.len(),
{
    if s.len() == 0 {
        0
    } else {
        count_prepared(s.drop_last(), st) + if call_prepared(s.last(), st) {
            1nat
        } else {
            0nat
        }
    }
}

/// `Done` when every call still counted is matched, `Clean` when none is,
/// `Dirty` in between.
pub open spec fn done_status(s: Seq<Call>, st: SystemState) -> DraftStatus {
    let m = count_matched(s, st);
    let t = s.len() - count_prepared(s, st);
    if m == t {
        DraftStatus::Done
    } else if m == 0 {
        DraftStatus::Clean
    } else {
        DraftStatus::Dirty
    }
}

pub open spec fn dirty_message() -> Seq<char> {
    "Draft is in a dirty/partial state."@
}

proof fn lemma_counts_bounded(s: Seq<Call>, st: SystemState)
    ensures
        count_matched(s, st) + count_prepared(s, st) <= s.len(),
    decreases s.len(),
{
    if s.len() > 0 {
        lemma_counts_bounded(s.drop_last(), st);
    }
}

proof fn lemma_counts_all(s: Seq<Call>, st: SystemState)
    requires
        forall|i: int| 0 <= i < s.len() ==> call_matched(#[trigger] s[i], st) || call_prepared(s[i], st),
    ensures
        count_matched(s, st) + count_prepared(s, st) == s.len(),
    decreases s.len(),
{
    if s.len() > 0 {
        let p = s.drop_last();
        assert(forall|i: int| 0 <= i < p.len() ==> p[i] == s[i]);
        lemma_counts_all(p, st);
        assert(s[s.len() - 1] == s.last());
    }
}

proof fn lemma_counts_some_matched(s: Seq<Call>, st: SystemState, k: int)
    requires
        0 <= k < s.len(),
        call_matched(s[k], st),
    ensures
        count_matched(s, st) >= 1,
    decreases s.len(),
{
    let p = s.drop_last();
    if k < p.len() {
        assert(p[k] == s[k]);
        lemma_counts_some_matched(p, st, k);
    }
}

proof fn lemma_counts_some_neither(s: Seq<Call>, st: SystemState, k: int)
    requires
        0 <= k < s.len(),
        !call_matched(s[k], st),
        !call_prepared(s[k], st),
    ensures
        count_matched(s, st) + count_prepared(s, st) < s.len(),
    decreases s.len(),
{
    let p = s.drop_last();
    lemma_counts_bounded(p, st);
    if k < p.len() {
        assert(p[k] == s[k]);
        lemma_counts_some_neither(p, st, k);
    }
}

/// When the system already shows the effect of every call (for a format
/// or a directory, its result), the draft is done and nothing will run.
pub proof fn lemma_done_when_reflected(s: Seq<Call>, st: SystemState)
    requires
        forall|i: int| 0 <= i < s.len() ==> call_matched(#[trigger] s[i], st) || call_prepared(s[i], st),
    ensures
        done_status(s, st) == DraftStatus::Done,
{
    lemma_counts_all(s, st);
}

/// The system shows the result of a call: the physical volume, the volume
/// group, the logical volume, the mount, the `/etc/fstab` entry, the active
/// swap, the filesystem or the directory it would make.
pub open spec fn result_shown(c: Call, st: SystemState) -> bool {
    match c {
        Call::PvCreate(p) => st.pvs@.contains(p@),
        Call::VgCreate { name, .. } => st.vgs@.contains(name@),
        Call::LvCreate { vg, name, .. } => st.lvs@.contains((vg@, name@)),
        Call::Mount { path, .. } => st.mounts@.contains(path@),
        Call::Fstab { device, path, .. } => st.fstabs@.contains((device@, path@)),
        Call::MkSwap(d) => st.swaps@.contains(d@),
        Call::Mkfs { device, .. } => st.filesystems@.contains(device@),
        Call::Mkdir(p) => st.paths_exist@.contains(p@),
    }
}

/// When the system shows every call's result, the draft is done:
/// `verify_done` marks it `Done` and succeeds.
pub proof fn lemma_done_when_all_shown(s: Seq<Call>, st: SystemState)
    requires
        forall|i: int| 0 <= i < s.len() ==> result_shown(#[trigger] s[i], st),
    ensures
        done_status(s, st) == DraftStatus::Done,
{
    assert forall|i: int| 0 <= i < s.len() implies call_matched(#[trigger] s[i], st) || call_prepared(s[i], st) by {
        assert(result_shown(s[i], st));
    }
    lemma_counts_all(s, st);
}

/// When the system shows the result of some call that is more than a
/// format or a directory, and not the result of another call, the draft is
/// half done: `verify_done` marks it `Dirty` and refuses it.
pub proof fn lemma_dirty_when_partly_shown(s: Seq<Call>, st: SystemState, done: int, missing: int)
    requires
        0 <= done < s.len(),
        0 <= missing < s.len(),
        result_shown(s[done], st),
        !(s[done] is Mkfs) && !(s[done] is Mkdir),
        !result_shown(s[missing], st),
    ensures
        done_status(s, st) == DraftStatus::Dirty,
{
    lemma_dirty_when_partial(s, st, done, missing);
}

/// Against a system that shows none of a non-empty draft, the draft is
/// clean.
pub proof fn lemma_clean_when_untouched(s: Seq<Call>, st: SystemState)
    requires
        st.is_empty(),
        s.len() > 0,
    ensures
        done_status(s, st) == DraftStatus::Clean,
    decreases s.len(),
{
    assert(forall|i: int| 0 <= i < s.len() ==> !call_matched(#[trigger] s[i], st) && !call_prepared(s[i], st));
    lemma_counts_some_neither(s, st, 0);
    lemma_counts_none(s, st);
}

proof fn lemma_counts_none(s: Seq<Call>, st: SystemState)
    requires
        forall|i: int| 0 <= i < s.len() ==> !call_matched(#[trigger] s[i], st),
    ensures
        count_matched(s, st) == 0,
    decreases s.len(),
{
    if s.len() > 0 {
        let p = s.drop_last();
        assert(forall|i: int| 0 <= i < p.len() ==> p[i] == s[i]);
        lemma_counts_none(p, st);
        assert(s[s.len() - 1] == s.last());
    }
}

/// A draft that the system shows in part, with some call shown and some
/// real work missing, is dirty: it is refused, not resumed.
pub proof fn lemma_dirty_when_partial(s: Seq<Call>, st: SystemState, done: int, missing: int)
    requires
        0 <= done < s.len(),
        0 <= missing < s.len(),
        call_matched(s[done], st),
        !call_matched(s[missing], st),
        !call_prepared(s[missing], st),
    ensures
        done_status(s, st) == DraftStatus::Dirty,
{
    lemma_counts_some_matched(s, st, done);
    lemma_counts_some_neither(s, st, missing);
}

/// The draft, apart from its status and warnings, is left as it was.
pub open spec fn same_plan(a: Draft, b: Draft) -> bool {
    &&& a.draft == b.draft
    &&& a.auto_confirm == b.auto_confirm
    &&& a.draft_type == b.draft_type
}

/// The classification of the calls against the system.
pub fn done_status_of(calls: &Vec<Call>, state: &SystemState) -> (r: DraftStatus)
    ensures
        r == done_status(calls@, *state),
{
    let n = calls.len();
    let mut matched_calls: usize = 0;
    let mut total_calls: usize = n;
    let mut i: usize = 0;
    while i < n
        invariant
            n == calls.len(),
            i <= n,
            matched_calls == count_matched(calls@.take(i as int), *state),
            total_calls == n - count_prepared(calls@.take(i as int), *state),
            count_matched(calls@.take(i as int), *state) + count_prepared(calls@.take(i as int), *state) <= i,
        decreases n - i,
    {
        let ghost pre = calls@.take(i as int);
        let ghost nxt = calls@.take(i + 1);
        assert(nxt.drop_last() =~= pre);
        assert(nxt.last() == calls@[i as int]);
        match &calls[i] {
            Call::PvCreate(path) => {
                if state.pvs.contains(path.as_str()) {
                    matched_calls += 1;
                }
            },
            Call::VgCreate { name, .. } => {
                if state.vgs.contains(name.as_str()) {
                    matched_calls += 1;
                }
            },
            Call::LvCreate { vg, name, .. } => {
                if state.lvs.contains(vg.as_str(), name.as_str()) {
                    matched_calls += 1;
                }
            },
            Call::Mount { path, .. } => {
                if state.mounts.contains(path.as_str()) {
                    matched_calls += 1;
                }
            },
            Call::Fstab { device, path, .. } => {
                if state.fstabs.contains(device.as_str(), path.as_str()) {
                    matched_calls += 1;
                }
            },
            Call::MkSwap(device) => {
                if state.swaps.contains(device.as_str()) {
                    matched_calls += 1;
                }
            },
            Call::Mkfs { device, .. } => {
                if state.filesystems.contains(device.as_str()) {
                    total_calls -= 1;
                }
            },
            Call::Mkdir(path) => {
                if state.paths_exist.contains(path.as_str()) {
                    total_calls -= 1;
                }
            },
        }
        i = i + 1;
    }
    assert(calls@.take(n as int) =~= calls@);
    if matched_calls == total_calls {
        DraftStatus::Done
    } else if matched_calls == 0 {
        DraftStatus::Clean
    } else {
        DraftStatus::Dirty
    }
}

/// Classifies the draft as `Done`, `Clean` or `Dirty` against the system;
/// `Dirty` is refused.
pub fn verify_done(draft: &mut Draft, state: &SystemState) -> (r: Result<(), String>)
    ensures
        same_plan(*final(draft), *old(draft)),
        final(draft).warnings == old(draft).warnings,
        final(draft).status == done_status(old(draft).draft@, *state),
        r is Err <==> final(draft).status == DraftStatus::Dirty,
        r matches Err(e) ==> e@ == dirty_message(),
{
    let status = done_status_of(&draft.draft, state);
    draft.status = status;
    match status {
        DraftStatus::Dirty => Err(String::from_str("Draft is in a dirty/partial state.")),
        _ => Ok(()),
    }
}

// ---------------------------------------------------------------------
// Safety: devices that are about to become physical volumes.

pub open spec fn full_disk_warning(p: Seq<char>) -> Seq<char> {
    "Targeting full disk "@ + path_quoted(p) + " (not a partition)..."@
}

pub open spec fn signature_warning(p: Seq<char>) -> Seq<char> {
    "Device "@ + path_quoted(p) + " contains an existing signature..."@
}

pub open spec fn fstab_critical_message(p: Seq<char>) -> Seq<char> {
    "CRITICAL: Device "@ + path_quoted(p) + " referenced in fstab!"@
}

/// A device holding a filesystem signature that `/etc/fstab` refers to:
/// turning it into a physical volume would break the boot.
pub open spec fn pv_critical(c: Call, st: SystemState) -> bool {
    c matches Call::PvCreate(p) && st.filesystems@.contains(p@) && st.fstab_device_refs@.contains(p@)
}

/// The warnings one call raises, and the refusal it causes if any.
pub open spec fn safety_step(c: Call, st: SystemState) -> (Seq<Seq<char>>, Option<Seq<char>>) {
    match c {
        Call::PvCreate(p) => {
            let w1 = if st.is_full_disk@.contains(p@) {
                seq![full_disk_warning(p@)]
            } else {
                Seq::<Seq<char>>::empty()
            };
            if st.filesystems@.contains(p@) {
                if st.fstab_device_refs@.contains(p@) {
                    (w1, Some(fstab_critical_message(p@)))
                } else {
                    (w1.push(signature_warning(p@)), None)
                }
            } else {
                (w1, None)
            }
        },
        _ => (Seq::<Seq<char>>::empty(), None),
    }
}

/// The warnings raised over the calls in order, up to and including the
/// first refusal, and that refusal.
pub open spec fn safety_scan(s: Seq<Call>, st: SystemState) -> (Seq<Seq<char>>, Option<Seq<char>>)
    decreases s.len(),
{
    if s.len() == 0 {
        (Seq::<Seq<char>>::empty(), None)
    } else {
        let (w, e) = safety_scan(s.drop_last(), st);
        if e is Some {
            (w, e)
        } else {
            let (w2, e2) = safety_step(s.last(), st);
            (w + w2, e2)
        }
    }
}

/// Refuses a draft that would turn a device referenced in `/etc/fstab`
/// into a physical volume, and warns of full disks and of existing
/// signatures.
pub fn verify_safety(draft: &mut Draft, state: &SystemState) -> (r: Result<(), String>)
    ensures
        same_plan(*final(draft), *old(draft)),
        views(final(draft).warnings@) == views(old(draft).warnings@) + safety_scan(
            old(draft).draft@,
            *state,
        ).0,
        match safety_scan(old(draft).draft@, *state).1 {
            Some(m) => (r matches Err(e) && e@ == m) && final(draft).status == DraftStatus::Dirty,
            None => r is Ok && final(draft).status == old(draft).status,
        },
{
    let n = draft.draft.len();
    let mut i: usize = 0;
    assert(views(draft.warnings@) =~= views(old(draft).warnings@) + Seq::<Seq<char>>::empty());
    while i < n
        invariant
            n == draft.draft.len(),
            i <= n,
            same_plan(*draft, *old(draft)),
            draft.status == old(draft).status,
            views(draft.warnings@) == views(old(draft).warnings@) + safety_scan(
                draft.draft@.take(i as int),
                *state,
            ).0,
            safety_scan(draft.draft@.take(i as int), *state).1 is None,
        decreases n - i,
    {
        let ghost pre = draft.draft@.take(i as int);
        let ghost nxt = draft.draft@.take(i + 1);
        assert(nxt.drop_last() =~= pre);
        assert(nxt.last() == draft.draft@[i as int]);
        let ghost w0 = views(draft.warnings@);
        if let Call::PvCreate(path) = &draft.draft[i] {
            let q = quoted(path.as_str());
            if state.is_full_disk.contains(path.as_str()) {
                let w = concat3("Targeting full disk ", q.as_str(), " (not a partition)...");
                draft.warnings.push(w);
                assert(views(draft.warnings@) =~= w0.push(w@));
            }
            let ghost w1 = views(draft.warnings@);
            if state.filesystems.contains(path.as_str()) {
                if state.fstab_device_refs.contains(path.as_str()) {
                    draft.status = DraftStatus::Dirty;
                    let e = concat3("CRITICAL: Device ", q.as_str(), " referenced in fstab!");
                    assert(views(draft.warnings@) =~= views(old(draft).warnings@) + safety_scan(nxt, *state).0);
                    assert(nxt =~= draft.draft@.take(i + 1));
                    proof {
                        lemma_safety_prefix(draft.draft@, i + 1, *state);
                    }
                    return Err(e);
                } else {
                    let w = concat3("Device ", q.as_str(), " contains an existing signature...");
                    draft.warnings.push(w);
                    assert(views(draft.warnings@) =~= w1.push(w@));
                }
            }
        }
        assert(views(draft.warnings@) =~= views(old(draft).warnings@) + safety_scan(nxt, *state).0);
        i = i + 1;
    }
    assert(draft.draft@.take(n as int) =~= draft.draft@);
    Ok(())
}

/// How the safety check takes one more call: after a refusal nothing
/// changes; a call that makes no physical volume changes nothing; a
/// physical volume on a whole disk adds the full-disk warning, one with a
/// filesystem signature adds the signature warning, unless `/etc/fstab`
/// refers to it, which refuses the draft.
pub proof fn lemma_safety_step(s: Seq<Call>, c: Call, st: SystemState)
    ensures
        safety_scan(s, st).1 is Some ==> safety_scan(s.push(c), st) == safety_scan(s, st),
        safety_scan(s, st).1 is None && !(c is PvCreate) ==> safety_scan(s.push(c), st) == safety_scan(s, st),
        safety_scan(s, st).1 is None && c is PvCreate ==> {
            let p = c->PvCreate_0@;
            let w = safety_scan(s, st).0;
            let w1 = if st.is_full_disk@.contains(p) {
                w.push("Targeting full disk "@ + path_quoted(p) + " (not a partition)..."@)
            } else {
                w
            };
            safety_scan(s.push(c), st) == if !st.filesystems@.contains(p) {
                (w1, None::<Seq<char>>)
            } else if st.fstab_device_refs@.contains(p) {
                (w1, Some("CRITICAL: Device "@ + path_quoted(p) + " referenced in fstab!"@))
            } else {
                (w1.push("Device "@ + path_quoted(p) + " contains an existing signature..."@), None::<Seq<char>>)
            }
        },
{
    assert(s.push(c).drop_last() =~= s);
    assert(s.push(c).last() == c);
    let w = safety_scan(s, st).0;
    if let Call::PvCreate(q) = c {
        let p = q@;
        if st.is_full_disk@.contains(p) {
            assert(w + seq![full_disk_warning(p)] =~= w.push(full_disk_warning(p)));
            assert(w + seq![full_disk_warning(p)].push(signature_warning(p)) =~= w.push(full_disk_warning(p)).push(
                signature_warning(p),
            ));
        } else {
            assert(w + Seq::<Seq<char>>::empty() =~= w);
            assert(w + Seq::<Seq<char>>::empty().push(signature_warning(p)) =~= w.push(signature_warning(p)));
        }
    } else {
        assert(w + Seq::<Seq<char>>::empty() =~= w);
    }
}

/// Once a prefix is refused, the whole is refused the same way.
proof fn lemma_safety_prefix(s: Seq<Call>, k: int, st: SystemState)
    requires
        0 <= k <= s.len(),
        safety_scan(s.take(k), st).1 is Some,
    ensures
        safety_scan(s, st) == safety_scan(s.take(k), st),
    decreases s.len(),
{
    if k < s.len() {
        assert(s.drop_last().take(k) =~= s.take(k));
        lemma_safety_prefix(s.drop_last(), k, st);
    } else {
        assert(s.take(k) =~= s);
    }
}

/// The draft is refused for safety exactly when one of its physical
/// volumes is a device with a filesystem signature that `/etc/fstab`
/// refers to.
pub proof fn lemma_safety_refusal(s: Seq<Call>, st: SystemState)
    ensures
        safety_scan(s, st).1 is Some <==> exists|i: int| 0 <= i < s.len() && pv_critical(#[trigger] s[i], st),
    decreases s.len(),
{
    if s.len() > 0 {
        let p = s.drop_last();
        lemma_safety_refusal(p, st);
        assert(forall|i: int| 0 <= i < p.len() ==> p[i] == s[i]);
        if exists|i: int| 0 <= i < s.len() && pv_critical(#[trigger] s[i], st) {
            let i = choose|i: int| 0 <= i < s.len() && pv_critical(#[trigger] s[i], st);
            if i < p.len() {
                assert(pv_critical(p[i], st));
            }
        }
    }
}

/// `verify_safety` refuses a draft exactly when it would make a physical
/// volume of a device that both carries a filesystem signature and is
/// referred to by `/etc/fstab`; the refusal names the first such device.
pub proof fn lemma_safety_refuses_exactly(s: Seq<Call>, st: SystemState)
    ensures
        safety_scan(s, st).1 is Some <==> exists|i: int|
            0 <= i < s.len() && #[trigger] s[i] is PvCreate && st.filesystems@.contains(s[i]->PvCreate_0@)
                && st.fstab_device_refs@.contains(s[i]->PvCreate_0@),
        safety_scan(s, st).1 is Some ==> exists|i: int|
            0 <= i < s.len() && #[trigger] s[i] is PvCreate && st.filesystems@.contains(s[i]->PvCreate_0@)
                && st.fstab_device_refs@.contains(s[i]->PvCreate_0@) && safety_scan(s, st).1 == Some(
                "CRITICAL: Device "@ + path_quoted(s[i]->PvCreate_0@) + " referenced in fstab!"@,
            ) && forall|j: int|
                0 <= j < i ==> !(#[trigger] s[j] is PvCreate && st.filesystems@.contains(s[j]->PvCreate_0@)
                    && st.fstab_device_refs@.contains(s[j]->PvCreate_0@)),
    decreases s.len(),
{
    lemma_safety_refusal(s, st);
    if exists|i: int| 0 <= i < s.len() && pv_critical(#[trigger] s[i], st) {
        let i = choose|i: int| 0 <= i < s.len() && pv_critical(#[trigger] s[i], st);
        assert(s[i] is PvCreate);
    }
    if exists|i: int|
        0 <= i < s.len() && #[trigger] s[i] is PvCreate && st.filesystems@.contains(s[i]->PvCreate_0@)
            && st.fstab_device_refs@.contains(s[i]->PvCreate_0@) {
        let i = choose|i: int|
            0 <= i < s.len() && #[trigger] s[i] is PvCreate && st.filesystems@.contains(s[i]->PvCreate_0@)
                && st.fstab_device_refs@.contains(s[i]->PvCreate_0@);
        assert(pv_critical(s[i], st));
    }
    if s.len() > 0 && safety_scan(s, st).1 is Some {
        let p = s.drop_last();
        assert(forall|k: int| 0 <= k < p.len() ==> p[k] == s[k]);
        if safety_scan(p, st).1 is Some {
            lemma_safety_refuses_exactly(p, st);
            let i = choose|i: int|
                0 <= i < p.len() && #[trigger] p[i] is PvCreate && st.filesystems@.contains(p[i]->PvCreate_0@)
                    && st.fstab_device_refs@.contains(p[i]->PvCreate_0@) && safety_scan(p, st).1 == Some(
                    "CRITICAL: Device "@ + path_quoted(p[i]->PvCreate_0@) + " referenced in fstab!"@,
                ) && forall|j: int|
                    0 <= j < i ==> !(#[trigger] p[j] is PvCreate && st.filesystems@.contains(p[j]->PvCreate_0@)
                        && st.fstab_device_refs@.contains(p[j]->PvCreate_0@));
            assert(s[i] == p[i]);
            assert forall|j: int| 0 <= j < i implies !(#[trigger] s[j] is PvCreate && st.filesystems@.contains(
                s[j]->PvCreate_0@,
            ) && st.fstab_device_refs@.contains(s[j]->PvCreate_0@)) by {
                assert(s[j] == p[j]);
            }
        } else {
            lemma_safety_refusal(p, st);
            let i = s.len() - 1;
            assert(s[i] == s.last());
            assert forall|j: int| 0 <= j < i implies !(#[trigger] s[j] is PvCreate && st.filesystems@.contains(
                s[j]->PvCreate_0@,
            ) && st.fstab_device_refs@.contains(s[j]->PvCreate_0@)) by {
                assert(s[j] == p[j]);
                if s[j] is PvCreate && st.filesystems@.contains(s[j]->PvCreate_0@) && st.fstab_device_refs@.contains(
                    s[j]->PvCreate_0@,
                ) {
                    assert(pv_critical(p[j], st));
                }
            }
        }
    }
}

// ---------------------------------------------------------------------
// Uniqueness: no device or logical volume declared twice.

/// The physical volume paths that the calls declare.
pub open spec fn pv_paths(s: Seq<Call>) -> Set<Seq<char>>
    decreases s.len(),
{
    if s.len() == 0 {
        Set::empty()
    } else {
        match s.last() {
            Call::PvCreate(p) => pv_paths(s.drop_last()).insert(p@),
            _ => pv_paths(s.drop_last()),
        }
    }
}

/// The (volume group, logical volume) pairs that the calls declare.
pub open spec fn lv_pairs(s: Seq<Call>) -> Set<(Seq<char>, Seq<char>)>
    decreases s.len(),
{
    if s.len() == 0 {
        Set::empty()
    } else {
        match s.last() {
            Call::LvCreate { vg, name, .. } => lv_pairs(s.drop_last()).insert((vg@, name@)),
            _ => lv_pairs(s.drop_last()),
        }
    }
}

pub open spec fn duplicate_pv_message(p: Seq<char>) -> Seq<char> {
    "Duplicate PV declaration: "@ + path_quoted(p)
}

pub open spec fn duplicate_lv_message(vg: Seq<char>, name: Seq<char>) -> Seq<char> {
    "Duplicate LV name '"@ + name + "' in VG '"@ + vg + "'"@
}

/// The refusal for the first call, in order, that repeats an earlier
/// declaration.
pub open spec fn uniq_scan(s: Seq<Call>) -> Option<Seq<char>>
    decreases s.len(),
{
    if s.len() == 0 {
        None
    } else {
        match uniq_scan(s.drop_last()) {
            Some(m) => Some(m),
            None => match s.last() {
                Call::PvCreate(p) => if pv_paths(s.drop_last()).contains(p@) {
                    Some(duplicate_pv_message(p@))
                } else {
                    None
                },
                Call::LvCreate { vg, name, .. } => if lv_pairs(s.drop_last()).contains(
                    (vg@, name@),
                ) {
                    Some(duplicate_lv_message(vg@, name@))
                } else {
                    None
                },
                _ => None,
            },
        }
    }
}

/// Two calls that declare the same physical volume or the same logical
/// volume of the same volume group.
pub open spec fn same_target(a: Call, b: Call) -> bool {
    match a {
        Call::PvCreate(p) => b matches Call::PvCreate(q) && p@ == q@,
        Call::LvCreate { vg, name, .. } => b matches Call::LvCreate { vg: v2, name: n2, .. } && vg@
            == v2@ && name@ == n2@,
        _ => false,
    }
}

/// No two calls declare the same target.
pub open spec fn calls_unique(s: Seq<Call>) -> bool {
    forall|i: int, j: int| 0 <= i < j < s.len() ==> !same_target(#[trigger] s[i], #[trigger] s[j])
}

pub open spec fn declares_pv(c: Call, x: Seq<char>) -> bool {
    c matches Call::PvCreate(p) && p@ == x
}

pub open spec fn declares_lv(c: Call, x: (Seq<char>, Seq<char>)) -> bool {
    c matches Call::LvCreate { vg, name, .. } && vg@ == x.0 && name@ == x.1
}

proof fn lemma_declared(s: Seq<Call>)
    ensures
        forall|x: Seq<char>| #[trigger] pv_paths(s).contains(x) <==> exists|i: int| 0 <= i < s.len() && declares_pv(#[trigger] s[i], x),
        forall|x: (Seq<char>, Seq<char>)| #[trigger] lv_pairs(s).contains(x) <==> exists|i: int| 0 <= i < s.len() && declares_lv(#[trigger] s[i], x),
    decreases s.len(),
{
    if s.len() > 0 {
        let p = s.drop_last();
        lemma_declared(p);
        assert(forall|i: int| 0 <= i < p.len() ==> p[i] == s[i]);
        assert forall|x: Seq<char>| #[trigger] pv_paths(s).contains(x) <==> exists|i: int| 0 <= i < s.len() && declares_pv(#[trigger] s[i], x) by {
            if exists|i: int| 0 <= i < s.len() && declares_pv(#[trigger] s[i], x) {
                let i = choose|i: int| 0 <= i < s.len() && declares_pv(#[trigger] s[i], x);
                if i < p.len() {
                    assert(declares_pv(p[i], x));
                    assert(pv_paths(p).contains(x));
                }
            }
            if pv_paths(s).contains(x) {
                if pv_paths(p).contains(x) {
                    let i = choose|i: int| 0 <= i < p.len() && declares_pv(#[trigger] p[i], x);
                    assert(declares_pv(s[i], x));
                } else {
                    assert(declares_pv(s[s.len() - 1], x));
                }
            }
        }
        assert forall|x: (Seq<char>, Seq<char>)| #[trigger] lv_pairs(s).contains(x) <==> exists|i: int| 0 <= i < s.len() && declares_lv(#[trigger] s[i], x) by {
            if exists|i: int| 0 <= i < s.len() && declares_lv(#[trigger] s[i], x) {
                let i = choose|i: int| 0 <= i < s.len() && declares_lv(#[trigger] s[i], x);
                if i < p.len() {
                    assert(declares_lv(p[i], x));
                    assert(lv_pairs(p).contains(x));
                }
            }
            if lv_pairs(s).contains(x) {
                if lv_pairs(p).contains(x) {
                    let i = choose|i: int| 0 <= i < p.len() && declares_lv(#[trigger] p[i], x);
                    assert(declares_lv(s[i], x));
                } else {
                    assert(declares_lv(s[s.len() - 1], x));
                }
            }
        }
    }
}

/// The uniqueness check passes exactly when no two calls declare the same
/// physical volume or the same logical volume of a volume group.
pub proof fn lemma_uniqueness(s: Seq<Call>)
    ensures
        uniq_scan(s) is None <==> calls_unique(s),
    decreases s.len(),
{
    if s.len() > 0 {
        let p = s.drop_last();
        let n = s.len() - 1;
        lemma_uniqueness(p);
        lemma_declared(p);
        assert(forall|i: int| 0 <= i < p.len() ==> p[i] == s[i]);
        if uniq_scan(s) is None {
            assert forall|i: int, j: int| 0 <= i < j < s.len() implies !same_target(#[trigger] s[i], #[trigger] s[j]) by {
                if j < n {
                    assert(p[i] == s[i] && p[j] == s[j]);
                } else {
                    assert(s[j] == s.last());
                    match s[j] {
                        Call::PvCreate(q) => {
                            if same_target(s[i], s[j]) {
                                assert(declares_pv(p[i], q@));
                                assert(pv_paths(p).contains(q@));
                            }
                        },
                        Call::LvCreate { vg, name, .. } => {
                            if same_target(s[i], s[j]) {
                                assert(declares_lv(p[i], (vg@, name@)));
                                assert(lv_pairs(p).contains((vg@, name@)));
                            }
                        },
                        _ => {},
                    }
                }
            }
        } else {
            if uniq_scan(p) is None {
                match s.last() {
                    Call::PvCreate(q) => {
                        let i = choose|i: int| 0 <= i < p.len() && declares_pv(#[trigger] p[i], q@);
                        assert(same_target(s[i], s[n as int]));
                    },
                    Call::LvCreate { vg, name, .. } => {
                        let i = choose|i: int| 0 <= i < p.len() && declares_lv(#[trigger] p[i], (vg@, name@));
                        assert(same_target(s[i], s[n as int]));
                    },
                    _ => {},
                }
            } else {
                assert(!calls_unique(p));
                let (i, j) = choose|i: int, j: int| 0 <= i < j < p.len() && same_target(#[trigger] p[i], #[trigger] p[j]);
                assert(same_target(s[i], s[j]));
            }
        }
    }
}

/// `verify_uniqueness` passes exactly when no device is declared a physical
/// volume twice and no logical volume name is declared twice in the same
/// volume group.
pub proof fn lemma_uniqueness_exactly(s: Seq<Call>)
    ensures
        uniq_scan(s) is None <==> forall|i: int, j: int|
            0 <= i < j < s.len() ==> !(#[trigger] s[i] is PvCreate && #[trigger] s[j] is PvCreate && s[i]->PvCreate_0@
                == s[j]->PvCreate_0@) && !(s[i] is LvCreate && s[j] is LvCreate && s[i]->LvCreate_vg@
                == s[j]->LvCreate_vg@ && s[i]->LvCreate_name@ == s[j]->LvCreate_name@),
{
    lemma_uniqueness(s);
    assert forall|i: int, j: int| 0 <= i < s.len() && 0 <= j < s.len() implies same_target(#[trigger] s[i], #[trigger] s[j])
        == ((s[i] is PvCreate && s[j] is PvCreate && s[i]->PvCreate_0@ == s[j]->PvCreate_0@) || (s[i] is LvCreate
        && s[j] is LvCreate && s[i]->LvCreate_vg@ == s[j]->LvCreate_vg@ && s[i]->LvCreate_name@
        == s[j]->LvCreate_name@)) by {}
}

fn duplicate_lv_text(vg: &str, name: &str) -> (r: String)
    ensures
        r@ == duplicate_lv_message(vg@, name@),
{
    let mut r = concat3("Duplicate LV name '", name, "' in VG '");
    r.append(vg);
    r.append("'");
    r
}

/// Refuses a draft that declares a physical volume, or a logical volume of
/// a volume group, twice.
pub fn verify_uniqueness(draft: &Draft) -> (r: Result<(), String>)
    ensures
        match uniq_scan(draft.draft@) {
            Some(m) => r matches Err(e) && e@ == m,
            None => r is Ok,
        },
{
    let mut seen_lvs = PairSet::new();
    let mut seen_pvs = NameSet::new();
    let n = draft.draft.len();
    let mut i: usize = 0;
    while i < n
        invariant
            n == draft.draft.len(),
            i <= n,
            seen_pvs@ == pv_paths(draft.draft@.take(i as int)),
            seen_lvs@ == lv_pairs(draft.draft@.take(i as int)),
            uniq_scan(draft.draft@.take(i as int)) is None,
        decreases n - i,
    {
        let ghost pre = draft.draft@.take(i as int);
        let ghost nxt = draft.draft@.take(i + 1);
        assert(nxt.drop_last() =~= pre);
        assert(nxt.last() == draft.draft@[i as int]);
        match &draft.draft[i] {
            Call::PvCreate(path) => {
                if seen_pvs.contains(path.as_str()) {
                    let q = quoted(path.as_str());
                    let mut e = String::from_str("Duplicate PV declaration: ");
                    e.append(q.as_str());
                    proof {
                        lemma_uniq_prefix(draft.draft@, i + 1);
                    }
                    return Err(e);
                }
                seen_pvs.insert(path.clone());
            },
            Call::LvCreate { vg, name, .. } => {
                if seen_lvs.contains(vg.as_str(), name.as_str()) {
                    proof {
                        lemma_uniq_prefix(draft.draft@, i + 1);
                    }
                    return Err(duplicate_lv_text(vg.as_str(), name.as_str()));
                }
                seen_lvs.insert(vg.clone(), name.clone());
            },
            _ => {},
        }
        i = i + 1;
    }
    assert(draft.draft@.take(n as int) =~= draft.draft@);
    Ok(())
}

proof fn lemma_uniq_prefix(s: Seq<Call>, k: int)
    requires
        0 <= k <= s.len(),
        uniq_scan(s.take(k)) is Some,
    ensures
        uniq_scan(s) == uniq_scan(s.take(k)),
    decreases s.len(),
{
    if k < s.len() {
        assert(s.drop_last().take(k) =~= s.take(k));
        lemma_uniq_prefix(s.drop_last(), k);
    } else {
        assert(s.take(k) =~= s);
    }
}


// ---------------------------------------------------------------------
// Capacity: the extents the physical volumes will offer.

/// Where the capacity computation stands: running with the extents found
/// so far and the extent size in bytes, stopped on an error (which may
/// mark the draft invalid), or stopped on a division by a zero extent
/// size.
pub enum Capacity {
    Running { usable: nat, pe: nat },
    Failed { msg: Seq<char>, invalid: bool },
    DivideByZero,
}

pub open spec fn hardware_message(p: Seq<char>) -> Seq<char> {
    "Hardware failure: Path "@ + path_quoted(p) + " does not exist."@
}

pub open spec fn missing_size_message(p: Seq<char>) -> Seq<char> {
    "Missing size for "@ + path_quoted(p)
}

pub open spec fn too_small_message(p: Seq<char>) -> Seq<char> {
    "Device "@ + path_quoted(p) + " too small."@
}

/// The bytes LVM keeps for metadata on each physical volume.
pub open spec fn pv_overhead() -> nat {
    1048576
}

/// One physical volume's contribution: its size less the metadata
/// overhead, in whole extents.
pub open spec fn pv_step(pv: Seq<char>, pe: nat, st: SystemState, usable: nat) -> Capacity {
    if !st.paths_exist@.contains(pv) {
        Capacity::Failed { msg: hardware_message(pv), invalid: true }
    } else if !st.block_device_sizes@.dom().contains(pv) {
        Capacity::Failed { msg: missing_size_message(pv), invalid: false }
    } else {
        let raw = st.block_device_sizes@[pv] as nat;
        if raw <= pv_overhead() {
            Capacity::Failed { msg: too_small_message(pv), invalid: true }
        } else if pe == 0 {
            Capacity::DivideByZero
        } else {
            Capacity::Running { usable: usable + ((raw - pv_overhead()) as nat) / pe, pe }
        }
    }
}

pub open spec fn pv_scan(pvs: Seq<Seq<char>>, pe: nat, st: SystemState, usable: nat) -> Capacity
    decreases pvs.len(),
{
    if pvs.len() == 0 {
        Capacity::Running { usable, pe }
    } else {
        match pv_scan(pvs.drop_last(), pe, st, usable) {
            Capacity::Running { usable: u, .. } => pv_step(pvs.last(), pe, st, u),
            other => other,
        }
    }
}

/// The capacity computation over the calls in order: each volume group
/// sets the extent size and adds its physical volumes.
pub open spec fn cap_scan(s: Seq<Call>, st: SystemState) -> Capacity
    decreases s.len(),
{
    if s.len() == 0 {
        Capacity::Running { usable: 0, pe: 0 }
    } else {
        match cap_scan(s.drop_last(), st) {
            Capacity::Running { usable, pe } => match s.last() {
                Call::VgCreate { pvs, pe_size, .. } => match to_bytes_spec(pe_size) {
                    Err(m) => Capacity::Failed { msg: m, invalid: false },
                    Ok(b) => pv_scan(views(pvs@), b, st, usable),
                },
                _ => Capacity::Running { usable, pe },
            },
            other => other,
        }
    }
}

/// The number of physical volumes that the volume groups list.
pub open spec fn pv_total(s: Seq<Call>) -> nat
    decreases s.len(),
{
    if s.len() == 0 {
        0
    } else {
        pv_total(s.drop_last()) + match s.last() {
            Call::VgCreate { pvs, .. } => pvs.len() as nat,
            _ => 0nat,
        }
    }
}

/// How the capacity count takes one more physical volume of a volume
/// group, as `calculate_capacity` does: a path that does not exist, a
/// device whose size is unknown, or one of no more than 1 MiB (the metadata
/// LVM keeps) stops it with its error (marking the draft invalid, but for
/// an unknown size); otherwise the device adds its size less 1 MiB, in
/// whole extents. A stopped count stays stopped.
pub proof fn lemma_capacity_pv_step(pvs: Seq<Seq<char>>, x: Seq<char>, pe: nat, st: SystemState, u: nat)
    ensures
        !(pv_scan(pvs, pe, st, u) is Running) ==> pv_scan(pvs.push(x), pe, st, u) == pv_scan(pvs, pe, st, u),
        pv_scan(pvs, pe, st, u) matches Capacity::Running { usable: v, .. } ==> pv_scan(pvs.push(x), pe, st, u) == (
        if !st.paths_exist@.contains(x) {
            Capacity::Failed { msg: "Hardware failure: Path "@ + path_quoted(x) + " does not exist."@, invalid: true }
        } else if !st.block_device_sizes@.dom().contains(x) {
            Capacity::Failed { msg: "Missing size for "@ + path_quoted(x), invalid: false }
        } else if st.block_device_sizes@[x] <= 1048576 {
            Capacity::Failed { msg: "Device "@ + path_quoted(x) + " too small."@, invalid: true }
        } else if pe == 0 {
            Capacity::DivideByZero
        } else {
            Capacity::Running { usable: v + ((st.block_device_sizes@[x] - 1048576) as nat) / pe, pe }
        }),
{
    assert(pvs.push(x).drop_last() =~= pvs);
    assert(pvs.push(x).last() == x);
}

/// How the capacity count takes one more call: a volume group sets the
/// extent size to its absolute size in bytes (a relative one stops the
/// count with the conversion error) and adds its physical volumes; other
/// calls change nothing.
pub proof fn lemma_capacity_call_step(s: Seq<Call>, c: Call, st: SystemState)
    ensures
        !(cap_scan(s, st) is Running) ==> cap_scan(s.push(c), st) == cap_scan(s, st),
        cap_scan(s, st) is Running && !(c is VgCreate) ==> cap_scan(s.push(c), st) == cap_scan(s, st),
        cap_scan(s, st) is Running && c is VgCreate ==> cap_scan(s.push(c), st) == (
        match size_bytes(c->VgCreate_pe_size) {
            Some(b) => pv_scan(views(c->VgCreate_pvs@), b, st, cap_scan(s, st)->usable),
            None => Capacity::Failed { msg: to_bytes_spec(c->VgCreate_pe_size)->Err_0, invalid: false },
        }),
{
    assert(s.push(c).drop_last() =~= s);
    assert(s.push(c).last() == c);
}

proof fn lemma_pv_scan_stuck(pvs: Seq<Seq<char>>, k: int, pe: nat, st: SystemState, u: nat)
    requires
        0 <= k <= pvs.len(),
        !(pv_scan(pvs.take(k), pe, st, u) is Running),
    ensures
        pv_scan(pvs, pe, st, u) == pv_scan(pvs.take(k), pe, st, u),
    decreases pvs.len(),
{
    if k < pvs.len() {
        assert(pvs.drop_last().take(k) =~= pvs.take(k));
        lemma_pv_scan_stuck(pvs.drop_last(), k, pe, st, u);
    } else {
        assert(pvs.take(k) =~= pvs);
    }
}

proof fn lemma_cap_scan_stuck(s: Seq<Call>, k: int, st: SystemState)
    requires
        0 <= k <= s.len(),
        !(cap_scan(s.take(k), st) is Running),
    ensures
        cap_scan(s, st) == cap_scan(s.take(k), st),
    decreases s.len(),
{
    if k < s.len() {
        assert(s.drop_last().take(k) =~= s.take(k));
        lemma_cap_scan_stuck(s.drop_last(), k, st);
    } else {
        assert(s.take(k) =~= s);
    }
}

proof fn lemma_pv_total_prefix(s: Seq<Call>, k: int)
    requires
        0 <= k <= s.len(),
    ensures
        pv_total(s.take(k)) <= pv_total(s),
    decreases s.len(),
{
    if k < s.len() {
        assert(s.drop_last().take(k) =~= s.take(k));
        lemma_pv_total_prefix(s.drop_last(), k);
    } else {
        assert(s.take(k) =~= s);
    }
}

/// The outcome of the capacity computation, as the computation leaves it.
pub enum CapacityResult {
    Running(u128, u128),
    Failed(String, bool),
    DivideByZero,
}

pub open spec fn capacity_result_matches(r: CapacityResult, c: Capacity) -> bool {
    match c {
        Capacity::Running { usable, pe } => r matches CapacityResult::Running(u, p) && u as nat == usable && p as nat == pe,
        Capacity::Failed { msg, invalid } => r matches CapacityResult::Failed(e, i) && e@ == msg && i == invalid,
        Capacity::DivideByZero => r is DivideByZero,
    }
}

/// Runs the capacity computation over the calls, stopping where it fails
/// and, in place of a division by a zero extent size, reporting it.
pub fn capacity_scan(calls: &Vec<Call>, state: &SystemState) -> (r: CapacityResult)
    requires
        pv_total(calls@) <= u64::MAX,
    ensures
        capacity_result_matches(r, cap_scan(calls@, *state)),
{
    let ghost cs = calls@;
    let mut usable_extents: u128 = 0;
    let mut pe_size_bytes: u128 = 0;
    let n = calls.len();
    let mut i: usize = 0;
    while i < n
        invariant
            n == calls.len(),
            cs == calls@,
            i <= n,
            pv_total(cs) <= u64::MAX,
            cap_scan(cs.take(i as int), *state) == (Capacity::Running {
                usable: usable_extents as nat,
                pe: pe_size_bytes as nat,
            }),
            usable_extents <= pv_total(cs.take(i as int)) * 18446744073709551615,
        decreases n - i,
    {
        let ghost pre = cs.take(i as int);
        let ghost nxt = cs.take(i + 1);
        assert(nxt.drop_last() =~= pre);
        assert(nxt.last() == cs[i as int]);
        proof {
            lemma_pv_total_prefix(cs, i + 1);
        }
        if let Call::VgCreate { pvs, pe_size, .. } = &calls[i] {
            pe_size_bytes = match pe_size.to_bytes() {
                Ok(b) => b,
                Err(e) => {
                    proof {
                        lemma_cap_scan_stuck(cs, i + 1, *state);
                    }
                    return CapacityResult::Failed(e, false);
                },
            };
            let ghost pvv = views(pvs@);
            let ghost u0 = usable_extents as nat;
            let m = pvs.len();
            let mut j: usize = 0;
            assert(pvv.take(0) =~= Seq::<Seq<char>>::empty());
            while j < m
                invariant
                    m == pvs.len(),
                    pvv == views(pvs@),
                    j <= m,
                    n == calls.len(),
                    cs == calls@,
                    i < n,
                    nxt == cs.take(i + 1),
                    nxt.drop_last() == pre,
                    nxt.last() == cs[i as int],
                    cs[i as int] matches Call::VgCreate { pvs: p2, pe_size: ps2, .. } && p2 == *pvs && ps2 == *pe_size,
                    to_bytes_spec(*pe_size) == Ok::<nat, Seq<char>>(pe_size_bytes as nat),
                    cap_scan(pre, *state) == (Capacity::Running { usable: u0, pe: cap_scan(pre, *state)->pe }),
                    pv_total(cs) <= u64::MAX,
                    pv_total(nxt) == pv_total(pre) + m,
                    pv_total(nxt) <= pv_total(cs),
                    u0 <= pv_total(pre) * 18446744073709551615,
                    pv_scan(pvv.take(j as int), pe_size_bytes as nat, *state, u0) == (Capacity::Running {
                        usable: usable_extents as nat,
                        pe: pe_size_bytes as nat,
                    }),
                    usable_extents <= u0 + j * 18446744073709551615,
                decreases m - j,
            {
                let pv = &pvs[j];
                let ghost pt = pvv.take(j as int);
                let ghost pn = pvv.take(j + 1);
                assert(pn.drop_last() =~= pt);
                assert(pn.last() == pv@);
                if !state.paths_exist.contains(pv.as_str()) {
                    let q = quoted(pv.as_str());
                    proof {
                        lemma_pv_scan_stuck(pvv, j + 1, pe_size_bytes as nat, *state, u0);
                        assert(pvv.take(m as int) =~= pvv);
                        lemma_cap_scan_stuck(cs, i + 1, *state);
                    }
                    return CapacityResult::Failed(concat3("Hardware failure: Path ", q.as_str(), " does not exist."), true);
                }
                let raw_size: u128 = match state.block_device_sizes.get(pv.as_str()) {
                    Some(x) => x as u128,
                    None => {
                        let q = quoted(pv.as_str());
                        let mut e = String::from_str("Missing size for ");
                        e.append(q.as_str());
                        proof {
                            lemma_pv_scan_stuck(pvv, j + 1, pe_size_bytes as nat, *state, u0);
                            assert(pvv.take(m as int) =~= pvv);
                            lemma_cap_scan_stuck(cs, i + 1, *state);
                        }
                        return CapacityResult::Failed(e, false);
                    },
                };
                let overhead: u128 = 1048576;
                if raw_size <= overhead {
                    let q = quoted(pv.as_str());
                    proof {
                        lemma_pv_scan_stuck(pvv, j + 1, pe_size_bytes as nat, *state, u0);
                        assert(pvv.take(m as int) =~= pvv);
                        lemma_cap_scan_stuck(cs, i + 1, *state);
                    }
                    return CapacityResult::Failed(concat3("Device ", q.as_str(), " too small."), true);
                }
                if pe_size_bytes == 0 {
                    proof {
                        lemma_pv_scan_stuck(pvv, j + 1, pe_size_bytes as nat, *state, u0);
                        assert(pvv.take(m as int) =~= pvv);
                        lemma_cap_scan_stuck(cs, i + 1, *state);
                    }
                    return CapacityResult::DivideByZero;
                }
                let add = (raw_size - overhead) / pe_size_bytes;
                assert(add <= raw_size) by (nonlinear_arith)
                    requires
                        add as int == (raw_size - overhead) as int / pe_size_bytes as int,
                        pe_size_bytes >= 1,
                        raw_size > overhead,
                ;
                assert(u0 + (j + 1) * 18446744073709551615 <= pv_total(nxt) * 18446744073709551615);
                assert(pv_total(nxt) * 18446744073709551615 <= 18446744073709551615 * 18446744073709551615);
                usable_extents = usable_extents + add;
                j = j + 1;
            }
            assert(pvv.take(m as int) =~= pvv);
        }
        i = i + 1;
    }
    assert(cs.take(n as int) =~= cs);
    CapacityResult::Running(usable_extents, pe_size_bytes)
}

/// Counts the usable extents of the volume groups' physical volumes and
/// gives them with the extent size in bytes.
pub fn calculate_capacity(draft: &mut Draft, state: &SystemState) -> (r: Result<(u128, u128), String>)
    requires
        !(cap_scan(old(draft).draft@, *state) is DivideByZero),
        pv_total(old(draft).draft@) <= u64::MAX,
    ensures
        same_plan(*final(draft), *old(draft)),
        final(draft).warnings == old(draft).warnings,
        match cap_scan(old(draft).draft@, *state) {
            Capacity::Running { usable, pe } => (r matches Ok((u, p)) && u as nat == usable && p as nat == pe) && final(draft).status == old(draft).status,
            Capacity::Failed { msg, invalid } => (r matches Err(e) && e@ == msg) && final(draft).status == (if invalid {
                DraftStatus::Invalid
            } else {
                old(draft).status
            }),
            Capacity::DivideByZero => false,
        },
{
    match capacity_scan(&draft.draft, state) {
        CapacityResult::Running(usable, pe) => Ok((usable, pe)),
        CapacityResult::Failed(e, invalid) => {
            if invalid {
                draft.status = DraftStatus::Invalid;
            }
            Err(e)
        },
        CapacityResult::DivideByZero => Err(String::new()),
    }
}

/// Whether the volume groups list no more physical volumes than a 64-bit
/// count holds.
pub fn pv_total_fits(calls: &Vec<Call>) -> (r: bool)
    ensures
        r == (pv_total(calls@) <= u64::MAX),
{
    let ghost cs = calls@;
    let mut total: u128 = 0;
    let n = calls.len();
    let mut i: usize = 0;
    while i < n
        invariant
            n == calls.len(),
            cs == calls@,
            i <= n,
            total as nat == pv_total(cs.take(i as int)),
            total <= u64::MAX,
        decreases n - i,
    {
        assert(cs.take(i + 1).drop_last() =~= cs.take(i as int));
        assert(cs.take(i + 1).last() == cs[i as int]);
        if let Call::VgCreate { pvs, .. } = &calls[i] {
            total = total + pvs.len() as u128;
        }
        if total > 18446744073709551615u128 {
            proof {
                lemma_pv_total_prefix(cs, i + 1);
            }
            return false;
        }
        i = i + 1;
    }
    assert(cs.take(n as int) =~= cs);
    true
}

// ---------------------------------------------------------------------
// Requirements: the extents the logical volumes will take.

/// The extents one logical volume of `size` needs, given the volume
/// group's usable extents, the extent size in bytes and what the volumes
/// before it already take; none where the arithmetic would overflow or
/// divide by zero.
pub open spec fn required_for(size: SizeUnit, usable: nat, pe: nat, total: nat) -> Option<nat> {
    match size {
        SizeUnit::Extents(e) => Some(e as nat),
        SizeUnit::Percentage(p, t) => {
            let base: nat = match t {
                PercentTarget::Free => if usable >= total {
                    (usable - total) as nat
                } else {
                    0
                },
                _ => usable,
            };
            if base * (p.value() as nat) > u128::MAX {
                None
            } else {
                Some(base * (p.value() as nat) / 100)
            }
        },
        _ => {
            let b = size_bytes(size).unwrap();
            if pe == 0 || b + pe > u128::MAX {
                None
            } else {
                Some(((b + pe - 1) as nat) / pe)
            }
        },
    }
}

/// The extents all logical volumes need, summed in order; none where the
/// arithmetic would overflow or divide by zero.
pub open spec fn req_scan(s: Seq<Call>, usable: nat, pe: nat) -> Option<nat>
    decreases s.len(),
{
    if s.len() == 0 {
        Some(0)
    } else {
        match req_scan(s.drop_last(), usable, pe) {
            None => None,
            Some(total) => match s.last() {
                Call::LvCreate { size, .. } => match required_for(size, usable, pe, total) {
                    None => None,
                    Some(r) => if total + r > u128::MAX {
                        None
                    } else {
                        Some(total + r)
                    },
                },
                _ => Some(total),
            },
        }
    }
}

/// How the extents required grow with one more call, as
/// `calculate_required` sums them: a call that creates no logical volume
/// adds nothing; a count of extents adds itself; a percentage of the
/// volume group or of the physical volumes adds that share of all usable
/// extents, whatever the volumes before it take; a percentage of the free
/// space adds that share of what the volumes before it leave; and an
/// absolute size adds the fewest whole extents that hold it.
pub proof fn lemma_required_step(s: Seq<Call>, c: Call, usable: nat, pe: nat)
    requires
        req_scan(s.push(c), usable, pe) is Some,
    ensures
        req_scan(s, usable, pe) is Some,
        ({
            let t = req_scan(s, usable, pe).unwrap();
            let t2 = req_scan(s.push(c), usable, pe).unwrap();
            match c {
                Call::LvCreate { size, .. } => match size {
                    SizeUnit::Extents(e) => t2 == t + e,
                    SizeUnit::Percentage(p, tg) => if tg == PercentTarget::Free {
                        t2 == t + (if usable >= t { (usable - t) as nat } else { 0nat }) * (p.value() as nat) / 100
                    } else {
                        t2 == t + usable * (p.value() as nat) / 100
                    },
                    _ => {
                        let b = size_bytes(size).unwrap();
                        &&& pe > 0
                        &&& t2 >= t
                        &&& (t2 - t) * pe >= b
                        &&& (t2 - t - 1) * pe < b
                    },
                },
                _ => t2 == t,
            }
        }),
{
    let q = s.push(c);
    assert(q.drop_last() =~= s);
    assert(q.last() == c);
    if let Call::LvCreate { size, .. } = c {
        if size_bytes(size) is Some {
            let b = size_bytes(size).unwrap();
            let t = req_scan(s, usable, pe).unwrap();
            let add: int = req_scan(q, usable, pe).unwrap() - t;
            assert(pe > 0);
            assert(add == (b + pe - 1) as nat / pe);
            assert(add * pe >= b && (add - 1) * pe < b) by (nonlinear_arith)
                requires
                    pe > 0,
                    b >= 0,
                    add == (b + pe - 1) / (pe as int),
            ;
        }
    }
}

proof fn lemma_req_prefix(s: Seq<Call>, k: int, usable: nat, pe: nat)
    requires
        0 <= k <= s.len(),
        req_scan(s, usable, pe) is Some,
    ensures
        req_scan(s.take(k), usable, pe) is Some,
    decreases s.len(),
{
    if k < s.len() {
        assert(s.drop_last().take(k) =~= s.take(k));
        lemma_req_prefix(s.drop_last(), k, usable, pe);
    } else {
        assert(s.take(k) =~= s);
    }
}

/// Sums the extents the logical volumes need: a count of extents as it
/// stands, a percentage of the volume group (or of what the volumes before
/// it leave free), and an absolute size rounded up to whole extents.
pub fn calculate_required(draft: &Draft, total_usable: u128, pe_bytes: u128) -> (r: Result<u128, String>)
    requires
        req_scan(draft.draft@, total_usable as nat, pe_bytes as nat) is Some,
    ensures
        r matches Ok(t) && t as nat == req_scan(draft.draft@, total_usable as nat, pe_bytes as nat).unwrap(),
{
    let ghost calls = draft.draft@;
    let ghost u = total_usable as nat;
    let ghost pe = pe_bytes as nat;
    let mut total_required: u128 = 0;
    let n = draft.draft.len();
    let mut i: usize = 0;
    while i < n
        invariant
            n == draft.draft.len(),
            calls == draft.draft@,
            u == total_usable as nat,
            pe == pe_bytes as nat,
            i <= n,
            req_scan(calls, u, pe) is Some,
            req_scan(calls.take(i as int), u, pe) == Some(total_required as nat),
        decreases n - i,
    {
        let ghost pre = calls.take(i as int);
        let ghost nxt = calls.take(i + 1);
        assert(nxt.drop_last() =~= pre);
        assert(nxt.last() == calls[i as int]);
        proof {
            lemma_req_prefix(calls, i + 1, u, pe);
        }
        if let Call::LvCreate { size, .. } = &draft.draft[i] {
            let required: u128 = match size {
                SizeUnit::Extents(e) => *e as u128,
                SizeUnit::Percentage(pct, target) => {
                    let p = pct.get() as u128;
                    match target {
                        PercentTarget::Vg | PercentTarget::Pvs => (total_usable * p) / 100,
                        PercentTarget::Free => ((total_usable.saturating_sub(total_required)) * p) / 100,
                    }
                },
                _ => {
                    let b = match size.to_bytes() {
                        Ok(b) => b,
                        Err(e) => {
                            return Err(e);
                        },
                    };
                    (b + pe_bytes - 1) / pe_bytes
                },
            };
            total_required = total_required + required;
        }
        i = i + 1;
    }
    assert(calls.take(n as int) =~= calls);
    Ok(total_required)
}


// ---------------------------------------------------------------------
// The capability check and the whole verification pipeline.

pub open spec fn nonclean_message() -> Seq<char> {
    "Cannot run capability check on a non-clean draft."@
}

pub open spec fn insufficient_message(required: nat, available: nat) -> Seq<char> {
    "Insufficient disk space. Required "@ + decimal(required) + ", available "@ + decimal(
        available,
    ) + "."@
}

/// What the capability check decides for calls in a draft of the given
/// status, and the warnings it raises on the way.
pub open spec fn possible_outcome(s: Seq<Call>, status: DraftStatus, st: SystemState) -> (
    Result<(), Seq<char>>,
    Seq<Seq<char>>,
) {
    if status != DraftStatus::Clean {
        (Err(nonclean_message()), Seq::empty())
    } else {
        match uniq_scan(s) {
            Some(m) => (Err(m), Seq::empty()),
            None => {
                let (w, e) = safety_scan(s, st);
                match e {
                    Some(m) => (Err(m), w),
                    None => match cap_scan(s, st) {
                        Capacity::Failed { msg, .. } => (Err(msg), w),
                        Capacity::Running { usable, pe } => {
                            let req = req_scan(s, usable, pe).unwrap();
                            if usable < req {
                                (Err(insufficient_message(req, usable)), w)
                            } else {
                                (Ok(()), w)
                            }
                        },
                        Capacity::DivideByZero => (Ok(()), w),
                    },
                }
            },
        }
    }
}

/// The capability check completes without dividing by zero or overflowing
/// (the draft lists fewer physical volumes than fit in memory).
pub open spec fn possible_safe(s: Seq<Call>, status: DraftStatus, st: SystemState) -> bool {
    (status == DraftStatus::Clean && uniq_scan(s) is None && safety_scan(s, st).1 is None) ==> {
        &&& pv_total(s) <= u64::MAX
        &&& !(cap_scan(s, st) is DivideByZero)
        &&& (cap_scan(s, st) matches Capacity::Running { usable, pe } ==> req_scan(
            s,
            usable,
            pe,
        ) is Some)
    }
}

fn insufficient_text(required: u128, available: u128) -> (r: String)
    ensures
        r@ == insufficient_message(required as nat, available as nat),
{
    let rq = decimal_text(required);
    let av = decimal_text(available);
    let mut r = concat3("Insufficient disk space. Required ", rq.as_str(), ", available ");
    r.append(av.as_str());
    r.append(".");
    r
}

/// Checks that a clean draft is unique, safe and fits the hardware; marks
/// it `Ready` when it is and `Invalid` when it is not.
pub fn verify_possible(draft: &mut Draft, state: &SystemState) -> (r: Result<(), String>)
    requires
        possible_safe(old(draft).draft@, old(draft).status, *state),
    ensures
        same_plan(*final(draft), *old(draft)),
        views(final(draft).warnings@) == views(old(draft).warnings@) + possible_outcome(
            old(draft).draft@,
            old(draft).status,
            *state,
        ).1,
        match possible_outcome(old(draft).draft@, old(draft).status, *state).0 {
            Ok(_) => r is Ok && final(draft).status == DraftStatus::Ready,
            Err(m) => (r matches Err(e) && e@ == m) && final(draft).status == DraftStatus::Invalid,
        },
{
    let ghost calls = draft.draft@;
    if draft.status != DraftStatus::Clean {
        draft.status = DraftStatus::Invalid;
        assert(views(draft.warnings@) =~= views(old(draft).warnings@) + Seq::<Seq<char>>::empty());
        return Err(String::from_str("Cannot run capability check on a non-clean draft."));
    }
    if let Err(e) = verify_uniqueness(draft) {
        draft.status = DraftStatus::Invalid;
        assert(views(draft.warnings@) =~= views(old(draft).warnings@) + Seq::<Seq<char>>::empty());
        return Err(e);
    }
    if let Err(e) = verify_safety(draft, state) {
        draft.status = DraftStatus::Invalid;
        return Err(e);
    }
    let (usable, pe_bytes) = match calculate_capacity(draft, state) {
        Ok(c) => c,
        Err(e) => {
            draft.status = DraftStatus::Invalid;
            return Err(e);
        },
    };
    let required = match calculate_required(draft, usable, pe_bytes) {
        Ok(q) => q,
        Err(e) => {
            draft.status = DraftStatus::Invalid;
            return Err(e);
        },
    };
    if usable < required {
        draft.status = DraftStatus::Invalid;
        return Err(insufficient_text(required, usable));
    }
    draft.status = DraftStatus::Ready;
    Ok(())
}

/// What verification decides for a provisioning draft: its new status or
/// the refusal, and the warnings raised.
pub open spec fn provision_outcome(s: Seq<Call>, st: SystemState) -> (
    Result<DraftStatus, Seq<char>>,
    Seq<Seq<char>>,
) {
    match done_status(s, st) {
        DraftStatus::Dirty => (Err(dirty_message()), Seq::empty()),
        DraftStatus::Done => (Ok(DraftStatus::Done), Seq::empty()),
        _ => {
            let (res, w) = possible_outcome(s, DraftStatus::Clean, st);
            match res {
                Ok(_) => (Ok(DraftStatus::Ready), w),
                Err(m) => (Err(m), w),
            }
        },
    }
}

/// Verification of a provisioning draft completes without dividing by zero
/// or overflowing.
pub open spec fn provision_safe(s: Seq<Call>, st: SystemState) -> bool {
    done_status(s, st) == DraftStatus::Clean ==> possible_safe(s, DraftStatus::Clean, st)
}

/// The verified draft for an outcome: same plan, new status, warnings
/// added.
pub open spec fn verified_as(r: Result<Draft, String>, d: Draft, outcome: (Result<DraftStatus, Seq<char>>, Seq<Seq<char>>)) -> bool {
    match outcome.0 {
        Ok(status) => r matches Ok(v) && same_plan(v, d) && v.status == status && views(v.warnings@)
            == views(d.warnings@) + outcome.1,
        Err(m) => r matches Err(e) && e@ == m,
    }
}

/// Two passes: is the work already done (or half done), and if the system
/// is clean, can the draft be carried out.
pub fn verify_provision(draft: Draft, state: &SystemState) -> (r: Result<Draft, String>)
    requires
        provision_safe(draft.draft@, *state),
    ensures
        verified_as(r, draft, provision_outcome(draft.draft@, *state)),
{
    let mut draft = draft;
    let ghost d0 = draft;
    match verify_done(&mut draft, state) {
        Ok(()) => {},
        Err(e) => {
            return Err(e);
        },
    }
    match draft.status {
        DraftStatus::Done => Ok(draft),
        DraftStatus::Dirty => Err(
            String::from_str("System is in a Dirty state. Manual intervention required."),
        ),
        DraftStatus::Clean => {
            match verify_possible(&mut draft, state) {
                Ok(()) => {},
                Err(e) => {
                    return Err(e);
                },
            }
            match draft.status {
                DraftStatus::Ready => Ok(draft),
                DraftStatus::Invalid => Err(
                    String::from_str("System cannot fulfill this plan. Invalid hardware or math."),
                ),
                _ => Err(String::from_str("Architectural Error: Unexpected state after Pass 2.")),
            }
        },
        _ => Err(String::from_str("Architectural Error: Unexpected state after Pass 1.")),
    }
}

/// A draft is made ready only when it is clean, unique, safe, and the
/// extents its logical volumes need fit in those its physical volumes
/// offer.
pub proof fn lemma_ready_fits(s: Seq<Call>, status: DraftStatus, st: SystemState)
    requires
        possible_safe(s, status, st),
        possible_outcome(s, status, st).0 is Ok,
    ensures
        status == DraftStatus::Clean,
        calls_unique(s),
        forall|i: int| 0 <= i < s.len() ==> !pv_critical(#[trigger] s[i], st),
        cap_scan(s, st) matches Capacity::Running { usable, pe } && req_scan(s, usable, pe) matches Some(
            req,
        ) && req <= usable,
{
    lemma_uniqueness(s);
    lemma_safety_refusal(s, st);
}

/// What verification of a provisioning draft concludes: a draft the system
/// already shows is `Done`; a half-done one is refused as dirty; a clean,
/// unique and safe one whose capacity count completes is `Ready` exactly
/// when the extents its logical volumes need are no more than the usable
/// extents, and is otherwise refused for want of space.
pub proof fn lemma_provision_outcomes(s: Seq<Call>, st: SystemState)
    ensures
        done_status(s, st) == DraftStatus::Done ==> provision_outcome(s, st).0 == Ok::<DraftStatus, Seq<char>>(
            DraftStatus::Done,
        ) && provision_outcome(s, st).1.len() == 0,
        done_status(s, st) == DraftStatus::Dirty ==> provision_outcome(s, st).0 == Err::<DraftStatus, Seq<char>>(
            "Draft is in a dirty/partial state."@,
        ),
        ({
            let c = cap_scan(s, st);
            (done_status(s, st) == DraftStatus::Clean && uniq_scan(s) is None && safety_scan(s, st).1 is None
                && c is Running && req_scan(s, c->usable, c->pe) is Some) ==> {
                let u = c->usable;
                let r = req_scan(s, u, c->pe).unwrap();
                &&& r <= u ==> provision_outcome(s, st).0 == Ok::<DraftStatus, Seq<char>>(DraftStatus::Ready)
                &&& r > u ==> provision_outcome(s, st).0 == Err::<DraftStatus, Seq<char>>(
                    "Insufficient disk space. Required "@ + decimal(r) + ", available "@ + decimal(u) + "."@,
                )
            }
        }),
        provision_outcome(s, st).0 == Ok::<DraftStatus, Seq<char>>(DraftStatus::Ready) ==> done_status(s, st)
            == DraftStatus::Clean && uniq_scan(s) is None && safety_scan(s, st).1 is None,
{
}

/// Whether some physical volume of the calls is a device with a signature
/// that `/etc/fstab` refers to.
pub fn safety_refused(calls: &Vec<Call>, state: &SystemState) -> (r: bool)
    ensures
        r == (safety_scan(calls@, *state).1 is Some),
{
    let n = calls.len();
    let mut i: usize = 0;
    while i < n
        invariant
            n == calls.len(),
            i <= n,
            forall|j: int| 0 <= j < i ==> !pv_critical(#[trigger] calls@[j], *state),
        decreases n - i,
    {
        if let Call::PvCreate(p) = &calls[i] {
            if state.filesystems.contains(p.as_str()) && state.fstab_device_refs.contains(p.as_str()) {
                assert(pv_critical(calls@[i as int], *state));
                proof {
                    lemma_safety_refusal(calls@, *state);
                }
                return true;
            }
        }
        i = i + 1;
    }
    proof {
        lemma_safety_refusal(calls@, *state);
    }
    false
}

/// Whether summing the extents that the logical volumes need stays free of
/// overflow and of division by zero.
pub fn required_fits(calls: &Vec<Call>, total_usable: u128, pe_bytes: u128) -> (r: bool)
    ensures
        r == (req_scan(calls@, total_usable as nat, pe_bytes as nat) is Some),
{
    let ghost cs = calls@;
    let ghost u = total_usable as nat;
    let ghost pe = pe_bytes as nat;
    let mut total: u128 = 0;
    let n = calls.len();
    let mut i: usize = 0;
    while i < n
        invariant
            n == calls.len(),
            cs == calls@,
            u == total_usable as nat,
            pe == pe_bytes as nat,
            i <= n,
            req_scan(cs.take(i as int), u, pe) == Some(total as nat),
        decreases n - i,
    {
        let ghost pre = cs.take(i as int);
        let ghost nxt = cs.take(i + 1);
        assert(nxt.drop_last() =~= pre);
        assert(nxt.last() == cs[i as int]);
        if let Call::LvCreate { size, .. } = &calls[i] {
            let required: Option<u128> = match size {
                SizeUnit::Extents(e) => Some(*e as u128),
                SizeUnit::Percentage(pct, target) => {
                    let base = match target {
                        PercentTarget::Free => total_usable.saturating_sub(total),
                        _ => total_usable,
                    };
                    match base.checked_mul(pct.get() as u128) {
                        Some(x) => Some(x / 100),
                        None => None,
                    }
                },
                _ => {
                    match size.to_bytes() {
                        Ok(b) => if pe_bytes == 0 {
                            None
                        } else {
                            match b.checked_add(pe_bytes) {
                                Some(x) => Some((x - 1) / pe_bytes),
                                None => None,
                            }
                        },
                        Err(_) => None,
                    }
                },
            };
            let next = match required {
                Some(q) => total.checked_add(q),
                None => None,
            };
            match next {
                Some(t) => {
                    total = t;
                },
                None => {
                    proof {
                        if req_scan(cs, u, pe) is Some {
                            lemma_req_prefix(cs, i + 1, u, pe);
                        }
                    }
                    return false;
                },
            }
        }
        i = i + 1;
    }
    assert(cs.take(n as int) =~= cs);
    true
}

/// Whether verifying the draft against the system completes: true unless a
/// provisioning draft would divide by a zero extent size, overflow, or list
/// more physical volumes than a 64-bit count holds.
pub fn verification_completes(draft: &Draft, state: &SystemState) -> (r: bool)
    ensures
        r == (draft.draft_type@ == "provision"@ ==> provision_safe(draft.draft@, *state)),
{
    if !text_eq(draft.draft_type.as_str(), "provision") {
        return true;
    }
    match done_status_of(&draft.draft, state) {
        DraftStatus::Clean => {},
        _ => {
            return true;
        },
    }
    if verify_uniqueness(draft).is_err() {
        return true;
    }
    if safety_refused(&draft.draft, state) {
        return true;
    }
    if !pv_total_fits(&draft.draft) {
        return false;
    }
    match capacity_scan(&draft.draft, state) {
        CapacityResult::Running(usable, pe) => required_fits(&draft.draft, usable, pe),
        CapacityResult::Failed(_, _) => true,
        CapacityResult::DivideByZero => false,
    }
}

pub open spec fn no_ruleset_message(t: Seq<char>) -> Seq<char> {
    "Architectural Error: No verification ruleset exists for draft type '"@ + t + "'"@
}

/// Verifies a draft of a known kind against a snapshot of the system.
pub fn verify(draft: Draft, state: &SystemState) -> (r: Result<Draft, String>)
    requires
        draft.draft_type@ == "provision"@ ==> provision_safe(draft.draft@, *state),
    ensures
        draft.draft_type@ == "provision"@ ==> verified_as(r, draft, provision_outcome(draft.draft@, *state)),
        draft.draft_type@ != "provision"@ ==> (r matches Err(e) && e@ == no_ruleset_message(draft.draft_type@)),
{
    if text_eq(draft.draft_type.as_str(), "provision") {
        verify_provision(draft, state)
    } else {
        Err(concat3(
            "Architectural Error: No verification ruleset exists for draft type '",
            draft.draft_type.as_str(),
            "'",
        ))
    }
}

} // verus!
