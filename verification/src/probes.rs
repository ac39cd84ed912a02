//! Which facts of the live system a draft needs, and how an observed fact
//! enters the snapshot. Running a probe is I/O and happens outside the
//! library; deciding what to probe and what an answer means happens here.

use vstd::prelude::*;
use crate::state::SystemState;
use crate::text::views;
use crate::types::{Call, Draft};

verus! {

/// A question about the live system.
#[derive(Debug, Clone, PartialEq, Eq)]
pub enum Probe {
    /// Is the device already a physical volume?
    PvExists(String),
    /// Does the device carry a filesystem signature?
    Signature(String),
    /// Does `/etc/fstab` refer to the device?
    FstabReference(String),
    /// Does the volume group exist?
    VgExists(String),
    /// Does the path exist?
    PathExists(String),
    /// How large, in bytes, is the block device?
    DeviceSize(String),
    /// Is the device a whole disk rather than a partition?
    FullDisk(String),
    /// Does the logical volume exist in the volume group?
    LvExists(String, String),
    /// Is something mounted at the path?
    MountActive(String),
    /// Does `/etc/fstab` hold an entry for the device at the mount point?
    FstabEntry(String, String),
    /// Is the device active swap space?
    SwapActive(String),
}

pub enum ProbeView {
    PvExists(Seq<char>),
    Signature(Seq<char>),
    FstabReference(Seq<char>),
    VgExists(Seq<char>),
    PathExists(Seq<char>),
    DeviceSize(Seq<char>),
    FullDisk(Seq<char>),
    LvExists(Seq<char>, Seq<char>),
    MountActive(Seq<char>),
    FstabEntry(Seq<char>, Seq<char>),
    SwapActive(Seq<char>),
}

impl View for Probe {
    type V = ProbeView;

    open spec fn view(&self) -> ProbeView {
        match self {
            Probe::PvExists(p) => ProbeView::PvExists(p@),
            Probe::Signature(p) => ProbeView::Signature(p@),
            Probe::FstabReference(p) => ProbeView::FstabReference(p@),
            Probe::VgExists(n) => ProbeView::VgExists(n@),
            Probe::PathExists(p) => ProbeView::PathExists(p@),
            Probe::DeviceSize(p) => ProbeView::DeviceSize(p@),
            Probe::FullDisk(p) => ProbeView::FullDisk(p@),
            Probe::LvExists(v, n) => ProbeView::LvExists(v@, n@),
            Probe::MountActive(p) => ProbeView::MountActive(p@),
            Probe::FstabEntry(d, p) => ProbeView::FstabEntry(d@, p@),
            Probe::SwapActive(d) => ProbeView::SwapActive(d@),
        }
    }
}

pub open spec fn probe_views(s: Seq<Probe>) -> Seq<ProbeView> {
    s.map_values(|p: Probe| p@)
}

/// The questions for one physical volume of a volume group.
pub open spec fn member_probes(pv: Seq<char>) -> Seq<ProbeView> {
    seq![
        ProbeView::PathExists(pv),
        ProbeView::DeviceSize(pv),
        ProbeView::FullDisk(pv),
        ProbeView::Signature(pv),
        ProbeView::FstabReference(pv),
    ]
}

pub open spec fn members_probes(pvs: Seq<Seq<char>>) -> Seq<ProbeView>
    decreases pvs.len(),
{
    if pvs.len() == 0 {
        Seq::empty()
    } else {
        members_probes(pvs.drop_last()) + member_probes(pvs.last())
    }
}

/// The questions one call raises.
pub open spec fn call_probes(c: Call) -> Seq<ProbeView> {
    match c {
        Call::PvCreate(p) => seq![
            ProbeView::PvExists(p@),
            ProbeView::Signature(p@),
            ProbeView::FstabReference(p@),
        ],
        Call::VgCreate { name, pvs, .. } => seq![ProbeView::VgExists(name@)] + members_probes(views(pvs@)),
        Call::LvCreate { vg, name, .. } => seq![ProbeView::LvExists(vg@, name@)],
        Call::Mount { path, .. } => seq![ProbeView::MountActive(path@)],
        Call::Fstab { device, path, .. } => seq![ProbeView::FstabEntry(device@, path@)],
        Call::MkSwap(d) => seq![ProbeView::SwapActive(d@)],
        Call::Mkfs { device, .. } => seq![ProbeView::Signature(device@)],
        Call::Mkdir(p) => seq![ProbeView::PathExists(p@)],
    }
}

/// The questions a draft raises, call by call.
pub open spec fn draft_probes(s: Seq<Call>) -> Seq<ProbeView>
    decreases s.len(),
{
    if s.len() == 0 {
        Seq::empty()
    } else {
        draft_probes(s.drop_last()) + call_probes(s.last())
    }
}

fn push_probe(out: &mut Vec<Probe>, p: Probe)
    ensures
        probe_views(final(out)@) == probe_views(old(out)@).push(p@),
{
    let ghost before = probe_views(out@);
    out.push(p);
    assert(probe_views(out@) =~= before.push(p@));
}

/// The questions to ask the system before verifying `draft`.
pub fn probes_for(draft: &Draft) -> (r: Vec<Probe>)
    ensures
        probe_views(r@) == draft_probes(draft.draft@),
{
    let ghost calls = draft.draft@;
    let mut out: Vec<Probe> = Vec::new();
    let n = draft.draft.len();
    let mut i: usize = 0;
    assert(calls.take(0) =~= Seq::<Call>::empty());
    assert(probe_views(out@) =~= Seq::<ProbeView>::empty());
    while i < n
        invariant
            n == draft.draft.len(),
            calls == draft.draft@,
            i <= n,
            probe_views(out@) == draft_probes(calls.take(i as int)),
        decreases n - i,
    {
        let ghost pre = calls.take(i as int);
        let ghost nxt = calls.take(i + 1);
        assert(nxt.drop_last() =~= pre);
        assert(nxt.last() == calls[i as int]);
        let ghost before = probe_views(out@);
        match &draft.draft[i] {
            Call::PvCreate(path) => {
                push_probe(&mut out, Probe::PvExists(path.clone()));
                push_probe(&mut out, Probe::Signature(path.clone()));
                push_probe(&mut out, Probe::FstabReference(path.clone()));
            },
            Call::VgCreate { name, pvs, .. } => {
                push_probe(&mut out, Probe::VgExists(name.clone()));
                let ghost pv = views(pvs@);
                let ghost head = probe_views(out@);
                let mut j: usize = 0;
                assert(pv.take(0) =~= Seq::<Seq<char>>::empty());
                assert(head =~= head + members_probes(pv.take(0)));
                while j < pvs.len()
                    invariant
                        j <= pvs.len(),
                        pv == views(pvs@),
                        probe_views(out@) == head + members_probes(pv.take(j as int)),
                    decreases pvs.len() - j,
                {
                    let p = &pvs[j];
                    push_probe(&mut out, Probe::PathExists(p.clone()));
                    push_probe(&mut out, Probe::DeviceSize(p.clone()));
                    push_probe(&mut out, Probe::FullDisk(p.clone()));
                    push_probe(&mut out, Probe::Signature(p.clone()));
                    push_probe(&mut out, Probe::FstabReference(p.clone()));
                    assert(pv.take(j + 1).drop_last() =~= pv.take(j as int));
                    assert(pv.take(j + 1).last() == p@);
                    assert(probe_views(out@) =~= head + members_probes(pv.take(j + 1)));
                    j = j + 1;
                }
                assert(pv.take(pvs.len() as int) =~= pv);
            },
            Call::LvCreate { vg, name, .. } => {
                push_probe(&mut out, Probe::LvExists(vg.clone(), name.clone()));
            },
            Call::Mount { path, .. } => {
                push_probe(&mut out, Probe::MountActive(path.clone()));
            },
            Call::Fstab { device, path, .. } => {
                push_probe(&mut out, Probe::FstabEntry(device.clone(), path.clone()));
            },
            Call::MkSwap(d) => {
                push_probe(&mut out, Probe::SwapActive(d.clone()));
            },
            Call::Mkfs { device, .. } => {
                push_probe(&mut out, Probe::Signature(device.clone()));
            },
            Call::Mkdir(p) => {
                push_probe(&mut out, Probe::PathExists(p.clone()));
            },
        }
        assert(probe_views(out@) =~= before + call_probes(calls[i as int]));
        i = i + 1;
    }
    assert(calls.take(n as int) =~= calls);
    out
}

pub open spec fn add_if(s: Set<Seq<char>>, hit: bool, x: Seq<char>) -> Set<Seq<char>> {
    if hit {
        s.insert(x)
    } else {
        s
    }
}

pub open spec fn add_pair_if(
    s: Set<(Seq<char>, Seq<char>)>,
    hit: bool,
    x: (Seq<char>, Seq<char>),
) -> Set<(Seq<char>, Seq<char>)> {
    if hit {
        s.insert(x)
    } else {
        s
    }
}

impl SystemState {
    /// Enters the answer to a probe: a fact found true is added to its set;
    /// a device size, when one was read, is added to the sizes.
    pub fn record(&mut self, probe: &Probe, found: bool, size: Option<u64>)
        ensures
            final(self).pvs@ == add_if(old(self).pvs@, found && probe@ is PvExists, probe@->PvExists_0),
            final(self).filesystems@ == add_if(old(self).filesystems@, found && probe@ is Signature, probe@->Signature_0),
            final(self).fstab_device_refs@ == add_if(old(self).fstab_device_refs@, found && probe@ is FstabReference, probe@->FstabReference_0),
            final(self).vgs@ == add_if(old(self).vgs@, found && probe@ is VgExists, probe@->VgExists_0),
            final(self).paths_exist@ == add_if(old(self).paths_exist@, found && probe@ is PathExists, probe@->PathExists_0),
            final(self).is_full_disk@ == add_if(old(self).is_full_disk@, found && probe@ is FullDisk, probe@->FullDisk_0),
            final(self).lvs@ == add_pair_if(old(self).lvs@, found && probe@ is LvExists, (probe@->LvExists_0, probe@->LvExists_1)),
            final(self).mounts@ == add_if(old(self).mounts@, found && probe@ is MountActive, probe@->MountActive_0),
            final(self).fstabs@ == add_pair_if(old(self).fstabs@, found && probe@ is FstabEntry, (probe@->FstabEntry_0, probe@->FstabEntry_1)),
            final(self).swaps@ == add_if(old(self).swaps@, found && probe@ is SwapActive, probe@->SwapActive_0),
            final(self).block_device_sizes@ == (match size {
                Some(z) => if probe@ is DeviceSize {
                    old(self).block_device_sizes@.insert(probe@->DeviceSize_0, z)
                } else {
                    old(self).block_device_sizes@
                },
                None => old(self).block_device_sizes@,
            }),
    {
        match probe {
            Probe::DeviceSize(p) => {
                if let Some(z) = size {
                    self.block_device_sizes.insert(p.clone(), z);
                }
                return;
            },
            _ => {},
        }
        if !found {
            return;
        }
        match probe {
            Probe::PvExists(p) => self.pvs.insert(p.clone()),
            Probe::Signature(p) => self.filesystems.insert(p.clone()),
            Probe::FstabReference(p) => self.fstab_device_refs.insert(p.clone()),
            Probe::VgExists(n) => self.vgs.insert(n.clone()),
            Probe::PathExists(p) => self.paths_exist.insert(p.clone()),
            Probe::DeviceSize(_) => {},
            Probe::FullDisk(p) => self.is_full_disk.insert(p.clone()),
            Probe::LvExists(v, n) => self.lvs.insert(v.clone(), n.clone()),
            Probe::MountActive(p) => self.mounts.insert(p.clone()),
            Probe::FstabEntry(d, p) => self.fstabs.insert(d.clone(), p.clone()),
            Probe::SwapActive(d) => self.swaps.insert(d.clone()),
        }
    }
}


/// The kinds of fact about a single device or name that a snapshot holds.
pub enum Fact {
    Pv,
    Signature,
    FstabReference,
    Vg,
    Path,
    FullDisk,
    Mount,
    Swap,
}

/// The kinds of fact about a pair of names that a snapshot holds.
pub enum PairFact {
    Lv,
    FstabEntry,
}

/// The device or name a probe asks about, when it asks for fact `k`.
pub open spec fn fact_of(p: ProbeView, k: Fact) -> Option<Seq<char>> {
    match (p, k) {
        (ProbeView::PvExists(x), Fact::Pv) => Some(x),
        (ProbeView::Signature(x), Fact::Signature) => Some(x),
        (ProbeView::FstabReference(x), Fact::FstabReference) => Some(x),
        (ProbeView::VgExists(x), Fact::Vg) => Some(x),
        (ProbeView::PathExists(x), Fact::Path) => Some(x),
        (ProbeView::FullDisk(x), Fact::FullDisk) => Some(x),
        (ProbeView::MountActive(x), Fact::Mount) => Some(x),
        (ProbeView::SwapActive(x), Fact::Swap) => Some(x),
        _ => None,
    }
}

/// The pair of names a probe asks about, when it asks for fact `k`.
pub open spec fn pair_fact_of(p: ProbeView, k: PairFact) -> Option<(Seq<char>, Seq<char>)> {
    match (p, k) {
        (ProbeView::LvExists(v, n), PairFact::Lv) => Some((v, n)),
        (ProbeView::FstabEntry(d, m), PairFact::FstabEntry) => Some((d, m)),
        _ => None,
    }
}

/// The answer given to probe `i`: whether the fact holds and, for a device
/// size, the size read. A probe left without an answer counts as a fact
/// not found.
pub open spec fn answer_at(answers: Seq<(bool, Option<u64>)>, i: int) -> (bool, Option<u64>) {
    if 0 <= i < answers.len() {
        answers[i]
    } else {
        (false, None)
    }
}

/// The devices or names found to have fact `k`, answer by answer.
pub open spec fn found_facts(ps: Seq<ProbeView>, answers: Seq<(bool, Option<u64>)>, k: Fact) -> Set<Seq<char>>
    decreases ps.len(),
{
    if ps.len() == 0 {
        Set::empty()
    } else {
        let i = ps.len() - 1;
        add_if(
            found_facts(ps.drop_last(), answers, k),
            answer_at(answers, i).0 && fact_of(ps.last(), k) is Some,
            fact_of(ps.last(), k).unwrap(),
        )
    }
}

/// The pairs found to have fact `k`, answer by answer.
pub open spec fn found_pairs(
    ps: Seq<ProbeView>,
    answers: Seq<(bool, Option<u64>)>,
    k: PairFact,
) -> Set<(Seq<char>, Seq<char>)>
    decreases ps.len(),
{
    if ps.len() == 0 {
        Set::empty()
    } else {
        let i = ps.len() - 1;
        add_pair_if(
            found_pairs(ps.drop_last(), answers, k),
            answer_at(answers, i).0 && pair_fact_of(ps.last(), k) is Some,
            pair_fact_of(ps.last(), k).unwrap(),
        )
    }
}

/// The device sizes read, a later reading of a device replacing an earlier
/// one.
pub open spec fn found_sizes(ps: Seq<ProbeView>, answers: Seq<(bool, Option<u64>)>) -> Map<Seq<char>, u64>
    decreases ps.len(),
{
    if ps.len() == 0 {
        Map::empty()
    } else {
        let i = ps.len() - 1;
        let prev = found_sizes(ps.drop_last(), answers);
        match (ps.last(), answer_at(answers, i).1) {
            (ProbeView::DeviceSize(x), Some(z)) => prev.insert(x, z),
            _ => prev,
        }
    }
}

/// A device or name has fact `k` in the snapshot exactly when some probe
/// asking for that fact about it was answered yes.
pub proof fn lemma_found_facts(ps: Seq<ProbeView>, answers: Seq<(bool, Option<u64>)>, k: Fact, x: Seq<char>)
    ensures
        found_facts(ps, answers, k).contains(x) <==> exists|i: int|
            0 <= i < ps.len() && answer_at(answers, i).0 && fact_of(#[trigger] ps[i], k) == Some(x),
    decreases ps.len(),
{
    if ps.len() > 0 {
        let p = ps.drop_last();
        lemma_found_facts(p, answers, k, x);
        assert(forall|i: int| 0 <= i < p.len() ==> p[i] == ps[i]);
        if exists|i: int| 0 <= i < ps.len() && answer_at(answers, i).0 && fact_of(#[trigger] ps[i], k) == Some(x) {
            let i = choose|i: int| 0 <= i < ps.len() && answer_at(answers, i).0 && fact_of(#[trigger] ps[i], k) == Some(x);
            if i < p.len() {
                assert(fact_of(p[i], k) == Some(x));
            }
        }
        if found_facts(ps, answers, k).contains(x) && !found_facts(p, answers, k).contains(x) {
            assert(fact_of(ps[ps.len() - 1], k) == Some(x));
        }
    }
}

/// A pair has fact `k` in the snapshot exactly when some probe asking for
/// that fact about it was answered yes.
pub proof fn lemma_found_pairs(
    ps: Seq<ProbeView>,
    answers: Seq<(bool, Option<u64>)>,
    k: PairFact,
    x: (Seq<char>, Seq<char>),
)
    ensures
        found_pairs(ps, answers, k).contains(x) <==> exists|i: int|
            0 <= i < ps.len() && answer_at(answers, i).0 && pair_fact_of(#[trigger] ps[i], k) == Some(x),
    decreases ps.len(),
{
    if ps.len() > 0 {
        let p = ps.drop_last();
        lemma_found_pairs(p, answers, k, x);
        assert(forall|i: int| 0 <= i < p.len() ==> p[i] == ps[i]);
        if exists|i: int| 0 <= i < ps.len() && answer_at(answers, i).0 && pair_fact_of(#[trigger] ps[i], k) == Some(x) {
            let i = choose|i: int| 0 <= i < ps.len() && answer_at(answers, i).0 && pair_fact_of(#[trigger] ps[i], k) == Some(x);
            if i < p.len() {
                assert(pair_fact_of(p[i], k) == Some(x));
            }
        }
        if found_pairs(ps, answers, k).contains(x) && !found_pairs(p, answers, k).contains(x) {
            assert(pair_fact_of(ps[ps.len() - 1], k) == Some(x));
        }
    }
}

/// The snapshot that the answers to a draft's probes describe.
pub open spec fn snapshot_of(st: SystemState, ps: Seq<ProbeView>, answers: Seq<(bool, Option<u64>)>) -> bool {
    &&& st.pvs@ == found_facts(ps, answers, Fact::Pv)
    &&& st.filesystems@ == found_facts(ps, answers, Fact::Signature)
    &&& st.fstab_device_refs@ == found_facts(ps, answers, Fact::FstabReference)
    &&& st.vgs@ == found_facts(ps, answers, Fact::Vg)
    &&& st.paths_exist@ == found_facts(ps, answers, Fact::Path)
    &&& st.is_full_disk@ == found_facts(ps, answers, Fact::FullDisk)
    &&& st.mounts@ == found_facts(ps, answers, Fact::Mount)
    &&& st.swaps@ == found_facts(ps, answers, Fact::Swap)
    &&& st.lvs@ == found_pairs(ps, answers, PairFact::Lv)
    &&& st.fstabs@ == found_pairs(ps, answers, PairFact::FstabEntry)
    &&& st.block_device_sizes@ == found_sizes(ps, answers)
}

impl SystemState {
    /// The snapshot for a draft, from the answers to the questions that
    /// `probes_for` raises for it, given in the same order.
    pub fn from_draft(draft: &Draft, answers: &Vec<(bool, Option<u64>)>) -> (r: SystemState)
        ensures
            snapshot_of(r, draft_probes(draft.draft@), answers@),
    {
        let probes = probes_for(draft);
        let ghost ps = probe_views(probes@);
        let mut state = SystemState::new();
        let mut i: usize = 0;
        assert(ps.take(0) =~= Seq::<ProbeView>::empty());
        while i < probes.len()
            invariant
                i <= probes.len(),
                ps == probe_views(probes@),
                snapshot_of(state, ps.take(i as int), answers@),
            decreases probes.len() - i,
        {
            let (found, size) = if i < answers.len() {
                answers[i]
            } else {
                (false, None)
            };
            assert((found, size) == answer_at(answers@, i as int));
            let ghost pt = ps.take(i + 1);
            assert(pt.drop_last() =~= ps.take(i as int));
            assert(pt.last() == probes@[i as int]@);
            state.record(&probes[i], found, size);
            i = i + 1;
        }
        assert(ps.take(probes.len() as int) =~= ps);
        state
    }
}


/// The volume group call lists `x` among its physical volumes.
pub open spec fn lists_pv(c: Call, x: Seq<char>) -> bool {
    c matches Call::VgCreate { pvs, .. } && views(pvs@).contains(x)
}

/// Call `c` is one that asks probe `p`: the question is about a device,
/// name or path that the call names.
pub open spec fn call_explains(c: Call, p: ProbeView) -> bool {
    match p {
        ProbeView::PvExists(x) => c matches Call::PvCreate(q) && q@ == x,
        ProbeView::Signature(x) => (c matches Call::PvCreate(q) && q@ == x) || lists_pv(c, x) || (
        c matches Call::Mkfs { device, .. } && device@ == x),
        ProbeView::FstabReference(x) => (c matches Call::PvCreate(q) && q@ == x) || lists_pv(c, x),
        ProbeView::VgExists(x) => c matches Call::VgCreate { name, .. } && name@ == x,
        ProbeView::PathExists(x) => lists_pv(c, x) || (c matches Call::Mkdir(q) && q@ == x),
        ProbeView::DeviceSize(x) => lists_pv(c, x),
        ProbeView::FullDisk(x) => lists_pv(c, x),
        ProbeView::LvExists(v, n) => c matches Call::LvCreate { vg, name, .. } && vg@ == v && name@ == n,
        ProbeView::MountActive(x) => c matches Call::Mount { path, .. } && path@ == x,
        ProbeView::FstabEntry(d, m) => c matches Call::Fstab { device, path, .. } && device@ == d && path@ == m,
        ProbeView::SwapActive(x) => c matches Call::MkSwap(q) && q@ == x,
    }
}

/// Some call of `s` asks probe `p`.
pub open spec fn asked_by(s: Seq<Call>, p: ProbeView) -> bool {
    exists|j: int| 0 <= j < s.len() && call_explains(#[trigger] s[j], p)
}

proof fn lemma_members_probes(pvs: Seq<Seq<char>>, i: int)
    requires
        0 <= i < members_probes(pvs).len(),
    ensures
        exists|m: int| 0 <= m < pvs.len() && #[trigger] member_probes(pvs[m]).contains(members_probes(pvs)[i]),
    decreases pvs.len(),
{
    let p = pvs.drop_last();
    let a = members_probes(p);
    let b = member_probes(pvs.last());
    if i < a.len() {
        lemma_members_probes(p, i);
        let m = choose|m: int| 0 <= m < p.len() && #[trigger] member_probes(p[m]).contains(a[i]);
        assert(p[m] == pvs[m]);
        assert(member_probes(pvs[m]).contains(members_probes(pvs)[i]));
    } else {
        assert(members_probes(pvs)[i] == b[i - a.len()]);
        assert(b.contains(members_probes(pvs)[i]));
        assert(pvs[pvs.len() - 1] == pvs.last());
    }
}

proof fn lemma_call_probes_explained(c: Call, t: int)
    requires
        0 <= t < call_probes(c).len(),
    ensures
        call_explains(c, call_probes(c)[t]),
{
    if let Call::VgCreate { name, pvs, pe_size } = c {
        if t > 0 {
            let pv = views(pvs@);
            lemma_members_probes(pv, t - 1);
            let m = choose|m: int| 0 <= m < pv.len() && #[trigger] member_probes(pv[m]).contains(members_probes(pv)[t - 1]);
            assert(call_probes(c)[t] == members_probes(pv)[t - 1]);
            assert(pv.contains(pv[m]));
        }
    }
}

/// Every probe raised for a draft is asked by one of its calls.
pub proof fn lemma_probes_asked(s: Seq<Call>, i: int)
    requires
        0 <= i < draft_probes(s).len(),
    ensures
        asked_by(s, draft_probes(s)[i]),
    decreases s.len(),
{
    let p = s.drop_last();
    let a = draft_probes(p);
    let b = call_probes(s.last());
    if i < a.len() {
        lemma_probes_asked(p, i);
        let j = choose|j: int| 0 <= j < p.len() && call_explains(#[trigger] p[j], a[i]);
        assert(p[j] == s[j]);
        assert(draft_probes(s)[i] == a[i]);
    } else {
        assert(draft_probes(s)[i] == b[i - a.len()]);
        lemma_call_probes_explained(s.last(), i - a.len());
        assert(s[s.len() - 1] == s.last());
    }
}

proof fn lemma_found_sizes_asked(ps: Seq<ProbeView>, answers: Seq<(bool, Option<u64>)>, x: Seq<char>)
    requires
        found_sizes(ps, answers).dom().contains(x),
    ensures
        exists|i: int| 0 <= i < ps.len() && #[trigger] ps[i] == ProbeView::DeviceSize(x),
    decreases ps.len(),
{
    let p = ps.drop_last();
    if found_sizes(p, answers).dom().contains(x) && !(ps.last() == ProbeView::DeviceSize(x)) {
        lemma_found_sizes_asked(p, answers, x);
        let i = choose|i: int| 0 <= i < p.len() && #[trigger] p[i] == ProbeView::DeviceSize(x);
        assert(ps[i] == p[i]);
    } else {
        assert(ps[ps.len() - 1] == ps.last());
    }
}

/// Every fact of a snapshot built for a draft is about a device, name or
/// path that a call of the draft names, through the call that asks it: a
/// physical volume only for a `PvCreate` of it, a logical volume only for
/// an `LvCreate`, a device size only for a physical volume that a volume
/// group lists, and so on (`call_explains`).
pub proof fn lemma_snapshot_asked(
    s: Seq<Call>,
    answers: Seq<(bool, Option<u64>)>,
    st: SystemState,
    x: Seq<char>,
    y: (Seq<char>, Seq<char>),
)
    requires
        snapshot_of(st, draft_probes(s), answers),
    ensures
        st.pvs@.contains(x) ==> asked_by(s, ProbeView::PvExists(x)),
        st.filesystems@.contains(x) ==> asked_by(s, ProbeView::Signature(x)),
        st.fstab_device_refs@.contains(x) ==> asked_by(s, ProbeView::FstabReference(x)),
        st.vgs@.contains(x) ==> asked_by(s, ProbeView::VgExists(x)),
        st.paths_exist@.contains(x) ==> asked_by(s, ProbeView::PathExists(x)),
        st.is_full_disk@.contains(x) ==> asked_by(s, ProbeView::FullDisk(x)),
        st.mounts@.contains(x) ==> asked_by(s, ProbeView::MountActive(x)),
        st.swaps@.contains(x) ==> asked_by(s, ProbeView::SwapActive(x)),
        st.lvs@.contains(y) ==> asked_by(s, ProbeView::LvExists(y.0, y.1)),
        st.fstabs@.contains(y) ==> asked_by(s, ProbeView::FstabEntry(y.0, y.1)),
        st.block_device_sizes@.dom().contains(x) ==> asked_by(s, ProbeView::DeviceSize(x)),
{
    let ps = draft_probes(s);
    lemma_found_facts(ps, answers, Fact::Pv, x);
    lemma_found_facts(ps, answers, Fact::Signature, x);
    lemma_found_facts(ps, answers, Fact::FstabReference, x);
    lemma_found_facts(ps, answers, Fact::Vg, x);
    lemma_found_facts(ps, answers, Fact::Path, x);
    lemma_found_facts(ps, answers, Fact::FullDisk, x);
    lemma_found_facts(ps, answers, Fact::Mount, x);
    lemma_found_facts(ps, answers, Fact::Swap, x);
    lemma_found_pairs(ps, answers, PairFact::Lv, y);
    lemma_found_pairs(ps, answers, PairFact::FstabEntry, y);
    assert forall|i: int| 0 <= i < ps.len() implies asked_by(s, #[trigger] ps[i]) by {
        lemma_probes_asked(s, i);
    }
    if st.block_device_sizes@.dom().contains(x) {
        lemma_found_sizes_asked(ps, answers, x);
    }
}

} // verus!
