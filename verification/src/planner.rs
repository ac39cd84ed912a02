//! Lowering a provisioning request into an ordered plan of calls.

use vstd::prelude::*;
use crate::checks::{calls_unique, lemma_uniqueness, same_target, uniq_scan};
use crate::text::{concat3, views};
use crate::types::{
    call_views, Action, Call, CallView, Command, Draft, DraftStatus, Filesystem, LvRequest,
    LvRequestView, SizeUnit,
};

verus! {

/// The device node of a logical volume.
pub open spec fn device_path(vg: Seq<char>, name: Seq<char>) -> Seq<char> {
    "/dev/"@ + vg + "/"@ + name
}

/// The mount point written to `/etc/fstab` for swap space.
pub open spec fn swap_mount_point() -> Seq<char> {
    "none"@
}

/// The calls for one logical volume: create it; then, if it has a
/// filesystem, either make and register swap space (never mounted), or
/// format it and, given a mount path, create the directory, mount it and
/// register it in `/etc/fstab`.
pub open spec fn lv_calls(vg: Seq<char>, r: LvRequestView) -> Seq<CallView> {
    let dev = device_path(vg, r.name);
    let create = seq![CallView::LvCreate { vg, name: r.name, size: r.size }];
    match r.fs {
        None => create,
        Some(m) => if m.fs == Filesystem::Swap {
            create + seq![
                CallView::MkSwap(dev),
                CallView::Fstab { device: dev, path: swap_mount_point(), fs: Filesystem::Swap },
            ]
        } else {
            create.push(CallView::Mkfs { device: dev, fs: m.fs }) + match m.mount_path {
                None => Seq::<CallView>::empty(),
                Some(p) => seq![
                    CallView::Mkdir(p),
                    CallView::Mount { device: dev, path: p },
                    CallView::Fstab { device: dev, path: p, fs: m.fs },
                ],
            }
        },
    }
}

pub open spec fn lvs_calls(vg: Seq<char>, lvs: Seq<LvRequestView>) -> Seq<CallView>
    decreases lvs.len(),
{
    if lvs.len() == 0 {
        Seq::empty()
    } else {
        lvs_calls(vg, lvs.drop_last()) + lv_calls(vg, lvs.last())
    }
}

pub open spec fn request_views(lvs: Seq<LvRequest>) -> Seq<LvRequestView> {
    lvs.map_values(|r: LvRequest| r@)
}

pub open spec fn pv_calls(pvs: Seq<Seq<char>>) -> Seq<CallView> {
    pvs.map_values(|p: Seq<char>| CallView::PvCreate(p))
}

/// The provisioning plan: every physical volume, then the volume group over
/// them, then each logical volume in turn.
pub open spec fn provision_plan(
    pvs: Seq<Seq<char>>,
    vg: Seq<char>,
    pe_size: SizeUnit,
    lvs: Seq<LvRequestView>,
) -> Seq<CallView> {
    pv_calls(pvs) + seq![CallView::VgCreate { name: vg, pvs, pe_size }] + lvs_calls(vg, lvs)
}

fn lv_plan(vg: &String, lv: &LvRequest, plan: &mut Vec<Call>)
    ensures
        call_views(final(plan)@) == call_views(old(plan)@) + lv_calls(vg@, lv@),
{
    let ghost before = call_views(plan@);
    let mut dev = concat3("/dev/", vg.as_str(), "/");
    dev.append(lv.name.as_str());
    let ghost d = dev@;
    assert(d == device_path(vg@, lv.name@));
    plan.push(Call::LvCreate { vg: vg.clone(), name: lv.name.clone(), size: lv.size });
    assert(call_views(plan@) =~= before + seq![CallView::LvCreate { vg: vg@, name: lv.name@, size: lv.size }]);
    match &lv.fs {
        None => {},
        Some(m) => {
            let ghost mid = call_views(plan@);
            match m.fs {
                Filesystem::Swap => {
                    plan.push(Call::MkSwap(dev.clone()));
                    plan.push(
                        Call::Fstab { device: dev, path: String::from_str("none"), fs: Filesystem::Swap },
                    );
                    assert(call_views(plan@) =~= mid + seq![
                        CallView::MkSwap(d),
                        CallView::Fstab { device: d, path: swap_mount_point(), fs: Filesystem::Swap },
                    ]);
                },
                _ => {
                    plan.push(Call::Mkfs { device: dev.clone(), fs: m.fs });
                    let ghost mid2 = call_views(plan@);
                    assert(mid2 =~= mid.push(CallView::Mkfs { device: d, fs: m.fs }));
                    match &m.mount_path {
                        None => {
                            assert(call_views(plan@) =~= mid2 + Seq::<CallView>::empty());
                        },
                        Some(path) => {
                            plan.push(Call::Mkdir(path.clone()));
                            plan.push(Call::Mount { device: dev.clone(), path: path.clone() });
                            plan.push(Call::Fstab { device: dev, path: path.clone(), fs: m.fs });
                            assert(call_views(plan@) =~= mid2 + seq![
                                CallView::Mkdir(path@),
                                CallView::Mount { device: d, path: path@ },
                                CallView::Fstab { device: d, path: path@, fs: m.fs },
                            ]);
                        },
                    }
                },
            }
        },
    }
}

/// Plans the provisioning of raw devices into a volume group and its
/// logical volumes.
pub fn plan_provision(
    pvs: Vec<String>,
    vg_name: String,
    pe_size: SizeUnit,
    lvs: Vec<LvRequest>,
) -> (r: Result<Vec<Call>, String>)
    ensures
        r matches Ok(plan) && call_views(plan@) == provision_plan(
            views(pvs@),
            vg_name@,
            pe_size,
            request_views(lvs@),
        ),
{
    let mut plan: Vec<Call> = Vec::new();
    let ghost pv = views(pvs@);
    let mut i: usize = 0;
    while i < pvs.len()
        invariant
            i <= pvs.len(),
            pv == views(pvs@),
            call_views(plan@) == pv_calls(pv.take(i as int)),
        decreases pvs.len() - i,
    {
        plan.push(Call::PvCreate(pvs[i].clone()));
        assert(pv_calls(pv.take(i + 1)) =~= pv_calls(pv.take(i as int)).push(
            CallView::PvCreate(pvs@[i as int]@),
        ));
        assert(call_views(plan@) =~= pv_calls(pv.take(i + 1)));
        i = i + 1;
    }
    assert(pv.take(pvs.len() as int) =~= pv);
    let ghost after_pvs = call_views(plan@);
    plan.push(Call::VgCreate { name: vg_name.clone(), pvs, pe_size });
    assert(call_views(plan@) =~= after_pvs + seq![CallView::VgCreate { name: vg_name@, pvs: pv, pe_size }]);
    let ghost head = call_views(plan@);
    let ghost rv = request_views(lvs@);
    let mut j: usize = 0;
    assert(head =~= head + lvs_calls(vg_name@, rv.take(0)));
    while j < lvs.len()
        invariant
            j <= lvs.len(),
            rv == request_views(lvs@),
            call_views(plan@) == head + lvs_calls(vg_name@, rv.take(j as int)),
        decreases lvs.len() - j,
    {
        lv_plan(&vg_name, &lvs[j], &mut plan);
        assert(rv.take(j + 1).drop_last() =~= rv.take(j as int));
        assert(rv.take(j + 1).last() == lvs@[j as int]@);
        assert(call_views(plan@) =~= head + lvs_calls(vg_name@, rv.take(j + 1)));
        j = j + 1;
    }
    assert(rv.take(lvs.len() as int) =~= rv);
    Ok(plan)
}

/// The draft for an action: its plan, of kind `provision`, pending
/// verification, with no warnings yet.
pub fn plan(action: Action) -> (r: Result<Draft, String>)
    ensures
        r matches Ok(d) && d.auto_confirm == action.auto_confirm && d.draft_type@ == "provision"@
            && d.status == DraftStatus::Pending && d.warnings@.len() == 0 && match action.command {
            Command::Provision { pvs, vg_name, pe_size, lvs } => call_views(d.draft@)
                == provision_plan(views(pvs@), vg_name@, pe_size, request_views(lvs@)),
        },
{
    let auto_confirm = action.auto_confirm;
    match action.command {
        Command::Provision { pvs, vg_name, pe_size, lvs } => {
            let draft = match plan_provision(pvs, vg_name, pe_size, lvs) {
                Ok(d) => d,
                Err(e) => {
                    return Err(e);
                },
            };
            Ok(
                Draft {
                    auto_confirm,
                    draft_type: String::from_str("provision"),
                    draft,
                    status: DraftStatus::Pending,
                    warnings: Vec::new(),
                },
            )
        },
    }
}


/// Two call views that declare the same physical volume or the same
/// logical volume of a volume group.
pub open spec fn same_target_view(a: CallView, b: CallView) -> bool {
    match a {
        CallView::PvCreate(p) => b matches CallView::PvCreate(q) && p == q,
        CallView::LvCreate { vg, name, .. } => b matches CallView::LvCreate { vg: v2, name: n2, .. } && vg
            == v2 && name == n2,
        _ => false,
    }
}

pub open spec fn views_unique(cs: Seq<CallView>) -> bool {
    forall|i: int, j: int| 0 <= i < j < cs.len() ==> !same_target_view(#[trigger] cs[i], #[trigger] cs[j])
}

pub open spec fn distinct_texts(s: Seq<Seq<char>>) -> bool {
    forall|i: int, j: int| 0 <= i < j < s.len() ==> #[trigger] s[i] != #[trigger] s[j]
}

pub open spec fn distinct_names(lvs: Seq<LvRequestView>) -> bool {
    forall|i: int, j: int| 0 <= i < j < lvs.len() ==> (#[trigger] lvs[i]).name != (#[trigger] lvs[j]).name
}

/// The logical volumes that some call of `cs` creates in `vg` are named
/// among `lvs`, and no call of `cs` creates a physical volume.
pub open spec fn creates_only(cs: Seq<CallView>, vg: Seq<char>, lvs: Seq<LvRequestView>) -> bool {
    forall|i: int|
        0 <= i < cs.len() ==> !(#[trigger] cs[i] is PvCreate) && (cs[i] matches CallView::LvCreate { vg: v, name, .. } ==> v
            == vg && exists|k: int| 0 <= k < lvs.len() && (#[trigger] lvs[k]).name == name)
}

proof fn lemma_lv_calls_shape(vg: Seq<char>, r: LvRequestView)
    ensures
        lv_calls(vg, r).len() >= 1,
        lv_calls(vg, r)[0] == (CallView::LvCreate { vg, name: r.name, size: r.size }),
        forall|i: int| 1 <= i < lv_calls(vg, r).len() ==> !(#[trigger] lv_calls(vg, r)[i] is PvCreate) && !(lv_calls(vg, r)[i] is LvCreate),
{
}

proof fn lemma_lvs_calls_unique(vg: Seq<char>, lvs: Seq<LvRequestView>)
    requires
        distinct_names(lvs),
    ensures
        views_unique(lvs_calls(vg, lvs)),
        creates_only(lvs_calls(vg, lvs), vg, lvs),
    decreases lvs.len(),
{
    if lvs.len() > 0 {
        let p = lvs.drop_last();
        assert(forall|i: int| 0 <= i < p.len() ==> p[i] == lvs[i]);
        assert(distinct_names(p));
        lemma_lvs_calls_unique(vg, p);
        let a = lvs_calls(vg, p);
        let b = lv_calls(vg, lvs.last());
        lemma_lv_calls_shape(vg, lvs.last());
        let c = lvs_calls(vg, lvs);
        assert(c == a + b);
        assert forall|i: int| 0 <= i < c.len() implies !(#[trigger] c[i] is PvCreate) && (c[i] matches CallView::LvCreate { vg: v, name, .. } ==> v
            == vg && exists|k: int| 0 <= k < lvs.len() && (#[trigger] lvs[k]).name == name) by {
            if i < a.len() {
                assert(c[i] == a[i]);
                if let CallView::LvCreate { vg: v, name, .. } = c[i] {
                    let k = choose|k: int| 0 <= k < p.len() && (#[trigger] p[k]).name == name;
                    assert(lvs[k] == p[k]);
                }
            } else {
                assert(c[i] == b[i - a.len()]);
                if i == a.len() {
                    assert(lvs[lvs.len() - 1] == lvs.last());
                }
            }
        }
        assert forall|i: int, j: int| 0 <= i < j < c.len() implies !same_target_view(#[trigger] c[i], #[trigger] c[j]) by {
            if j < a.len() {
                assert(c[i] == a[i] && c[j] == a[j]);
            } else if i >= a.len() {
                assert(c[i] == b[i - a.len()] && c[j] == b[j - a.len()]);
            } else {
                assert(c[i] == a[i] && c[j] == b[j - a.len()]);
                if same_target_view(c[i], c[j]) {
                    assert(j == a.len());
                    let name = lvs.last().name;
                    let k = choose|k: int| 0 <= k < p.len() && (#[trigger] p[k]).name == name;
                    assert(lvs[k] == p[k]);
                    assert(lvs[lvs.len() - 1] == lvs.last());
                }
            }
        }
    }
}

/// A provisioning plan over distinct devices and distinctly named logical
/// volumes declares nothing twice.
pub proof fn lemma_plan_unique(
    pvs: Seq<Seq<char>>,
    vg: Seq<char>,
    pe_size: SizeUnit,
    lvs: Seq<LvRequestView>,
)
    requires
        distinct_texts(pvs),
        distinct_names(lvs),
    ensures
        views_unique(provision_plan(pvs, vg, pe_size, lvs)),
{
    let a = pv_calls(pvs);
    let v = seq![CallView::VgCreate { name: vg, pvs, pe_size }];
    let l = lvs_calls(vg, lvs);
    lemma_lvs_calls_unique(vg, lvs);
    let c = provision_plan(pvs, vg, pe_size, lvs);
    assert(c == a + v + l);
    let al = a.len() as int;
    assert forall|i: int, j: int| 0 <= i < j < c.len() implies !same_target_view(#[trigger] c[i], #[trigger] c[j]) by {
        if j < al {
            assert(c[i] == a[i] && c[j] == a[j]);
        } else if j == al {
            assert(c[j] == v[0]);
        } else if i > al {
            assert(c[i] == l[i - al - 1] && c[j] == l[j - al - 1]);
        } else if i == al {
            assert(c[i] == v[0]);
        } else {
            assert(c[i] == a[i] && c[j] == l[j - al - 1]);
            assert(!(l[j - al - 1] is PvCreate));
        }
    }
}

/// Calls declare the same target exactly when their views do.
pub proof fn lemma_unique_views(s: Seq<Call>)
    ensures
        calls_unique(s) <==> views_unique(call_views(s)),
{
    let cs = call_views(s);
    assert forall|i: int, j: int| 0 <= i < s.len() && 0 <= j < s.len() implies same_target(s[i], s[j]) == same_target_view(cs[i], cs[j]) by {
        assert(cs[i] == s[i]@);
        assert(cs[j] == s[j]@);
    }
    if calls_unique(s) {
        assert forall|i: int, j: int| 0 <= i < j < cs.len() implies !same_target_view(#[trigger] cs[i], #[trigger] cs[j]) by {
            assert(!same_target(s[i], s[j]));
        }
    }
    if views_unique(cs) {
        assert forall|i: int, j: int| 0 <= i < j < s.len() implies !same_target(#[trigger] s[i], #[trigger] s[j]) by {
            assert(!same_target_view(cs[i], cs[j]));
        }
    }
}

/// A draft planned over distinct devices and distinctly named logical
/// volumes passes the uniqueness check.
pub proof fn lemma_planned_draft_unique(
    calls: Seq<Call>,
    pvs: Seq<Seq<char>>,
    vg: Seq<char>,
    pe_size: SizeUnit,
    lvs: Seq<LvRequestView>,
)
    requires
        call_views(calls) == provision_plan(pvs, vg, pe_size, lvs),
        distinct_texts(pvs),
        distinct_names(lvs),
    ensures
        uniq_scan(calls) is None,
{
    lemma_plan_unique(pvs, vg, pe_size, lvs);
    lemma_unique_views(calls);
    lemma_uniqueness(calls);
}


/// Where the calls of the `k`-th logical volume start in a plan.
pub open spec fn lv_offset(pvs: Seq<Seq<char>>, vg: Seq<char>, lvs: Seq<LvRequestView>, k: int) -> int {
    (pvs.len() + 1 + lvs_calls(vg, lvs.take(k)).len()) as int
}

proof fn lemma_lvs_calls_append(vg: Seq<char>, a: Seq<LvRequestView>, b: Seq<LvRequestView>)
    ensures
        lvs_calls(vg, a + b) == lvs_calls(vg, a) + lvs_calls(vg, b),
    decreases b.len(),
{
    if b.len() == 0 {
        assert(a + b =~= a);
        assert(lvs_calls(vg, a) + lvs_calls(vg, b) =~= lvs_calls(vg, a));
    } else {
        lemma_lvs_calls_append(vg, a, b.drop_last());
        assert((a + b).drop_last() =~= a + b.drop_last());
        assert((a + b).last() == b.last());
        assert(lvs_calls(vg, a + b) =~= lvs_calls(vg, a) + lvs_calls(vg, b));
    }
}

proof fn lemma_no_vg_in_lvs_calls(vg: Seq<char>, lvs: Seq<LvRequestView>)
    ensures
        forall|j: int| 0 <= j < lvs_calls(vg, lvs).len() ==> !(#[trigger] lvs_calls(vg, lvs)[j] is VgCreate),
    decreases lvs.len(),
{
    if lvs.len() > 0 {
        lemma_no_vg_in_lvs_calls(vg, lvs.drop_last());
        let a = lvs_calls(vg, lvs.drop_last());
        let b = lv_calls(vg, lvs.last());
        assert forall|j: int| 0 <= j < (a + b).len() implies !(#[trigger] (a + b)[j] is VgCreate) by {
            if j < a.len() {
                assert((a + b)[j] == a[j]);
            } else {
                assert((a + b)[j] == b[j - a.len()]);
            }
        }
    }
}

/// The plan creates every physical volume first, in order, then the volume
/// group over them, the only one it creates, then the calls of the logical
/// volumes.
pub proof fn lemma_plan_shape(pvs: Seq<Seq<char>>, vg: Seq<char>, pe_size: SizeUnit, lvs: Seq<LvRequestView>)
    ensures
        provision_plan(pvs, vg, pe_size, lvs).len() == pvs.len() + 1 + lvs_calls(vg, lvs).len(),
        forall|i: int| 0 <= i < pvs.len() ==> #[trigger] provision_plan(pvs, vg, pe_size, lvs)[i] == CallView::PvCreate(pvs[i]),
        provision_plan(pvs, vg, pe_size, lvs)[pvs.len() as int] == (CallView::VgCreate { name: vg, pvs, pe_size }),
        forall|j: int|
            0 <= j < provision_plan(pvs, vg, pe_size, lvs).len() && j != pvs.len() ==> !(#[trigger] provision_plan(
                pvs,
                vg,
                pe_size,
                lvs,
            )[j] is VgCreate),
        provision_plan(pvs, vg, pe_size, lvs).skip(pvs.len() + 1int) == lvs_calls(vg, lvs),
{
    let a = pv_calls(pvs);
    let v = seq![CallView::VgCreate { name: vg, pvs, pe_size }];
    let l = lvs_calls(vg, lvs);
    let c = provision_plan(pvs, vg, pe_size, lvs);
    assert(c == a + v + l);
    lemma_no_vg_in_lvs_calls(vg, lvs);
    assert forall|j: int| 0 <= j < c.len() && j != pvs.len() implies !(#[trigger] c[j] is VgCreate) by {
        if j < pvs.len() {
            assert(c[j] == a[j]);
        } else {
            assert(c[j] == l[j - pvs.len() - 1int]);
        }
    }
    assert(c.skip(pvs.len() + 1int) =~= l);
}

/// The calls of each logical volume stand together in the plan, in the
/// order of the requests: those of the `k`-th end where those of the next
/// begin, with its creation.
pub proof fn lemma_plan_lv_blocks(
    pvs: Seq<Seq<char>>,
    vg: Seq<char>,
    pe_size: SizeUnit,
    lvs: Seq<LvRequestView>,
    k: int,
)
    requires
        0 <= k < lvs.len(),
    ensures
        lv_offset(pvs, vg, lvs, k) + lv_calls(vg, lvs[k]).len() == lv_offset(pvs, vg, lvs, k + 1),
        lv_offset(pvs, vg, lvs, k + 1) <= provision_plan(pvs, vg, pe_size, lvs).len(),
        provision_plan(pvs, vg, pe_size, lvs).subrange(lv_offset(pvs, vg, lvs, k), lv_offset(pvs, vg, lvs, k + 1))
            == lv_calls(vg, lvs[k]),
        k + 1 < lvs.len() ==> provision_plan(pvs, vg, pe_size, lvs)[lv_offset(pvs, vg, lvs, k + 1)] == (CallView::LvCreate {
            vg,
            name: lvs[k + 1].name,
            size: lvs[k + 1].size,
        }),
        k + 1 == lvs.len() ==> lv_offset(pvs, vg, lvs, k + 1) == provision_plan(pvs, vg, pe_size, lvs).len(),
{
    let c = provision_plan(pvs, vg, pe_size, lvs);
    lemma_plan_shape(pvs, vg, pe_size, lvs);
    let head = lvs.take(k);
    let rest = lvs.skip(k + 1);
    assert(lvs.take(k + 1).drop_last() =~= head);
    assert(lvs.take(k + 1).last() == lvs[k]);
    let mid = lv_calls(vg, lvs[k]);
    assert(lvs_calls(vg, lvs.take(k + 1)) == lvs_calls(vg, head) + mid);
    assert(lvs =~= lvs.take(k + 1) + rest);
    lemma_lvs_calls_append(vg, lvs.take(k + 1), rest);
    let l = lvs_calls(vg, lvs);
    let a = lvs_calls(vg, head);
    let r = lvs_calls(vg, rest);
    assert(l == a + mid + r);
    let o: int = (pvs.len() + 1 + a.len()) as int;
    assert(c.subrange(o, o + mid.len()) =~= mid) by {
        assert forall|t: int| 0 <= t < mid.len() implies c[o + t] == mid[t] by {
            assert(c.skip(pvs.len() + 1int)[a.len() + t] == c[o + t]);
            assert(l[a.len() + t] == mid[t]);
        }
    }
    if k + 1 < lvs.len() {
        assert(rest =~= seq![lvs[k + 1]] + rest.drop_first());
        lemma_lvs_calls_append(vg, seq![lvs[k + 1]], rest.drop_first());
        assert(seq![lvs[k + 1]].drop_last() =~= Seq::<LvRequestView>::empty());
        lemma_lv_calls_shape(vg, lvs[k + 1]);
        let one = seq![lvs[k + 1]];
        assert(one.last() == lvs[k + 1]);
        assert(lvs_calls(vg, one.drop_last()) =~= Seq::<CallView>::empty());
        assert(lvs_calls(vg, one) =~= lv_calls(vg, lvs[k + 1]));
        assert(r == lv_calls(vg, lvs[k + 1]) + lvs_calls(vg, rest.drop_first()));
        assert(r[0] == lv_calls(vg, lvs[k + 1])[0]);
        assert(c.skip(pvs.len() + 1int)[(a.len() + mid.len()) as int] == c[o + mid.len()]);
        assert(l[(a.len() + mid.len()) as int] == r[0]);
    } else {
        assert(rest.len() == 0);
        assert(r.len() == 0);
    }
}

/// Swap space is made and registered, never formatted, given a directory
/// or mounted.
pub proof fn lemma_swap_never_mounted(vg: Seq<char>, r: LvRequestView)
    requires
        r.fs matches Some(m) && m.fs == Filesystem::Swap,
    ensures
        lv_calls(vg, r) == seq![
            CallView::LvCreate { vg, name: r.name, size: r.size },
            CallView::MkSwap(device_path(vg, r.name)),
            CallView::Fstab { device: device_path(vg, r.name), path: swap_mount_point(), fs: Filesystem::Swap },
        ],
        forall|t: int|
            0 <= t < lv_calls(vg, r).len() ==> !(#[trigger] lv_calls(vg, r)[t] is Mkfs) && !(lv_calls(vg, r)[t] is Mkdir)
                && !(lv_calls(vg, r)[t] is Mount),
{
    assert(lv_calls(vg, r) =~= seq![
        CallView::LvCreate { vg, name: r.name, size: r.size },
        CallView::MkSwap(device_path(vg, r.name)),
        CallView::Fstab { device: device_path(vg, r.name), path: swap_mount_point(), fs: Filesystem::Swap },
    ]);
}


/// A logical volume with a filesystem other than swap is formatted right
/// after it is created, with a mount path or without one: the call after
/// its `LvCreate` is the `Mkfs` of its device node with that filesystem.
pub proof fn lemma_filesystem_made(
    pvs: Seq<Seq<char>>,
    vg: Seq<char>,
    pe_size: SizeUnit,
    lvs: Seq<LvRequestView>,
    k: int,
)
    requires
        0 <= k < lvs.len(),
        lvs[k].fs is Some,
        lvs[k].fs.unwrap().fs != Filesystem::Swap,
    ensures
        lv_offset(pvs, vg, lvs, k) + 1 < provision_plan(pvs, vg, pe_size, lvs).len(),
        provision_plan(pvs, vg, pe_size, lvs)[lv_offset(pvs, vg, lvs, k)] == (CallView::LvCreate {
            vg,
            name: lvs[k].name,
            size: lvs[k].size,
        }),
        provision_plan(pvs, vg, pe_size, lvs)[lv_offset(pvs, vg, lvs, k) + 1] == (CallView::Mkfs {
            device: "/dev/"@ + vg + "/"@ + lvs[k].name,
            fs: lvs[k].fs.unwrap().fs,
        }),
{
    lemma_plan_lv_blocks(pvs, vg, pe_size, lvs, k);
    let c = provision_plan(pvs, vg, pe_size, lvs);
    let o = lv_offset(pvs, vg, lvs, k);
    let b = lv_calls(vg, lvs[k]);
    assert(b.len() >= 2);
    assert(c.subrange(o, o + b.len())[0] == c[o]);
    assert(c.subrange(o, o + b.len())[1] == c[o + 1]);
}

/// A swap logical volume is made swap space right after it is created:
/// the call after its `LvCreate` is the `MkSwap` of its device node.
pub proof fn lemma_swap_made(
    pvs: Seq<Seq<char>>,
    vg: Seq<char>,
    pe_size: SizeUnit,
    lvs: Seq<LvRequestView>,
    k: int,
)
    requires
        0 <= k < lvs.len(),
        lvs[k].fs is Some,
        lvs[k].fs.unwrap().fs == Filesystem::Swap,
    ensures
        lv_offset(pvs, vg, lvs, k) + 1 < provision_plan(pvs, vg, pe_size, lvs).len(),
        provision_plan(pvs, vg, pe_size, lvs)[lv_offset(pvs, vg, lvs, k)] == (CallView::LvCreate {
            vg,
            name: lvs[k].name,
            size: lvs[k].size,
        }),
        provision_plan(pvs, vg, pe_size, lvs)[lv_offset(pvs, vg, lvs, k) + 1] == CallView::MkSwap(
            "/dev/"@ + vg + "/"@ + lvs[k].name,
        ),
{
    lemma_plan_lv_blocks(pvs, vg, pe_size, lvs, k);
    let c = provision_plan(pvs, vg, pe_size, lvs);
    let o = lv_offset(pvs, vg, lvs, k);
    let b = lv_calls(vg, lvs[k]);
    assert(b.len() >= 2);
    assert(c.subrange(o, o + b.len())[0] == c[o]);
    assert(c.subrange(o, o + b.len())[1] == c[o + 1]);
}


/// What follows the format of a logical volume: given a mount path, its
/// directory is made, the volume mounted there and registered in
/// `/etc/fstab`, and nothing else; without one, nothing. Swap space is
/// registered with mount point `none` and nothing else.
pub proof fn lemma_lv_after_format(
    pvs: Seq<Seq<char>>,
    vg: Seq<char>,
    pe_size: SizeUnit,
    lvs: Seq<LvRequestView>,
    k: int,
)
    requires
        0 <= k < lvs.len(),
        lvs[k].fs is Some,
    ensures
        ({
            let c = provision_plan(pvs, vg, pe_size, lvs);
            let o = lv_offset(pvs, vg, lvs, k);
            let dev = "/dev/"@ + vg + "/"@ + lvs[k].name;
            let m = lvs[k].fs.unwrap();
            if m.fs == Filesystem::Swap {
                &&& lv_offset(pvs, vg, lvs, k + 1) == o + 3
                &&& c[o + 2] == (CallView::Fstab { device: dev, path: "none"@, fs: Filesystem::Swap })
            } else {
                match m.mount_path {
                    None => lv_offset(pvs, vg, lvs, k + 1) == o + 2,
                    Some(p) => {
                        &&& lv_offset(pvs, vg, lvs, k + 1) == o + 5
                        &&& c[o + 2] == CallView::Mkdir(p)
                        &&& c[o + 3] == (CallView::Mount { device: dev, path: p })
                        &&& c[o + 4] == (CallView::Fstab { device: dev, path: p, fs: m.fs })
                    },
                }
            }
        }),
{
    lemma_plan_lv_blocks(pvs, vg, pe_size, lvs, k);
    let c = provision_plan(pvs, vg, pe_size, lvs);
    let o = lv_offset(pvs, vg, lvs, k);
    let b = lv_calls(vg, lvs[k]);
    let sub = c.subrange(o, o + b.len());
    let m = lvs[k].fs.unwrap();
    let dev = "/dev/"@ + vg + "/"@ + lvs[k].name;
    if m.fs == Filesystem::Swap {
        assert(b.len() == 3);
        assert(sub[2] == c[o + 2]);
    } else {
        match m.mount_path {
            None => {
                assert(b.len() == 2);
            },
            Some(p) => {
                assert(b.len() == 5);
                assert(sub[2] == c[o + 2]);
                assert(sub[3] == c[o + 3]);
                assert(sub[4] == c[o + 4]);
                assert(b[2] == CallView::Mkdir(p));
                assert(b[3] == (CallView::Mount { device: dev, path: p }));
                assert(b[4] == (CallView::Fstab { device: dev, path: p, fs: m.fs }));
            },
        }
    }
}

} // verus!
