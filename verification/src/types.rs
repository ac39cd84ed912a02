//! The domain model: sizes, filesystems, requests, planned calls, drafts
//! and execution plans.

use vstd::prelude::*;
use crate::text::{concat3, decimal, decimal_text, views};

verus! {

/// A percentage between 1 and 100 inclusive.
#[derive(Debug, Clone, Copy, PartialEq, Eq, Structural)]
pub struct ValidPercentage(u8);

pub open spec fn percentage_range_message(val: u8) -> Seq<char> {
    "Percentage must be between 1 and 100, got "@ + decimal(val as nat) + "%"@
}

impl ValidPercentage {
    #[verifier::type_invariant]
    spec fn in_range(self) -> bool {
        1 <= self.0 <= 100
    }

    /// The percentage held.
    pub closed spec fn value(self) -> u8 {
        self.0
    }

    /// The percentage that holds `v` (meaningful for `v` in 1..=100).
    pub closed spec fn from_value(v: u8) -> ValidPercentage {
        ValidPercentage(v)
    }

    pub broadcast proof fn lemma_from_value(v: u8)
        ensures
            #[trigger] ValidPercentage::from_value(v).value() == v,
    {
    }

    pub broadcast proof fn lemma_value_determines(p: ValidPercentage)
        ensures
            #[trigger] ValidPercentage::from_value(p.value()) == p,
    {
    }

    /// Accepts exactly the values 1 to 100.
    pub fn new(val: u8) -> (r: Result<Self, String>)
        ensures
            1 <= val <= 100 ==> r == Ok::<Self, String>(ValidPercentage::from_value(val)),
            !(1 <= val <= 100) ==> (r matches Err(e) && e@ == percentage_range_message(val)),
    {
        if 1 <= val && val <= 100 {
            Ok(ValidPercentage(val))
        } else {
            let d = decimal_text(val as u128);
            Err(concat3("Percentage must be between 1 and 100, got ", d.as_str(), "%"))
        }
    }

    pub fn get(&self) -> (r: u8)
        ensures
            r == self.value(),
            1 <= r <= 100,
    {
        proof {
            use_type_invariant(self);
        }
        self.0
    }
}

/// What a percentage size is taken of.
#[derive(Debug, Clone, Copy, PartialEq, Eq, Structural)]
pub enum PercentTarget {
    Free,
    Vg,
    Pvs,
}

/// A size, absolute in some unit, in extents, or relative to the volume
/// group.
#[derive(Debug, Clone, Copy, PartialEq, Eq, Structural)]
pub enum SizeUnit {
    Bytes(u64),
    Sectors(u64),
    Kilobytes(u64),
    Megabytes(u64),
    Gigabytes(u64),
    Terabytes(u64),
    Petabytes(u64),
    Exabytes(u64),
    Percentage(ValidPercentage, PercentTarget),
    Extents(u64),
}

/// The number of bytes of an absolute size; none for a percentage or a
/// count of extents.
pub open spec fn size_bytes(u: SizeUnit) -> Option<nat> {
    match u {
        SizeUnit::Bytes(b) => Some(b as nat),
        SizeUnit::Sectors(s) => Some(s as nat * 512),
        SizeUnit::Kilobytes(k) => Some(k as nat * 1024),
        SizeUnit::Megabytes(m) => Some(m as nat * 1_048_576),
        SizeUnit::Gigabytes(g) => Some(g as nat * 1_073_741_824),
        SizeUnit::Terabytes(t) => Some(t as nat * 1_099_511_627_776),
        SizeUnit::Petabytes(p) => Some(p as nat * 1_125_899_906_842_624),
        SizeUnit::Exabytes(e) => Some(e as nat * 1_152_921_504_606_846_976),
        _ => None,
    }
}

pub open spec fn percentage_bytes_message() -> Seq<char> {
    "Cannot calculate raw bytes from a Percentage without Volume Group context."@
}

pub open spec fn extents_bytes_message() -> Seq<char> {
    "Cannot calculate raw bytes from Extents without knowing the Physical Extent (PE) size."@
}

/// `to_bytes` as a mathematical function.
pub open spec fn to_bytes_spec(u: SizeUnit) -> Result<nat, Seq<char>> {
    match u {
        SizeUnit::Percentage(_, _) => Err(percentage_bytes_message()),
        SizeUnit::Extents(_) => Err(extents_bytes_message()),
        _ => Ok(size_bytes(u).unwrap()),
    }
}

impl SizeUnit {
    /// Every percentage held lies in 1..=100.
    pub open spec fn wf(self) -> bool {
        match self {
            SizeUnit::Percentage(p, _) => 1 <= p.value() <= 100,
            _ => true,
        }
    }

    pub open spec fn is_absolute(self) -> bool {
        size_bytes(self) is Some
    }

    /// The size in bytes, for the absolute units; exact and free of
    /// overflow for every `u64` count.
    pub fn to_bytes(&self) -> (r: Result<u128, String>)
        ensures
            r matches Ok(b) ==> to_bytes_spec(*self) == Ok::<nat, Seq<char>>(b as nat),
            r matches Err(e) ==> to_bytes_spec(*self) == Err::<nat, Seq<char>>(e@),
    {
        match self {
            SizeUnit::Bytes(b) => Ok(*b as u128),
            SizeUnit::Sectors(s) => Ok((*s as u128) * 512),
            SizeUnit::Kilobytes(k) => Ok((*k as u128) * 1024),
            SizeUnit::Megabytes(m) => Ok((*m as u128) * 1_048_576),
            SizeUnit::Gigabytes(g) => Ok((*g as u128) * 1_073_741_824),
            SizeUnit::Terabytes(t) => Ok((*t as u128) * 1_099_511_627_776),
            SizeUnit::Petabytes(p) => Ok((*p as u128) * 1_125_899_906_842_624),
            SizeUnit::Exabytes(e) => Ok((*e as u128) * 1_152_921_504_606_846_976),
            SizeUnit::Percentage(_, _) => Err(
                String::from_str(
                    "Cannot calculate raw bytes from a Percentage without Volume Group context.",
                ),
            ),
            SizeUnit::Extents(_) => Err(
                String::from_str(
                    "Cannot calculate raw bytes from Extents without knowing the Physical Extent (PE) size.",
                ),
            ),
        }
    }
}

/// Each unit is 1024 times the one below it, from bytes up to exabytes; a
/// sector is 512 bytes; a percentage and a count of extents have no size
/// in bytes.
pub proof fn lemma_unit_ladder(n: u64, p: ValidPercentage, t: PercentTarget)
    ensures
        size_bytes(SizeUnit::Bytes(n)) == Some(n as nat),
        size_bytes(SizeUnit::Sectors(n)) == Some(512 * (n as nat)),
        size_bytes(SizeUnit::Kilobytes(n)) == Some(1024 * size_bytes(SizeUnit::Bytes(n)).unwrap()),
        size_bytes(SizeUnit::Megabytes(n)) == Some(1024 * size_bytes(SizeUnit::Kilobytes(n)).unwrap()),
        size_bytes(SizeUnit::Gigabytes(n)) == Some(1024 * size_bytes(SizeUnit::Megabytes(n)).unwrap()),
        size_bytes(SizeUnit::Terabytes(n)) == Some(1024 * size_bytes(SizeUnit::Gigabytes(n)).unwrap()),
        size_bytes(SizeUnit::Petabytes(n)) == Some(1024 * size_bytes(SizeUnit::Terabytes(n)).unwrap()),
        size_bytes(SizeUnit::Exabytes(n)) == Some(1024 * size_bytes(SizeUnit::Petabytes(n)).unwrap()),
        size_bytes(SizeUnit::Extents(n)) is None,
        size_bytes(SizeUnit::Percentage(p, t)) is None,
{
    let m = n as nat;
    assert(1024 * (m * 1024) == m * 1_048_576) by (nonlinear_arith);
    assert(1024 * (m * 1_048_576) == m * 1_073_741_824) by (nonlinear_arith);
    assert(1024 * (m * 1_073_741_824) == m * 1_099_511_627_776) by (nonlinear_arith);
    assert(1024 * (m * 1_099_511_627_776) == m * 1_125_899_906_842_624) by (nonlinear_arith);
    assert(1024 * (m * 1_125_899_906_842_624) == m * 1_152_921_504_606_846_976) by (nonlinear_arith);
}

/// The filesystems a logical volume can be formatted with.
#[derive(Debug, Clone, Copy, PartialEq, Eq, Structural)]
pub enum Filesystem {
    Xfs,
    Ext4,
    Btrfs,
    Vfat,
    Swap,
    F2FS,
    Ntfs,
    Exfat,
}

/// A filesystem and, optionally, where to mount it.
#[derive(Debug, Clone, PartialEq, Eq)]
pub struct FsMount {
    pub fs: Filesystem,
    pub mount_path: Option<String>,
}

/// One requested logical volume.
#[derive(Debug, Clone, PartialEq, Eq)]
pub struct LvRequest {
    pub name: String,
    pub size: SizeUnit,
    pub fs: Option<FsMount>,
}

pub struct FsMountView {
    pub fs: Filesystem,
    pub mount_path: Option<Seq<char>>,
}

pub struct LvRequestView {
    pub name: Seq<char>,
    pub size: SizeUnit,
    pub fs: Option<FsMountView>,
}

pub open spec fn opt_text(o: Option<String>) -> Option<Seq<char>> {
    match o {
        Some(s) => Some(s@),
        None => None,
    }
}

impl View for FsMount {
    type V = FsMountView;

    open spec fn view(&self) -> FsMountView {
        FsMountView { fs: self.fs, mount_path: opt_text(self.mount_path) }
    }
}

impl View for LvRequest {
    type V = LvRequestView;

    open spec fn view(&self) -> LvRequestView {
        LvRequestView {
            name: self.name@,
            size: self.size,
            fs: match self.fs {
                Some(m) => Some(m@),
                None => None,
            },
        }
    }
}

/// A command requested on the command line.
#[derive(Debug)]
pub enum Command {
    Provision { pvs: Vec<String>, vg_name: String, pe_size: SizeUnit, lvs: Vec<LvRequest> },
}

/// A command and whether it runs without asking.
#[derive(Debug)]
pub struct Action {
    pub command: Command,
    pub auto_confirm: bool,
}

/// One step of a plan, as the system will carry it out.
#[derive(Debug, Clone, Eq, PartialEq)]
pub enum Call {
    PvCreate(String),
    VgCreate { name: String, pvs: Vec<String>, pe_size: SizeUnit },
    LvCreate { vg: String, name: String, size: SizeUnit },
    Mkfs { device: String, fs: Filesystem },
    MkSwap(String),
    Mkdir(String),
    Mount { device: String, path: String },
    Fstab { device: String, path: String, fs: Filesystem },
}

pub enum CallView {
    PvCreate(Seq<char>),
    VgCreate { name: Seq<char>, pvs: Seq<Seq<char>>, pe_size: SizeUnit },
    LvCreate { vg: Seq<char>, name: Seq<char>, size: SizeUnit },
    Mkfs { device: Seq<char>, fs: Filesystem },
    MkSwap(Seq<char>),
    Mkdir(Seq<char>),
    Mount { device: Seq<char>, path: Seq<char> },
    Fstab { device: Seq<char>, path: Seq<char>, fs: Filesystem },
}

impl View for Call {
    type V = CallView;

    open spec fn view(&self) -> CallView {
        match self {
            Call::PvCreate(p) => CallView::PvCreate(p@),
            Call::VgCreate { name, pvs, pe_size } => CallView::VgCreate {
                name: name@,
                pvs: views(pvs@),
                pe_size: *pe_size,
            },
            Call::LvCreate { vg, name, size } => CallView::LvCreate {
                vg: vg@,
                name: name@,
                size: *size,
            },
            Call::Mkfs { device, fs } => CallView::Mkfs { device: device@, fs: *fs },
            Call::MkSwap(d) => CallView::MkSwap(d@),
            Call::Mkdir(p) => CallView::Mkdir(p@),
            Call::Mount { device, path } => CallView::Mount { device: device@, path: path@ },
            Call::Fstab { device, path, fs } => CallView::Fstab {
                device: device@,
                path: path@,
                fs: *fs,
            },
        }
    }
}

/// The views of a sequence of calls.
pub open spec fn call_views(s: Seq<Call>) -> Seq<CallView> {
    s.map_values(|c: Call| c@)
}

/// Where a draft stands in its lifecycle.
#[derive(Debug, Clone, Copy, PartialEq, Eq, Structural)]
pub enum DraftStatus {
    Pending,
    Done,
    Clean,
    Ready,
    Dirty,
    Invalid,
}

/// A plan together with its kind, its lifecycle status and the warnings
/// raised on it.
#[derive(Debug, Clone)]
pub struct Draft {
    pub auto_confirm: bool,
    pub draft_type: String,
    pub draft: Vec<Call>,
    pub status: DraftStatus,
    pub warnings: Vec<String>,
}

/// The shell commands of a plan and whether they may run.
#[derive(Debug)]
pub struct Exec {
    pub list: Vec<String>,
    pub auto_confirm: bool,
    pub is_allowed: bool,
    pub warnings: Vec<String>,
}

} // verus!
