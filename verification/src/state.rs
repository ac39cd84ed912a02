//! What the verifier knows of the live system: small sets and maps of
//! device paths and names, and the snapshot built from probes.

use vstd::prelude::*;
use crate::text::text_eq;

verus! {

/// Whether some string of `s` has the view `y`.
pub open spec fn seq_has(s: Seq<String>, y: Seq<char>) -> bool {
    exists|j: int| 0 <= j < s.len() && s[j]@ == y
}

/// A set of names or paths.
#[derive(Debug, Clone)]
pub struct NameSet {
    items: Vec<String>,
}

impl View for NameSet {
    type V = Set<Seq<char>>;

    closed spec fn view(&self) -> Set<Seq<char>> {
        Set::new(|x: Seq<char>| seq_has(self.items@, x))
    }
}

impl NameSet {
    pub fn new() -> (r: NameSet)
        ensures
            r@ == Set::<Seq<char>>::empty(),
    {
        let r = NameSet { items: Vec::new() };
        assert(r@ =~= Set::<Seq<char>>::empty());
        r
    }

    pub fn insert(&mut self, x: String)
        ensures
            final(self)@ == old(self)@.insert(x@),
    {
        let ghost old_items = self.items@;
        self.items.push(x);
        let ghost n = old_items.len();
        assert forall|y: Seq<char>| #[trigger] seq_has(self.items@, y) <==> (seq_has(old_items, y) || y == x@) by {
            if seq_has(old_items, y) {
                let i = choose|i: int| 0 <= i < n && old_items[i]@ == y;
                assert(self.items@[i] == old_items[i]);
            }
            if seq_has(self.items@, y) {
                let i = choose|i: int| 0 <= i < self.items.len() && self.items@[i]@ == y;
                if i < n {
                    assert(old_items[i] == self.items@[i]);
                }
            }
            if y == x@ {
                assert(self.items@[n as int]@ == y);
            }
        }
        assert(final(self)@ =~= old(self)@.insert(x@));
    }

    pub fn contains(&self, x: &str) -> (r: bool)
        ensures
            r == self@.contains(x@),
    {
        let mut i: usize = 0;
        while i < self.items.len()
            invariant
                i <= self.items.len(),
                forall|j: int| 0 <= j < i ==> self.items@[j]@ != x@,
            decreases self.items.len() - i,
        {
            if text_eq(self.items[i].as_str(), x) {
                assert(self.items@[i as int]@ == x@);
                return true;
            }
            i = i + 1;
        }
        false
    }

    pub fn remove(&mut self, x: &str)
        ensures
            final(self)@ == old(self)@.remove(x@),
    {
        let mut kept: Vec<String> = Vec::new();
        let mut i: usize = 0;
        while i < self.items.len()
            invariant
                i <= self.items.len(),
                forall|y: Seq<char>|
                    #[trigger] seq_has(kept@, y) <==> (y != x@ && seq_has(self.items@.take(i as int), y)),
            decreases self.items.len() - i,
        {
            let item = self.items[i].clone();
            let ghost old_kept = kept@;
            let ghost pre = self.items@.take(i as int);
            let ghost nxt = self.items@.take(i + 1);
            assert(forall|y: Seq<char>| #[trigger] seq_has(old_kept, y) <==> (y != x@ && seq_has(pre, y)));
            if !text_eq(item.as_str(), x) {
                kept.push(item);
            }
            assert forall|y: Seq<char>|
                #[trigger] seq_has(kept@, y) <==> (y != x@ && seq_has(nxt, y)) by {
                if seq_has(kept@, y) {
                    let j = choose|j: int| 0 <= j < kept.len() && kept@[j]@ == y;
                    if j < old_kept.len() {
                        assert(old_kept[j] == kept@[j]);
                        assert(seq_has(old_kept, y));
                        let k = choose|k: int| 0 <= k < pre.len() && pre[k]@ == y;
                        assert(nxt[k] == pre[k]);
                    } else {
                        assert(nxt[i as int]@ == y);
                    }
                }
                if y != x@ && seq_has(nxt, y) {
                    let j = choose|j: int| 0 <= j < nxt.len() && nxt[j]@ == y;
                    if j < i {
                        assert(pre[j] == nxt[j]);
                        assert(seq_has(pre, y));
                        assert(seq_has(old_kept, y));
                        let k = choose|k: int| 0 <= k < old_kept.len() && old_kept[k]@ == y;
                        assert(kept@[k] == old_kept[k]);
                    } else {
                        assert(kept@[old_kept.len() as int]@ == y);
                    }
                }
            }
            i = i + 1;
        }
        assert(self.items@.take(self.items.len() as int) =~= self.items@);
        let ghost before = old(self)@;
        self.items = kept;
        assert(final(self)@ =~= before.remove(x@));
    }
}

/// A set of pairs of names, such as a volume group and a logical volume,
/// or a device and a mount point.
#[derive(Debug, Clone)]
pub struct PairSet {
    items: Vec<(String, String)>,
}

impl View for PairSet {
    type V = Set<(Seq<char>, Seq<char>)>;

    closed spec fn view(&self) -> Set<(Seq<char>, Seq<char>)> {
        Set::new(
            |x: (Seq<char>, Seq<char>)|
                exists|i: int|
                    0 <= i < self.items.len() && self.items@[i].0@ == x.0 && self.items@[i].1@ == x.1,
        )
    }
}

impl PairSet {
    pub fn new() -> (r: PairSet)
        ensures
            r@ == Set::<(Seq<char>, Seq<char>)>::empty(),
    {
        let r = PairSet { items: Vec::new() };
        assert(r@ =~= Set::<(Seq<char>, Seq<char>)>::empty());
        r
    }

    pub fn insert(&mut self, a: String, b: String)
        ensures
            final(self)@ == old(self)@.insert((a@, b@)),
    {
        let ghost n = old(self).items.len();
        let ghost p = (a@, b@);
        self.items.push((a, b));
        assert forall|y: (Seq<char>, Seq<char>)| final(self)@.contains(y) <==> old(self)@.insert(p).contains(y) by {
            if old(self)@.contains(y) {
                let i = choose|i: int|
                    0 <= i < n && old(self).items@[i].0@ == y.0 && old(self).items@[i].1@ == y.1;
                assert(self.items@[i] == old(self).items@[i]);
            }
            if final(self)@.contains(y) {
                let i = choose|i: int|
                    0 <= i < self.items.len() && self.items@[i].0@ == y.0 && self.items@[i].1@ == y.1;
                if i < n {
                    assert(old(self).items@[i] == self.items@[i]);
                }
            }
            if y == p {
                assert(self.items@[n as int].0@ == y.0);
            }
        }
        assert(final(self)@ =~= old(self)@.insert(p));
    }

    pub fn contains(&self, a: &str, b: &str) -> (r: bool)
        ensures
            r == self@.contains((a@, b@)),
    {
        let mut i: usize = 0;
        while i < self.items.len()
            invariant
                i <= self.items.len(),
                forall|j: int| 0 <= j < i ==> !(self.items@[j].0@ == a@ && self.items@[j].1@ == b@),
            decreases self.items.len() - i,
        {
            if text_eq(self.items[i].0.as_str(), a) && text_eq(self.items[i].1.as_str(), b) {
                return true;
            }
            i = i + 1;
        }
        false
    }
}

/// The map that a list of entries denotes, later entries overriding
/// earlier ones.
pub open spec fn entries_map(s: Seq<(String, u64)>) -> Map<Seq<char>, u64>
    decreases s.len(),
{
    if s.len() == 0 {
        Map::empty()
    } else {
        entries_map(s.drop_last()).insert(s.last().0@, s.last().1)
    }
}

proof fn lemma_entries_tail(s: Seq<(String, u64)>, k: int, key: Seq<char>)
    requires
        0 <= k <= s.len(),
        forall|j: int| k <= j < s.len() ==> s[j].0@ != key,
    ensures
        entries_map(s).dom().contains(key) == entries_map(s.take(k)).dom().contains(key),
        entries_map(s).dom().contains(key) ==> entries_map(s)[key] == entries_map(s.take(k))[key],
    decreases s.len(),
{
    if k < s.len() {
        assert(s.drop_last().take(k) =~= s.take(k));
        lemma_entries_tail(s.drop_last(), k, key);
    } else {
        assert(s.take(k) =~= s);
    }
}

/// A map from device paths to sizes in bytes.
#[derive(Debug, Clone)]
pub struct SizeMap {
    items: Vec<(String, u64)>,
}

impl View for SizeMap {
    type V = Map<Seq<char>, u64>;

    closed spec fn view(&self) -> Map<Seq<char>, u64> {
        entries_map(self.items@)
    }
}

impl SizeMap {
    pub fn new() -> (r: SizeMap)
        ensures
            r@ == Map::<Seq<char>, u64>::empty(),
    {
        SizeMap { items: Vec::new() }
    }

    pub fn insert(&mut self, k: String, v: u64)
        ensures
            final(self)@ == old(self)@.insert(k@, v),
    {
        let ghost old_items = self.items@;
        self.items.push((k, v));
        assert(self.items@.drop_last() =~= old_items);
    }

    pub fn get(&self, k: &str) -> (r: Option<u64>)
        ensures
            r == (if self@.dom().contains(k@) {
                Some(self@[k@])
            } else {
                None::<u64>
            }),
    {
        let mut i: usize = self.items.len();
        while i > 0
            invariant
                i <= self.items.len(),
                forall|j: int| i <= j < self.items.len() ==> self.items@[j].0@ != k@,
            decreases i,
        {
            if text_eq(self.items[i - 1].0.as_str(), k) {
                proof {
                    let s = self.items@;
                    lemma_entries_tail(s, i as int, k@);
                    assert(s.take(i as int).drop_last() =~= s.take(i - 1));
                    assert(s.take(i as int).last() == s[i - 1]);
                }
                return Some(self.items[i - 1].1);
            }
            i = i - 1;
        }
        proof {
            lemma_entries_tail(self.items@, 0, k@);
            assert(self.items@.take(0) =~= Seq::<(String, u64)>::empty());
        }
        None
    }
}

/// A snapshot of the facts of the live system that a plan touches.
#[derive(Debug, Clone)]
pub struct SystemState {
    pub pvs: NameSet,
    pub vgs: NameSet,
    pub lvs: PairSet,
    pub mounts: NameSet,
    pub swaps: NameSet,
    pub fstabs: PairSet,
    pub filesystems: NameSet,
    pub paths_exist: NameSet,
    pub is_full_disk: NameSet,
    pub block_device_sizes: SizeMap,
    pub fstab_device_refs: NameSet,
}

impl SystemState {
    /// The state in which nothing is known to exist.
    pub open spec fn is_empty(&self) -> bool {
        &&& self.pvs@ == Set::<Seq<char>>::empty()
        &&& self.vgs@ == Set::<Seq<char>>::empty()
        &&& self.lvs@ == Set::<(Seq<char>, Seq<char>)>::empty()
        &&& self.mounts@ == Set::<Seq<char>>::empty()
        &&& self.swaps@ == Set::<Seq<char>>::empty()
        &&& self.fstabs@ == Set::<(Seq<char>, Seq<char>)>::empty()
        &&& self.filesystems@ == Set::<Seq<char>>::empty()
        &&& self.paths_exist@ == Set::<Seq<char>>::empty()
        &&& self.is_full_disk@ == Set::<Seq<char>>::empty()
        &&& self.block_device_sizes@ == Map::<Seq<char>, u64>::empty()
        &&& self.fstab_device_refs@ == Set::<Seq<char>>::empty()
    }

    pub fn new() -> (r: SystemState)
        ensures
            r.is_empty(),
    {
        SystemState {
            pvs: NameSet::new(),
            vgs: NameSet::new(),
            lvs: PairSet::new(),
            mounts: NameSet::new(),
            swaps: NameSet::new(),
            fstabs: PairSet::new(),
            filesystems: NameSet::new(),
            paths_exist: NameSet::new(),
            is_full_disk: NameSet::new(),
            block_device_sizes: SizeMap::new(),
            fstab_device_refs: NameSet::new(),
        }
    }
}

impl Default for SystemState {
    fn default() -> (r: SystemState)
        ensures
            r.is_empty(),
    {
        SystemState::new()
    }
}

} // verus!
