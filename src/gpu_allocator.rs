//! The GPU allocator: which devices exist, and which of them are granted.

use crate::error::{DmrletError, DmrletResult};
use crate::gpu::{GpuDevice, GpuInfo};
use crate::text::{decimal, u64_text};
use std::collections::HashSet;
use vstd::prelude::*;

verus! {

broadcast use vstd::std_specs::hash::group_hash_axioms;

/// Devices are listed in strictly increasing index order, so no two share an
/// index and list order is index order.
pub open spec fn increasing_indices(ds: Seq<GpuDevice>) -> bool {
    forall|i: int, j: int| 0 <= i < j < ds.len() ==> ds[i].index < ds[j].index
}

/// The indices of the devices that are flagged available and not in
/// `allocated`, in device order.
pub open spec fn free_gpus(ds: Seq<GpuDevice>, allocated: Set<u32>) -> Seq<u32>
    decreases ds.len(),
{
    if ds.len() == 0 {
        Seq::empty()
    } else {
        let rest = free_gpus(ds.drop_last(), allocated);
        let d = ds.last();
        if d.available && !allocated.contains(d.index) {
            rest.push(d.index)
        } else {
            rest
        }
    }
}

/// The elements of `s` that are not in `gone`, in order.
pub open spec fn without<T>(s: Seq<T>, gone: Set<T>) -> Seq<T>
    decreases s.len(),
{
    if s.len() == 0 {
        Seq::empty()
    } else {
        let rest = without(s.drop_last(), gone);
        if gone.contains(s.last()) {
            rest
        } else {
            rest.push(s.last())
        }
    }
}

/// The text of the error that `allocate` returns on a shortage.
pub open spec fn shortage_text(requested: nat, available: nat) -> Seq<char> {
    "Not enough GPUs available: requested "@ + decimal(requested) + ", available "@ + decimal(
        available,
    )
}

/// Each free index belongs to an available device that is not allocated, and
/// free indices strictly increase.
pub proof fn lemma_free_gpus(ds: Seq<GpuDevice>, allocated: Set<u32>)
    requires
        increasing_indices(ds),
    ensures
        free_gpus(ds, allocated).len() <= ds.len(),
        forall|k: int|
            0 <= k < free_gpus(ds, allocated).len() ==> !allocated.contains(
                #[trigger] free_gpus(ds, allocated)[k],
            ) && exists|i: int|
                0 <= i < ds.len() && ds[i].available && ds[i].index == free_gpus(ds, allocated)[k],
        forall|a: int, b: int|
            0 <= a < b < free_gpus(ds, allocated).len() ==> #[trigger] free_gpus(ds, allocated)[a]
                < #[trigger] free_gpus(ds, allocated)[b],
        free_gpus(ds, allocated).no_duplicates(),
    decreases ds.len(),
{
    if ds.len() > 0 {
        let rest = ds.drop_last();
        assert(increasing_indices(rest));
        lemma_free_gpus(rest, allocated);
        let f = free_gpus(ds, allocated);
        let fr = free_gpus(rest, allocated);
        assert forall|k: int| 0 <= k < f.len() implies !allocated.contains(#[trigger] f[k])
            && exists|i: int| 0 <= i < ds.len() && ds[i].available && ds[i].index == f[k] by {
            if k < fr.len() {
                let i = choose|i: int| 0 <= i < rest.len() && rest[i].available && rest[i].index == fr[k];
                assert(ds[i] == rest[i]);
            } else {
                assert(ds[ds.len() - 1] == ds.last());
            }
        }
        if ds.last().available && !allocated.contains(ds.last().index) {
            assert forall|k: int| 0 <= k < fr.len() implies fr[k] < ds.last().index by {
                let i = choose|i: int| 0 <= i < rest.len() && rest[i].available && rest[i].index == fr[k];
                assert(ds[i] == rest[i]);
                assert(ds[ds.len() - 1] == ds.last());
            }
            assert forall|a: int, b: int| 0 <= a < b < f.len() implies f[a] < f[b] by {
                if b < fr.len() {
                    assert(f[a] == fr[a] && f[b] == fr[b]);
                } else {
                    assert(f[a] == fr[a]);
                }
            }
        }
        assert forall|a: int, b: int| 0 <= a < f.len() && 0 <= b < f.len() && a != b implies f[a] != f[b] by {
            if a < b {
                assert(f[a] < f[b]);
            } else {
                assert(f[b] < f[a]);
            }
        }
    }
}

/// Marking more indices as allocated removes exactly those from the free list.
pub proof fn lemma_free_gpus_grow(ds: Seq<GpuDevice>, allocated: Set<u32>, more: Set<u32>)
    ensures
        free_gpus(ds, allocated.union(more)) == without(free_gpus(ds, allocated), more),
    decreases ds.len(),
{
    if ds.len() > 0 {
        lemma_free_gpus_grow(ds.drop_last(), allocated, more);
        let f = free_gpus(ds.drop_last(), allocated);
        if ds.last().available && !allocated.contains(ds.last().index) {
            assert(f.push(ds.last().index).drop_last() =~= f);
        }
    }
}

/// Removing the first `n` elements of a list without duplicates, by value,
/// leaves the rest.
pub proof fn lemma_without_prefix<T>(s: Seq<T>, n: int)
    requires
        s.no_duplicates(),
        0 <= n <= s.len(),
    ensures
        without(s, s.take(n).to_set()) == s.skip(n),
    decreases s.len(),
{
    let gone = s.take(n).to_set();
    if s.len() > 0 {
        let rest = s.drop_last();
        if n < s.len() {
            assert(rest.take(n) =~= s.take(n));
            lemma_without_prefix(rest, n);
            assert(!gone.contains(s.last())) by {
                if gone.contains(s.last()) {
                    let k = choose|k: int| 0 <= k < n && #[trigger] s.take(n)[k] == s.last();
                    assert(s[k] == s[s.len() - 1]);
                }
            }
            assert(rest.skip(n).push(s.last()) =~= s.skip(n));
        } else {
            assert(rest.take(n - 1) =~= rest);
            lemma_without_prefix(rest, n - 1);
            assert forall|x: T| rest.take(n - 1).to_set().contains(x) implies gone.contains(x) by {
                let k = choose|k: int| 0 <= k < n - 1 && #[trigger] rest.take(n - 1)[k] == x;
                assert(s.take(n)[k] == x);
            }
            lemma_without_all(rest, gone);
            assert(s.take(n)[s.len() - 1] == s.last());
            assert(s.skip(n) =~= Seq::<T>::empty());
        }
    } else {
        assert(s.skip(n) =~= Seq::<T>::empty());
    }
}

/// Removing a set that holds every element leaves nothing.
pub proof fn lemma_without_all<T>(s: Seq<T>, gone: Set<T>)
    requires
        forall|k: int| 0 <= k < s.len() ==> gone.contains(#[trigger] s[k]),
    ensures
        without(s, gone) == Seq::<T>::empty(),
    decreases s.len(),
{
    if s.len() > 0 {
        assert forall|k: int| 0 <= k < s.drop_last().len() implies gone.contains(
            #[trigger] s.drop_last()[k],
        ) by {
            assert(s.drop_last()[k] == s[k]);
        }
        lemma_without_all(s.drop_last(), gone);
        assert(gone.contains(s[s.len() - 1]));
    }
}

/// Tracks the GPU devices of the machine and which of them are granted.
pub struct GpuAllocator {
    /// Known GPU devices
    devices: Vec<GpuDevice>,
    /// Indices of the granted devices
    allocated: HashSet<u32>,
}

/// A GPU device with its allocation flag.
#[derive(Debug)]
pub struct GpuDeviceStatus {
    /// Device information
    pub device: GpuDevice,
    /// Whether this device is currently allocated
    pub allocated: bool,
}

impl Clone for GpuDeviceStatus {
    fn clone(&self) -> (r: Self)
        ensures
            r == *self,
    {
        GpuDeviceStatus { device: self.device.clone(), allocated: self.allocated }
    }
}

impl GpuAllocator {
    /// The known devices, in index order of the inventory.
    pub closed spec fn devices(&self) -> Seq<GpuDevice> {
        self.devices@
    }

    /// The indices currently granted.
    pub closed spec fn allocated(&self) -> Set<u32> {
        self.allocated@
    }

    /// The indices that `allocate` would grant next, in order.
    pub open spec fn free(&self) -> Seq<u32> {
        free_gpus(self.devices(), self.allocated())
    }

    /// Well-formed: devices are listed in increasing index order and their
    /// number fits a `u32`.
    pub open spec fn wf(&self) -> bool {
        &&& increasing_indices(self.devices())
        &&& self.devices().len() <= u32::MAX
    }

    /// An allocator over the devices of `gpu_info`, with none granted.
    pub fn new(gpu_info: GpuInfo) -> (r: Self)
        requires
            increasing_indices(gpu_info.devices@),
            gpu_info.devices@.len() <= u32::MAX,
        ensures
            r.wf(),
            r.devices() == gpu_info.devices@,
            r.allocated() == Set::<u32>::empty(),
    {
        GpuAllocator { devices: gpu_info.devices, allocated: HashSet::new() }
    }

    /// An allocator with no devices.
    pub fn empty() -> (r: Self)
        ensures
            r.wf(),
            r.devices().len() == 0,
            r.allocated() == Set::<u32>::empty(),
    {
        GpuAllocator { devices: Vec::new(), allocated: HashSet::new() }
    }

    /// The number of known devices.
    pub fn total_count(&self) -> (r: u32)
        requires
            self.wf(),
        ensures
            r == self.devices().len(),
    {
        self.devices.len() as u32
    }

    /// The number of devices flagged available and not granted.
    pub fn available_count(&self) -> (r: u32)
        requires
            self.wf(),
        ensures
            r == self.free().len(),
    {
        let free = self.free_indices();
        proof {
            lemma_free_gpus(self.devices(), self.allocated());
        }
        free.len() as u32
    }

    /// The indices of the devices flagged available and not granted, in order.
    pub(crate) fn free_indices(&self) -> (r: Vec<u32>)
        ensures
            r@ == self.free(),
    {
        let mut r: Vec<u32> = Vec::new();
        let mut i: usize = 0;
        while i < self.devices.len()
            invariant
                i <= self.devices@.len(),
                r@ == free_gpus(self.devices@.subrange(0, i as int), self.allocated@),
            decreases self.devices@.len() - i,
        {
            let ghost prefix = self.devices@.subrange(0, i as int + 1);
            assert(prefix.drop_last() =~= self.devices@.subrange(0, i as int));
            let d = &self.devices[i];
            if d.available && !self.allocated.contains(&d.index) {
                r.push(d.index);
            }
            i = i + 1;
        }
        assert(self.devices@.subrange(0, i as int) =~= self.devices@);
        r
    }

    /// Grants `count` devices: the `count` lowest indices that are available and
    /// not granted, in increasing order. All or nothing: on a shortage nothing
    /// changes.
    pub fn allocate(&mut self, count: u32) -> (r: DmrletResult<Vec<u32>>)
        requires
            old(self).wf(),
        ensures
            final(self).wf(),
            final(self).devices() == old(self).devices(),
            count == 0 ==> (r matches Ok(v) && v@.len() == 0 && *final(self) == *old(self)),
            count > 0 && old(self).free().len() < count ==> (*final(self) == *old(self) && (r matches Err(
                DmrletError::ResourceExhausted(m),
            ) && m@ == shortage_text(count as nat, old(self).free().len()))),
            count > 0 && old(self).free().len() >= count ==> (r matches Ok(v) && v@ == old(
                self,
            ).free().take(count as int) && final(self).allocated() == old(self).allocated().union(
                v@.to_set(),
            )),
            r matches Ok(v) ==> (v@.len() == count && v@.no_duplicates() && forall|k: int|
                0 <= k < v@.len() ==> !old(self).allocated().contains(#[trigger] v@[k])),
            r matches Ok(v) ==> forall|a: int, b: int|
                0 <= a < b < v@.len() ==> #[trigger] v@[a] < #[trigger] v@[b],
            r matches Ok(v) ==> forall|k: int, j: int|
                0 <= k < v@.len() && v@.len() <= j < old(self).free().len() ==> #[trigger] v@[k]
                    < #[trigger] old(self).free()[j],
    {
        if count == 0 {
            return Ok(Vec::new());
        }
        let available = self.free_indices();
        proof {
            lemma_free_gpus(self.devices(), self.allocated());
        }
        if available.len() < count as usize {
            let msg = String::from_str("Not enough GPUs available: requested ").concat(
                u64_text(count as u64).as_str(),
            ).concat(", available ").concat(u64_text(available.len() as u64).as_str());
            return Err(DmrletError::ResourceExhausted(msg));
        }
        let ghost old_alloc = self.allocated@;
        let mut granted: Vec<u32> = Vec::new();
        let mut i: usize = 0;
        while i < count as usize
            invariant
                i <= count <= available@.len(),
                available@ == old(self).free(),
                granted@ == available@.take(i as int),
                self.allocated@ == old_alloc.union(granted@.to_set()),
                self.devices == old(self).devices,
            decreases count - i,
        {
            let idx = available[i];
            granted.push(idx);
            self.allocated.insert(idx);
            assert(granted@ =~= available@.take(i as int + 1));
            assert(self.allocated@ =~= old_alloc.union(granted@.to_set())) by {
                assert forall|x: u32| granted@.to_set().contains(x) <==> (available@.take(
                    i as int,
                ).to_set().contains(x) || x == idx) by {
                    if granted@.to_set().contains(x) {
                        let k = choose|k: int| 0 <= k < granted@.len() && #[trigger] granted@[k] == x;
                        if k < i {
                            assert(available@.take(i as int)[k] == x);
                        }
                    }
                    if available@.take(i as int).to_set().contains(x) {
                        let k = choose|k: int| 0 <= k < i && #[trigger] available@.take(i as int)[k] == x;
                        assert(granted@[k] == x);
                    }
                    if x == idx {
                        assert(granted@[i as int] == x);
                    }
                }
            }
            i = i + 1;
        }
        Ok(granted)
    }

    /// Takes back the given indices. An index that is not granted, or that
    /// appears twice, is left alone; nothing else changes.
    pub fn release(&mut self, indices: &[u32])
        requires
            old(self).wf(),
        ensures
            final(self).wf(),
            final(self).devices() == old(self).devices(),
            final(self).allocated() == old(self).allocated().difference(indices@.to_set()),
    {
        let ghost old_alloc = self.allocated@;
        let mut i: usize = 0;
        while i < indices.len()
            invariant
                i <= indices@.len(),
                self.allocated@ == old_alloc.difference(indices@.take(i as int).to_set()),
                self.devices == old(self).devices,
            decreases indices@.len() - i,
        {
            let idx = indices[i];
            self.allocated.remove(&idx);
            assert(self.allocated@ =~= old_alloc.difference(indices@.take(i as int + 1).to_set()))
                by {
                assert forall|x: u32| indices@.take(i as int + 1).to_set().contains(x) <==> (
                indices@.take(i as int).to_set().contains(x) || x == idx) by {
                    if indices@.take(i as int + 1).to_set().contains(x) {
                        let k = choose|k: int|
                            0 <= k < i + 1 && #[trigger] indices@.take(i as int + 1)[k] == x;
                        if k < i {
                            assert(indices@.take(i as int)[k] == x);
                        }
                    }
                    if indices@.take(i as int).to_set().contains(x) {
                        let k = choose|k: int| 0 <= k < i && #[trigger] indices@.take(i as int)[k] == x;
                        assert(indices@.take(i as int + 1)[k] == x);
                    }
                    if x == idx {
                        assert(indices@.take(i as int + 1)[i as int] == x);
                    }
                }
            }
            i = i + 1;
        }
        assert(indices@.take(i as int) =~= indices@);
    }

    /// Every device with its allocation flag, in device order.
    pub fn get_gpu_info(&self) -> (r: Vec<GpuDeviceStatus>)
        ensures
            r@.len() == self.devices().len(),
            forall|k: int|
                0 <= k < r@.len() ==> (#[trigger] r@[k]).device == self.devices()[k]
                    && r@[k].allocated == self.allocated().contains(self.devices()[k].index),
    {
        let mut r: Vec<GpuDeviceStatus> = Vec::new();
        let mut i: usize = 0;
        while i < self.devices.len()
            invariant
                i <= self.devices@.len(),
                r@.len() == i,
                forall|k: int|
                    0 <= k < i ==> (#[trigger] r@[k]).device == self.devices@[k]
                        && r@[k].allocated == self.allocated@.contains(self.devices@[k].index),
            decreases self.devices@.len() - i,
        {
            let d = &self.devices[i];
            r.push(GpuDeviceStatus { device: d.clone(), allocated: self.allocated.contains(&d.index) });
            i = i + 1;
        }
        r
    }
}

/// Releasing is idempotent and local: releasing the same indices again
/// changes nothing more, and an index not among them keeps its state,
/// whether or not any of them was ever granted.
pub proof fn release_is_idempotent(allocated: Set<u32>, indices: Seq<u32>)
    ensures
        allocated.difference(indices.to_set()).difference(indices.to_set()) == allocated.difference(
            indices.to_set(),
        ),
        forall|x: u32|
            !indices.contains(x) ==> (#[trigger] allocated.difference(indices.to_set()).contains(x)
                == allocated.contains(x)),
{
    assert(allocated.difference(indices.to_set()).difference(indices.to_set()) =~= allocated.difference(
        indices.to_set(),
    ));
}

} // verus!
