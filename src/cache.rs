//! The local model cache: which models are on disk, how large they are, and
//! which to evict, least recently used first, when space runs out. Deleting
//! files is left to the caller, who is handed the evicted entries.

use crate::stamp::now_millis;
use vstd::prelude::*;

verus! {

/// A cached model.
#[derive(Debug)]
pub struct CachedModel {
    /// Model reference (e.g., "ai/llama3:8b")
    pub reference: String,
    /// Path to the model file
    pub path: String,
    /// Model size in bytes
    pub size: u64,
    /// Last access time, in milliseconds since the Unix epoch
    pub last_accessed: i64,
    /// Download time, in milliseconds since the Unix epoch
    pub downloaded_at: i64,
}

impl Clone for CachedModel {
    fn clone(&self) -> (r: Self)
        ensures
            r == *self,
    {
        CachedModel {
            reference: self.reference.clone(),
            path: self.path.clone(),
            size: self.size,
            last_accessed: self.last_accessed,
            downloaded_at: self.downloaded_at,
        }
    }
}

/// The total size of `ms`.
pub open spec fn total_size(ms: Seq<CachedModel>) -> nat
    decreases ms.len(),
{
    if ms.len() == 0 {
        0
    } else {
        total_size(ms.drop_last()) + ms.last().size as nat
    }
}

/// The position of the least recently used model of a non-empty list, the
/// first one among equals.
pub open spec fn lru_index(ms: Seq<CachedModel>) -> int
    decreases ms.len(),
{
    if ms.len() <= 1 {
        0
    } else {
        let k = lru_index(ms.drop_last());
        if ms.last().last_accessed < ms[k].last_accessed {
            ms.len() - 1
        } else {
            k
        }
    }
}

/// The models evicted to free `to_free` bytes: least recently used first,
/// until that much is freed or none is left.
pub open spec fn evicted(ms: Seq<CachedModel>, to_free: int) -> Seq<CachedModel>
    decreases ms.len(),
{
    let k = lru_index(ms);
    if to_free <= 0 || !(0 <= k < ms.len()) {
        Seq::empty()
    } else {
        seq![ms[k]] + evicted(ms.remove(k), to_free - ms[k].size)
    }
}

/// The models left after evicting to free `to_free` bytes.
pub open spec fn kept(ms: Seq<CachedModel>, to_free: int) -> Seq<CachedModel>
    decreases ms.len(),
{
    let k = lru_index(ms);
    if to_free <= 0 || !(0 <= k < ms.len()) {
        ms
    } else {
        kept(ms.remove(k), to_free - ms[k].size)
    }
}

/// The position of `reference`, or -1.
pub open spec fn model_index(ms: Seq<CachedModel>, reference: Seq<char>) -> int
    decreases ms.len(),
{
    if ms.len() == 0 {
        -1
    } else if ms.last().reference@ == reference {
        ms.len() - 1
    } else {
        model_index(ms.drop_last(), reference)
    }
}

proof fn lemma_model_index(ms: Seq<CachedModel>, reference: Seq<char>)
    ensures
        -1 <= model_index(ms, reference) < ms.len(),
        model_index(ms, reference) >= 0 ==> ms[model_index(ms, reference)].reference@ == reference,
        model_index(ms, reference) < 0 ==> forall|k: int|
            0 <= k < ms.len() ==> ms[k].reference@ != reference,
    decreases ms.len(),
{
    if ms.len() > 0 {
        lemma_model_index(ms.drop_last(), reference);
        if ms.last().reference@ != reference {
            assert forall|k: int| 0 <= k < ms.len() - 1 implies ms[k] == ms.drop_last()[k] by {}
        }
    }
}

proof fn lemma_lru_index(ms: Seq<CachedModel>)
    requires
        ms.len() > 0,
    ensures
        0 <= lru_index(ms) < ms.len(),
    decreases ms.len(),
{
    if ms.len() > 1 {
        lemma_lru_index(ms.drop_last());
    }
}

/// Removing one model takes its size off the total.
proof fn lemma_total_remove(ms: Seq<CachedModel>, k: int)
    requires
        0 <= k < ms.len(),
    ensures
        total_size(ms.remove(k)) + ms[k].size == total_size(ms),
    decreases ms.len(),
{
    if k < ms.len() - 1 {
        lemma_total_remove(ms.drop_last(), k);
        assert(ms.remove(k).drop_last() =~= ms.drop_last().remove(k));
        assert(ms.remove(k).last() == ms.last());
    } else {
        assert(ms.remove(k) =~= ms.drop_last());
    }
}

/// Removing models keeps references unique.
proof fn lemma_unique_remove(ms: Seq<CachedModel>, k: int)
    requires
        0 <= k < ms.len(),
        unique_refs(ms),
    ensures
        unique_refs(ms.remove(k)),
{
    let r = ms.remove(k);
    assert forall|a: int, b: int| 0 <= a < b < r.len() implies r[a].reference@ != r[b].reference@ by {
        let aa = if a < k { a } else { a + 1 };
        let bb = if b < k { b } else { b + 1 };
        assert(r[a] == ms[aa] && r[b] == ms[bb]);
    }
}

/// No two models share a reference.
pub open spec fn unique_refs(ms: Seq<CachedModel>) -> bool {
    forall|a: int, b: int| 0 <= a < b < ms.len() ==> ms[a].reference@ != ms[b].reference@
}

/// The cache of model files.
pub struct ModelCache {
    /// Base path for model storage
    base_path: String,
    /// Maximum cache size in bytes
    max_size: u64,
    /// Current cache size
    current_size: u64,
    /// Cached models, in order of addition
    models: Vec<CachedModel>,
    /// Enable LRU eviction
    lru_enabled: bool,
}

impl ModelCache {
    /// The cached models, in order of addition.
    pub closed spec fn models(&self) -> Seq<CachedModel> {
        self.models@
    }

    /// The size limit.
    pub closed spec fn limit(&self) -> u64 {
        self.max_size
    }

    /// The total size of the cached models.
    pub closed spec fn size(&self) -> u64 {
        self.current_size
    }

    /// Whether eviction is enabled.
    pub closed spec fn evicts(&self) -> bool {
        self.lru_enabled
    }

    /// The base directory.
    pub closed spec fn base(&self) -> Seq<char> {
        self.base_path@
    }

    /// References are unique and the recorded size is the total.
    pub open spec fn wf(&self) -> bool {
        &&& unique_refs(self.models())
        &&& self.size() == total_size(self.models())
    }

    /// An empty cache under `base_path` limited to `max_size` bytes.
    pub fn new(base_path: String, max_size: u64, lru_enabled: bool) -> (r: Self)
        ensures
            r.wf(),
            r.models().len() == 0,
            r.limit() == max_size,
            r.evicts() == lru_enabled,
            r.base() == base_path@,
    {
        ModelCache { base_path, max_size, current_size: 0, models: Vec::new(), lru_enabled }
    }

    /// The base directory.
    pub fn base_path(&self) -> (r: &String)
        ensures
            r@ == self.base(),
    {
        &self.base_path
    }

    /// The total size of the cached models.
    pub fn total_size(&self) -> (r: u64)
        ensures
            r == self.size(),
    {
        self.current_size
    }

    /// The size limit.
    pub fn max_size(&self) -> (r: u64)
        ensures
            r == self.limit(),
    {
        self.max_size
    }

    /// The number of cached models.
    pub fn model_count(&self) -> (r: usize)
        ensures
            r == self.models().len(),
    {
        self.models.len()
    }

    fn find(&self, reference: &str) -> (r: Option<usize>)
        ensures
            r matches Some(k) ==> k as int == model_index(self.models(), reference@),
            r is None <==> model_index(self.models(), reference@) < 0,
    {
        let target = String::from_str(reference);
        let mut i: usize = self.models.len();
        assert(self.models@.subrange(0, i as int) =~= self.models@);
        while i > 0
            invariant
                i <= self.models@.len(),
                target@ == reference@,
                model_index(self.models@, reference@) == model_index(
                    self.models@.subrange(0, i as int),
                    reference@,
                ),
            decreases i,
        {
            let ghost prefix = self.models@.subrange(0, i as int);
            assert(prefix.drop_last() =~= self.models@.subrange(0, i as int - 1));
            if self.models[i - 1].reference == target {
                return Some(i - 1);
            }
            i = i - 1;
        }
        None
    }

    /// Whether a model is cached.
    pub fn has(&self, reference: &str) -> (r: bool)
        ensures
            r == (model_index(self.models(), reference@) >= 0),
    {
        self.find(reference).is_some()
    }

    /// The path of a cached model, marking it used at time `now`.
    pub fn get_at(&mut self, reference: &str, now: i64) -> (r: Option<String>)
        requires
            old(self).wf(),
        ensures
            final(self).wf(),
            final(self).limit() == old(self).limit(),
            final(self).evicts() == old(self).evicts(),
            model_index(old(self).models(), reference@) < 0 ==> r is None && *final(self) == *old(self),
            model_index(old(self).models(), reference@) >= 0 ==> {
                let k = model_index(old(self).models(), reference@);
                &&& r matches Some(p) && p == old(self).models()[k].path
                &&& final(self).models() == old(self).models().update(
                    k,
                    CachedModel { last_accessed: now, ..old(self).models()[k] },
                )
            },
    {
        proof {
            lemma_model_index(self.models@, reference@);
        }
        match self.find(reference) {
            None => None,
            Some(k) => {
                let ghost ms = self.models@;
                self.models[k].last_accessed = now;
                assert(self.models@ =~= ms.update(k as int, CachedModel { last_accessed: now, ..ms[k as int] }));
                assert(unique_refs(self.models@)) by {
                    assert forall|a: int, b: int| 0 <= a < b < self.models@.len() implies self.models@[a].reference@
                        != self.models@[b].reference@ by {
                        assert(ms[a].reference@ != ms[b].reference@);
                    }
                }
                proof {
                    lemma_total_remove(ms, k as int);
                    lemma_total_remove(self.models@, k as int);
                    assert(self.models@.remove(k as int) =~= ms.remove(k as int));
                }
                Some(self.models[k].path.clone())
            },
        }
    }

    /// The path of a cached model, marking it used now.
    pub fn get(&mut self, reference: &str) -> (r: Option<String>)
        requires
            old(self).wf(),
        ensures
            final(self).wf(),
            final(self).limit() == old(self).limit(),
            final(self).evicts() == old(self).evicts(),
            final(self).models().len() == old(self).models().len(),
            model_index(old(self).models(), reference@) < 0 ==> r is None,
            model_index(old(self).models(), reference@) >= 0 ==> (r matches Some(p) && p == old(
                self,
            ).models()[model_index(old(self).models(), reference@)].path),
    {
        proof {
            lemma_model_index(self.models@, reference@);
        }
        self.get_at(reference, now_millis())
    }

    /// The position of the least recently used model.
    fn lru_position(&self) -> (r: usize)
        requires
            self.models@.len() > 0,
        ensures
            r == lru_index(self.models()),
    {
        let mut best: usize = 0;
        let mut i: usize = 1;
        while i < self.models.len()
            invariant
                1 <= i <= self.models@.len(),
                best == lru_index(self.models@.subrange(0, i as int)),
            decreases self.models@.len() - i,
        {
            let ghost prefix = self.models@.subrange(0, i as int + 1);
            assert(prefix.drop_last() =~= self.models@.subrange(0, i as int));
            proof {
                lemma_lru_index(self.models@.subrange(0, i as int));
            }
            if self.models[i].last_accessed < self.models[best].last_accessed {
                best = i;
            }
            i = i + 1;
        }
        assert(self.models@.subrange(0, i as int) =~= self.models@);
        best
    }

    /// Removes a model, handing it back so that its file can be deleted.
    pub fn remove(&mut self, reference: &str) -> (r: Option<CachedModel>)
        requires
            old(self).wf(),
        ensures
            final(self).wf(),
            final(self).limit() == old(self).limit(),
            final(self).evicts() == old(self).evicts(),
            final(self).base() == old(self).base(),
            model_index(old(self).models(), reference@) < 0 ==> r is None && *final(self) == *old(self),
            model_index(old(self).models(), reference@) >= 0 ==> {
                let k = model_index(old(self).models(), reference@);
                &&& r == Some(old(self).models()[k])
                &&& final(self).models() == old(self).models().remove(k)
            },
    {
        proof {
            lemma_model_index(self.models@, reference@);
        }
        match self.find(reference) {
            None => None,
            Some(k) => Some(self.remove_at(k)),
        }
    }

    fn remove_at(&mut self, k: usize) -> (r: CachedModel)
        requires
            old(self).wf(),
            k < old(self).models().len(),
        ensures
            final(self).wf(),
            final(self).limit() == old(self).limit(),
            final(self).evicts() == old(self).evicts(),
            final(self).base() == old(self).base(),
            r == old(self).models()[k as int],
            final(self).models() == old(self).models().remove(k as int),
    {
        proof {
            lemma_total_remove(self.models@, k as int);
            lemma_unique_remove(self.models@, k as int);
        }
        let m = self.models.remove(k);
        self.current_size = self.current_size - m.size;
        m
    }

    /// Evicts least recently used models until `needed` more bytes fit under
    /// the limit, or none is left; hands back the evicted ones.
    fn ensure_space(&mut self, needed: u64) -> (r: Vec<CachedModel>)
        requires
            old(self).wf(),
        ensures
            final(self).wf(),
            final(self).limit() == old(self).limit(),
            final(self).evicts() == old(self).evicts(),
            final(self).base() == old(self).base(),
            r@ == evicted(old(self).models(), old(self).size() + needed - old(self).limit()),
            final(self).models() == kept(old(self).models(), old(self).size() + needed - old(self).limit()),
    {
        let mut out: Vec<CachedModel> = Vec::new();
        if (self.current_size as u128) + (needed as u128) <= self.max_size as u128 {
            return out;
        }
        let to_free: u128 = (self.current_size as u128) + (needed as u128) - (self.max_size as u128);
        let ghost target = old(self).size() + needed - old(self).limit();
        let mut freed: u64 = 0;
        while (freed as u128) < to_free && self.models.len() > 0
            invariant
                self.wf(),
                self.max_size == old(self).max_size,
                self.lru_enabled == old(self).lru_enabled,
                self.base_path@ == old(self).base_path@,
                to_free == target,
                freed <= old(self).size(),
                freed as int + self.current_size as int == old(self).size(),
                evicted(old(self).models(), target) == out@ + evicted(self.models@, target - freed),
                kept(old(self).models(), target) == kept(self.models@, target - freed),
            decreases self.models@.len(),
        {
            let k = self.lru_position();
            proof {
                lemma_lru_index(self.models@);
            }
            let ghost before = self.models@;
            let m = self.remove_at(k);
            proof {
                lemma_total_remove(before, k as int);
            }
            freed = freed + m.size;
            let ghost prev_out = out@;
            out.push(m);
            assert(out@ =~= prev_out + seq![before[k as int]]);
            assert(evicted(before, target - (freed - before[k as int].size)) =~= seq![before[k as int]] + evicted(
                before.remove(k as int),
                target - freed,
            ));
            assert(prev_out + (seq![before[k as int]] + evicted(self.models@, target - freed)) =~= out@
                + evicted(self.models@, target - freed));
        }
        out
    }

    /// Adds a model of `size` bytes at `path`, used at time `now`. With
    /// eviction enabled, first evicts least recently used models until it
    /// fits. An entry with the same reference is replaced. Hands back the
    /// evicted entries, whose files the caller deletes.
    pub fn add_at(&mut self, reference: &str, path: String, size: u64, now: i64) -> (r: Vec<CachedModel>)
        requires
            old(self).wf(),
            old(self).size() + size <= u64::MAX,
        ensures
            final(self).wf(),
            final(self).limit() == old(self).limit(),
            final(self).evicts() == old(self).evicts(),
            final(self).base() == old(self).base(),
            !old(self).evicts() ==> r@.len() == 0,
            old(self).evicts() ==> r@ == evicted(old(self).models(), old(self).size() + size - old(self).limit()),
            ({
                let left = if old(self).evicts() {
                    kept(old(self).models(), old(self).size() + size - old(self).limit())
                } else {
                    old(self).models()
                };
                let k = model_index(left, reference@);
                final(self).models() == (if k >= 0 {
                    left.remove(k)
                } else {
                    left
                }).push(
                    CachedModel {
                        reference: final(self).models().last().reference,
                        path,
                        size,
                        last_accessed: now,
                        downloaded_at: now,
                    },
                ) && final(self).models().last().reference@ == reference@
            }),
    {
        let evicted_models = if self.lru_enabled {
            self.ensure_space(size)
        } else {
            Vec::new()
        };
        let ghost left = self.models@;
        proof {
            lemma_model_index(left, reference@);
        }
        match self.find(reference) {
            Some(k) => {
                self.remove_at(k);
            },
            None => {},
        }
        let model = CachedModel {
            reference: String::from_str(reference),
            path,
            size,
            last_accessed: now,
            downloaded_at: now,
        };
        proof {
            assert(total_size(self.models@) <= total_size(old(self).models())) by {
                if old(self).lru_enabled {
                    lemma_kept_smaller(old(self).models(), old(self).size() + size - old(self).limit());
                }
                if model_index(left, reference@) >= 0 {
                    lemma_total_remove(left, model_index(left, reference@));
                }
            }
            assert(self.models@.push(model).drop_last() =~= self.models@);
            assert forall|a: int, b: int| 0 <= a < b < self.models@.len() + 1 implies self.models@.push(
                model,
            )[a].reference@ != self.models@.push(model)[b].reference@ by {
                if b == self.models@.len() {
                    lemma_model_index(self.models@, reference@);
                    if model_index(left, reference@) >= 0 {
                        let k = model_index(left, reference@);
                        let aa = if a < k { a } else { a + 1 };
                        assert(self.models@[a] == left[aa]);
                        assert(left[aa].reference@ != left[k].reference@);
                    }
                }
            }
        }
        self.current_size = self.current_size + size;
        self.models.push(model);
        evicted_models
    }

    /// Adds a model of `size` bytes at `path`, used now; see `add_at`.
    pub fn add(&mut self, reference: &str, path: String, size: u64) -> (r: Vec<CachedModel>)
        requires
            old(self).wf(),
            old(self).size() + size <= u64::MAX,
        ensures
            final(self).wf(),
            final(self).limit() == old(self).limit(),
            final(self).evicts() == old(self).evicts(),
            !old(self).evicts() ==> r@.len() == 0,
            old(self).evicts() ==> r@ == evicted(old(self).models(), old(self).size() + size - old(self).limit()),
            final(self).models().last().reference@ == reference@,
            final(self).models().last().size == size,
            final(self).models().last().path == path,
    {
        self.add_at(reference, path, size, now_millis())
    }

    /// Copies of the cached models, in order of addition.
    pub fn list(&self) -> (r: Vec<CachedModel>)
        ensures
            r@ == self.models(),
    {
        let mut r: Vec<CachedModel> = Vec::new();
        let mut i: usize = 0;
        while i < self.models.len()
            invariant
                i <= self.models@.len(),
                r@ == self.models@.subrange(0, i as int),
            decreases self.models@.len() - i,
        {
            r.push(self.models[i].clone());
            assert(r@ =~= self.models@.subrange(0, i as int + 1));
            i = i + 1;
        }
        r
    }
}

/// Evicting never grows the total.
proof fn lemma_kept_smaller(ms: Seq<CachedModel>, to_free: int)
    ensures
        total_size(kept(ms, to_free)) <= total_size(ms),
        unique_refs(ms) ==> unique_refs(kept(ms, to_free)),
    decreases ms.len(),
{
    if to_free > 0 && ms.len() > 0 {
        let k = lru_index(ms);
        lemma_lru_index(ms);
        lemma_total_remove(ms, k);
        lemma_kept_smaller(ms.remove(k), to_free - ms[k].size);
        if unique_refs(ms) {
            lemma_unique_remove(ms, k);
        }
    }
}

} // verus!
