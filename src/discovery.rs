//! Service discovery: the endpoints registered for each deployment.

use crate::model::Endpoint;
use vstd::prelude::*;

verus! {

/// The endpoints of each deployment, deployments in order of first
/// registration.
pub struct ServiceDiscovery {
    entries: Vec<(u128, Vec<Endpoint>)>,
}

/// The position of deployment `id` among `entries`, or -1.
pub open spec fn entry_index(entries: Seq<(u128, Seq<Endpoint>)>, id: u128) -> int
    decreases entries.len(),
{
    if entries.len() == 0 {
        -1
    } else if entries.last().0 == id {
        entries.len() - 1
    } else {
        entry_index(entries.drop_last(), id)
    }
}

/// The endpoints of deployment `id` in `entries`, none when it has no entry.
pub open spec fn endpoints_of(entries: Seq<(u128, Seq<Endpoint>)>, id: u128) -> Seq<Endpoint> {
    let k = entry_index(entries, id);
    if k >= 0 {
        entries[k].1
    } else {
        Seq::empty()
    }
}

/// The endpoints that do not have port `port`, in order.
pub open spec fn without_port(eps: Seq<Endpoint>, port: u16) -> Seq<Endpoint>
    decreases eps.len(),
{
    if eps.len() == 0 {
        Seq::empty()
    } else if eps.last().port == port {
        without_port(eps.drop_last(), port)
    } else {
        without_port(eps.drop_last(), port).push(eps.last())
    }
}

/// Every endpoint of every entry, in order.
pub open spec fn flatten(entries: Seq<(u128, Seq<Endpoint>)>) -> Seq<Endpoint>
    decreases entries.len(),
{
    if entries.len() == 0 {
        Seq::empty()
    } else {
        flatten(entries.drop_last()) + entries.last().1
    }
}

proof fn lemma_entry_index(entries: Seq<(u128, Seq<Endpoint>)>, id: u128)
    ensures
        -1 <= entry_index(entries, id) < entries.len(),
        entry_index(entries, id) >= 0 ==> entries[entry_index(entries, id)].0 == id,
        entry_index(entries, id) < 0 ==> forall|k: int| 0 <= k < entries.len() ==> entries[k].0 != id,
    decreases entries.len(),
{
    if entries.len() > 0 {
        lemma_entry_index(entries.drop_last(), id);
        if entries.last().0 != id {
            assert forall|k: int| 0 <= k < entries.len() - 1 implies entries[k] == entries.drop_last()[k] by {}
        }
    }
}

impl ServiceDiscovery {
    /// The entries: each deployment with its endpoints.
    pub closed spec fn entries(&self) -> Seq<(u128, Seq<Endpoint>)> {
        self.entries@.map_values(|e: (u128, Vec<Endpoint>)| (e.0, e.1@))
    }

    /// Each deployment has one entry, and no entry is empty.
    pub open spec fn wf(&self) -> bool {
        &&& forall|i: int, j: int|
            0 <= i < j < self.entries().len() ==> self.entries()[i].0 != self.entries()[j].0
        &&& forall|i: int| 0 <= i < self.entries().len() ==> self.entries()[i].1.len() > 0
    }

    /// An empty registry.
    pub fn new() -> (r: Self)
        ensures
            r.wf(),
            r.entries().len() == 0,
    {
        let r = ServiceDiscovery { entries: Vec::new() };
        assert(r.entries() =~= Seq::<(u128, Seq<Endpoint>)>::empty());
        r
    }

    fn find(&self, id: u128) -> (r: Option<usize>)
        ensures
            r matches Some(k) ==> k as int == entry_index(self.entries(), id),
            r is None <==> entry_index(self.entries(), id) < 0,
    {
        let mut i: usize = self.entries.len();
        assert(self.entries().subrange(0, i as int) =~= self.entries());
        while i > 0
            invariant
                i <= self.entries@.len(),
                entry_index(self.entries(), id) == entry_index(self.entries().subrange(0, i as int), id),
            decreases i,
        {
            let ghost prefix = self.entries().subrange(0, i as int);
            assert(prefix.drop_last() =~= self.entries().subrange(0, i as int - 1));
            assert(prefix.last() == self.entries()[i - 1]);
            if self.entries[i - 1].0 == id {
                return Some(i - 1);
            }
            i = i - 1;
        }
        None
    }

    /// Adds `endpoint` last among those of deployment `deployment_id`.
    pub fn register(&mut self, deployment_id: u128, endpoint: Endpoint)
        requires
            old(self).wf(),
        ensures
            final(self).wf(),
            endpoints_of(final(self).entries(), deployment_id) == endpoints_of(
                old(self).entries(),
                deployment_id,
            ).push(endpoint),
            forall|id: u128|
                id != deployment_id ==> #[trigger] endpoints_of(final(self).entries(), id)
                    == endpoints_of(old(self).entries(), id),
    {
        let ghost es = self.entries();
        proof {
            lemma_entry_index(es, deployment_id);
        }
        match self.find(deployment_id) {
            Some(k) => {
                let (id, mut eps) = self.entries.remove(k);
                eps.push(endpoint);
                self.entries.insert(k, (id, eps));
                assert(self.entries() =~= es.update(k as int, (id, es[k as int].1.push(endpoint))));
                proof {
                    lemma_update_keeps_index(es, k as int, es[k as int].1.push(endpoint));
                }
            },
            None => {
                let mut eps: Vec<Endpoint> = Vec::new();
                eps.push(endpoint);
                self.entries.push((deployment_id, eps));
                assert(self.entries() =~= es.push((deployment_id, seq![endpoint])));
                assert(seq![endpoint] =~= Seq::<Endpoint>::empty().push(endpoint));
                proof {
                    lemma_push_new_entry(es, deployment_id, seq![endpoint]);
                }
            },
        }
    }

    /// Removes the endpoints with port `port` from deployment `deployment_id`,
    /// and its entry when none is left.
    pub fn unregister(&mut self, deployment_id: u128, port: u16)
        requires
            old(self).wf(),
        ensures
            final(self).wf(),
            endpoints_of(final(self).entries(), deployment_id) == without_port(
                endpoints_of(old(self).entries(), deployment_id),
                port,
            ),
            forall|id: u128|
                id != deployment_id ==> #[trigger] endpoints_of(final(self).entries(), id)
                    == endpoints_of(old(self).entries(), id),
    {
        let ghost es = self.entries();
        proof {
            lemma_entry_index(es, deployment_id);
        }
        match self.find(deployment_id) {
            Some(k) => {
                let (id, eps) = self.entries.remove(k);
                let ghost rest = self.entries();
                assert(rest =~= es.remove(k as int));
                let mut kept: Vec<Endpoint> = Vec::new();
                let mut i: usize = 0;
                while i < eps.len()
                    invariant
                        i <= eps@.len(),
                        kept@ == without_port(eps@.subrange(0, i as int), port),
                    decreases eps@.len() - i,
                {
                    let ghost prefix = eps@.subrange(0, i as int + 1);
                    assert(prefix.drop_last() =~= eps@.subrange(0, i as int));
                    if eps[i].port != port {
                        kept.push(eps[i].clone());
                    }
                    i = i + 1;
                }
                assert(eps@.subrange(0, i as int) =~= eps@);
                if kept.len() > 0 {
                    self.entries.insert(k, (id, kept));
                    assert(self.entries() =~= es.update(k as int, (id, without_port(es[k as int].1, port))));
                    proof {
                        lemma_update_keeps_index(es, k as int, without_port(es[k as int].1, port));
                    }
                } else {
                    proof {
                        lemma_remove_entry(es, k as int);
                    }
                }
            },
            None => {
                assert(without_port(Seq::<Endpoint>::empty(), port) == Seq::<Endpoint>::empty());
            },
        }
    }

    /// Copies of the endpoints of deployment `deployment_id`, none when it
    /// has no entry.
    pub fn get_endpoints(&self, deployment_id: u128) -> (r: Vec<Endpoint>)
        ensures
            r@ == endpoints_of(self.entries(), deployment_id),
    {
        proof {
            lemma_entry_index(self.entries(), deployment_id);
        }
        match self.find(deployment_id) {
            Some(k) => {
                let r = copy_endpoints(&self.entries[k].1);
                assert(self.entries()[k as int].1 == self.entries@[k as int].1@);
                r
            },
            None => Vec::new(),
        }
    }

    /// Copies of every endpoint, deployment by deployment.
    pub fn get_all_endpoints(&self) -> (r: Vec<Endpoint>)
        ensures
            r@ == flatten(self.entries()),
    {
        let mut r: Vec<Endpoint> = Vec::new();
        let mut i: usize = 0;
        while i < self.entries.len()
            invariant
                i <= self.entries@.len(),
                r@ == flatten(self.entries().subrange(0, i as int)),
            decreases self.entries@.len() - i,
        {
            let ghost prefix = self.entries().subrange(0, i as int + 1);
            assert(prefix.drop_last() =~= self.entries().subrange(0, i as int));
            let more = copy_endpoints(&self.entries[i].1);
            let ghost before = r@;
            let mut j: usize = 0;
            while j < more.len()
                invariant
                    j <= more@.len(),
                    r@ == before + more@.subrange(0, j as int),
                decreases more@.len() - j,
            {
                r.push(more[j].clone());
                assert(more@.subrange(0, j as int + 1) =~= more@.subrange(0, j as int).push(more@[j as int]));
                j = j + 1;
            }
            assert(more@.subrange(0, j as int) =~= more@);
            i = i + 1;
        }
        assert(self.entries().subrange(0, i as int) =~= self.entries());
        r
    }

    /// Removes every endpoint of deployment `deployment_id`.
    pub fn clear(&mut self, deployment_id: u128)
        requires
            old(self).wf(),
        ensures
            final(self).wf(),
            endpoints_of(final(self).entries(), deployment_id).len() == 0,
            forall|id: u128|
                id != deployment_id ==> #[trigger] endpoints_of(final(self).entries(), id)
                    == endpoints_of(old(self).entries(), id),
    {
        let ghost es = self.entries();
        proof {
            lemma_entry_index(es, deployment_id);
        }
        match self.find(deployment_id) {
            Some(k) => {
                self.entries.remove(k);
                assert(self.entries() =~= es.remove(k as int));
                proof {
                    lemma_remove_entry(es, k as int);
                }
            },
            None => {},
        }
    }
}

impl Default for ServiceDiscovery {
    fn default() -> (r: Self)
        ensures
            r.wf(),
            r.entries().len() == 0,
    {
        ServiceDiscovery::new()
    }
}

/// Copies of the endpoints of `eps`.
fn copy_endpoints(eps: &Vec<Endpoint>) -> (r: Vec<Endpoint>)
    ensures
        r@ == eps@,
{
    let mut r: Vec<Endpoint> = Vec::new();
    let mut i: usize = 0;
    while i < eps.len()
        invariant
            i <= eps@.len(),
            r@ == eps@.subrange(0, i as int),
        decreases eps@.len() - i,
    {
        r.push(eps[i].clone());
        assert(r@ =~= eps@.subrange(0, i as int + 1));
        i = i + 1;
    }
    r
}

/// Giving the entry at `k` new non-empty endpoints keeps the registry
/// well-formed and changes only that deployment.
proof fn lemma_update_keeps_index(es: Seq<(u128, Seq<Endpoint>)>, k: int, eps: Seq<Endpoint>)
    requires
        0 <= k < es.len(),
        eps.len() > 0,
        forall|i: int, j: int| 0 <= i < j < es.len() ==> es[i].0 != es[j].0,
        forall|i: int| 0 <= i < es.len() ==> es[i].1.len() > 0,
    ensures
        forall|i: int, j: int|
            0 <= i < j < es.len() ==> es.update(k, (es[k].0, eps))[i].0 != es.update(k, (es[k].0, eps))[j].0,
        forall|i: int| 0 <= i < es.len() ==> es.update(k, (es[k].0, eps))[i].1.len() > 0,
        endpoints_of(es.update(k, (es[k].0, eps)), es[k].0) == eps,
        forall|id: u128|
            id != es[k].0 ==> #[trigger] endpoints_of(es.update(k, (es[k].0, eps)), id) == endpoints_of(
                es,
                id,
            ),
{
    let es2 = es.update(k, (es[k].0, eps));
    assert forall|id: u128| entry_index(es2, id) == entry_index(es, id) by {
        lemma_same_keys(es, es2, id);
    }
    assert forall|id: u128| id != es[k].0 implies #[trigger] endpoints_of(es2, id) == endpoints_of(es, id) by {
        lemma_same_keys(es, es2, id);
        lemma_entry_index(es, id);
        let a = entry_index(es, id);
        if a >= 0 {
            assert(a != k);
            assert(es2[a] == es[a]);
        }
    }
    lemma_entry_index(es, es[k].0);
    let kk = entry_index(es, es[k].0);
    assert(kk == k) by {
        if kk != k {
            assert(es[kk].0 == es[k].0);
        }
    }
}

/// Index lookup sees only the keys.
proof fn lemma_same_keys(a: Seq<(u128, Seq<Endpoint>)>, b: Seq<(u128, Seq<Endpoint>)>, id: u128)
    requires
        a.len() == b.len(),
        forall|i: int| 0 <= i < a.len() ==> a[i].0 == b[i].0,
    ensures
        entry_index(a, id) == entry_index(b, id),
    decreases a.len(),
{
    if a.len() > 0 {
        assert(a.last().0 == b.last().0);
        lemma_same_keys(a.drop_last(), b.drop_last(), id);
    }
}

/// A new deployment comes last with its endpoints and changes no other.
proof fn lemma_push_new_entry(es: Seq<(u128, Seq<Endpoint>)>, id: u128, eps: Seq<Endpoint>)
    requires
        entry_index(es, id) < 0,
        eps.len() > 0,
        forall|i: int, j: int| 0 <= i < j < es.len() ==> es[i].0 != es[j].0,
        forall|i: int| 0 <= i < es.len() ==> es[i].1.len() > 0,
    ensures
        forall|i: int, j: int| 0 <= i < j < es.len() + 1 ==> es.push((id, eps))[i].0 != es.push((id, eps))[j].0,
        forall|i: int| 0 <= i < es.len() + 1 ==> es.push((id, eps))[i].1.len() > 0,
        endpoints_of(es.push((id, eps)), id) == eps,
        forall|other: u128|
            other != id ==> #[trigger] endpoints_of(es.push((id, eps)), other) == endpoints_of(es, other),
{
    lemma_entry_index(es, id);
    let es2 = es.push((id, eps));
    assert(es2.drop_last() =~= es);
    assert forall|other: u128| other != id implies #[trigger] endpoints_of(es2, other) == endpoints_of(es, other) by {
        assert(entry_index(es2, other) == entry_index(es, other));
        lemma_entry_index(es, other);
        let a = entry_index(es, other);
        if a >= 0 {
            assert(es2[a] == es[a]);
        }
    }
}

/// Removing the entry at `k` keeps the registry well-formed, forgets that
/// deployment, and changes no other.
proof fn lemma_remove_entry(es: Seq<(u128, Seq<Endpoint>)>, k: int)
    requires
        0 <= k < es.len(),
        forall|i: int, j: int| 0 <= i < j < es.len() ==> es[i].0 != es[j].0,
        forall|i: int| 0 <= i < es.len() ==> es[i].1.len() > 0,
    ensures
        forall|i: int, j: int| 0 <= i < j < es.len() - 1 ==> es.remove(k)[i].0 != es.remove(k)[j].0,
        forall|i: int| 0 <= i < es.len() - 1 ==> es.remove(k)[i].1.len() > 0,
        endpoints_of(es.remove(k), es[k].0).len() == 0,
        forall|id: u128| id != es[k].0 ==> #[trigger] endpoints_of(es.remove(k), id) == endpoints_of(es, id),
{
    let es2 = es.remove(k);
    assert forall|i: int, j: int| 0 <= i < j < es2.len() implies es2[i].0 != es2[j].0 by {
        let ii = if i < k { i } else { i + 1 };
        let jj = if j < k { j } else { j + 1 };
        assert(es2[i] == es[ii] && es2[j] == es[jj]);
    }
    assert forall|i: int| 0 <= i < es2.len() implies es2[i].1.len() > 0 by {
        let ii = if i < k { i } else { i + 1 };
        assert(es2[i] == es[ii]);
    }
    lemma_entry_index(es2, es[k].0);
    if entry_index(es2, es[k].0) >= 0 {
        let i = entry_index(es2, es[k].0);
        let ii = if i < k { i } else { i + 1 };
        assert(es2[i] == es[ii]);
    }
    assert forall|id: u128| id != es[k].0 implies #[trigger] endpoints_of(es2, id) == endpoints_of(es, id) by {
        lemma_entry_index(es, id);
        lemma_entry_index(es2, id);
        let a = entry_index(es, id);
        let b = entry_index(es2, id);
        if a >= 0 {
            let aa = if a < k { a } else { a - 1 };
            assert(es2[aa] == es[a]);
            assert(b == aa) by {
                if b != aa {
                    if b < 0 {
                    } else {
                        let bb = if b < k { b } else { b + 1 };
                        assert(es2[b] == es[bb]);
                    }
                }
            }
        } else if b >= 0 {
            let bb = if b < k { b } else { b + 1 };
            assert(es2[b] == es[bb]);
        }
    }
}

} // verus!
