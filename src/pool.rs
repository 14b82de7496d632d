//! The port pool and the bookkeeping that ties granted ports and GPUs to the
//! workers that hold them.

use crate::gpu_allocator::without;
use crate::model::Worker;
use vstd::prelude::*;

verus! {

/// The ports of `[lo, hi)` that are not in `allocated`, in increasing order.
pub open spec fn free_ports(allocated: Set<u16>, lo: int, hi: int) -> Seq<u16>
    decreases hi - lo,
{
    if hi <= lo {
        Seq::empty()
    } else {
        let rest = free_ports(allocated, lo, hi - 1);
        if allocated.contains((hi - 1) as u16) {
            rest
        } else {
            rest.push((hi - 1) as u16)
        }
    }
}

/// Free ports lie in the range, are not allocated, and increase.
pub proof fn lemma_free_ports(allocated: Set<u16>, lo: int, hi: int)
    requires
        0 <= lo,
        hi <= 65536,
    ensures
        forall|k: int|
            0 <= k < free_ports(allocated, lo, hi).len() ==> lo <= #[trigger] free_ports(
                allocated,
                lo,
                hi,
            )[k] < hi && !allocated.contains(free_ports(allocated, lo, hi)[k]),
        forall|a: int, b: int|
            0 <= a < b < free_ports(allocated, lo, hi).len() ==> #[trigger] free_ports(
                allocated,
                lo,
                hi,
            )[a] < #[trigger] free_ports(allocated, lo, hi)[b],
        free_ports(allocated, lo, hi).no_duplicates(),
        lo <= hi ==> free_ports(allocated, lo, hi).len() <= hi - lo,
    decreases hi - lo,
{
    if hi > lo {
        lemma_free_ports(allocated, lo, hi - 1);
    }
    let f = free_ports(allocated, lo, hi);
    assert forall|a: int, b: int| 0 <= a < b < f.len() implies f[a] != f[b] by {
        assert(f[a] < f[b]);
    }
}

/// Marking more ports as allocated removes exactly those from the free list.
pub proof fn lemma_free_ports_grow(allocated: Set<u16>, more: Set<u16>, lo: int, hi: int)
    ensures
        free_ports(allocated.union(more), lo, hi) == without(free_ports(allocated, lo, hi), more),
    decreases hi - lo,
{
    if hi > lo {
        lemma_free_ports_grow(allocated, more, lo, hi - 1);
        let f = free_ports(allocated, lo, hi - 1);
        if !allocated.contains((hi - 1) as u16) {
            assert(f.push((hi - 1) as u16).drop_last() =~= f);
        }
    }
}

/// The free list depends only on which ports of the range are allocated.
pub proof fn lemma_free_ports_frame(a1: Set<u16>, a2: Set<u16>, lo: int, hi: int)
    requires
        forall|x: int| lo <= x < hi ==> a1.contains(#[trigger] (x as u16)) == a2.contains(x as u16),
    ensures
        free_ports(a1, lo, hi) == free_ports(a2, lo, hi),
    decreases hi - lo,
{
    if hi > lo {
        lemma_free_ports_frame(a1, a2, lo, hi - 1);
    }
}

/// Giving back an allocated port of the range adds one free port.
pub proof fn lemma_free_ports_release(allocated: Set<u16>, p: u16, lo: int, hi: int)
    requires
        allocated.contains(p),
        0 <= lo <= p < hi <= 65536,
    ensures
        free_ports(allocated.remove(p), lo, hi).len() == free_ports(allocated, lo, hi).len() + 1,
    decreases hi - lo,
{
    if p == hi - 1 {
        assert forall|x: int| lo <= x < hi - 1 implies allocated.remove(p).contains(
            #[trigger] (x as u16),
        ) == allocated.contains(x as u16) by {
            assert(x as u16 != p);
        }
        lemma_free_ports_frame(allocated.remove(p), allocated, lo, hi - 1);
    } else {
        lemma_free_ports_release(allocated, p, lo, hi - 1);
        assert(((hi - 1) as u16) != p);
    }
}

/// Each worker holds a distinct port of `[lo, hi)`, and `ports` is exactly
/// the set of ports that workers hold.
pub open spec fn ports_match(ws: Seq<Worker>, ports: Set<u16>, lo: int, hi: int) -> bool {
    &&& forall|i: int| 0 <= i < ws.len() ==> lo <= #[trigger] ws[i].endpoint.port < hi
    &&& forall|i: int, j: int|
        0 <= i < ws.len() && 0 <= j < ws.len() && i != j ==> #[trigger] ws[i].endpoint.port
            != #[trigger] ws[j].endpoint.port
    &&& forall|p: u16|
        #[trigger] ports.contains(p) <==> exists|i: int| 0 <= i < ws.len() && ws[i].endpoint.port == p
}

/// No GPU is held by two workers, and `allocated` is exactly the set of GPUs
/// that workers hold.
pub open spec fn gpus_match(ws: Seq<Worker>, allocated: Set<u32>) -> bool {
    &&& forall|i: int, j: int, a: int, b: int|
        0 <= i < ws.len() && 0 <= j < ws.len() && i != j && 0 <= a < ws[i].gpu_ids@.len() && 0 <= b
            < ws[j].gpu_ids@.len() ==> #[trigger] ws[i].gpu_ids@[a] != #[trigger] ws[j].gpu_ids@[b]
    &&& forall|g: u32|
        #[trigger] allocated.contains(g) <==> exists|i: int, k: int|
            0 <= i < ws.len() && 0 <= k < ws[i].gpu_ids@.len() && ws[i].gpu_ids@[k] == g
}

/// Adding a worker that holds a free port and free GPUs keeps the books.
pub proof fn lemma_match_push(
    ws: Seq<Worker>,
    ports: Set<u16>,
    allocated: Set<u32>,
    lo: int,
    hi: int,
    w: Worker,
)
    requires
        ports_match(ws, ports, lo, hi),
        gpus_match(ws, allocated),
        lo <= w.endpoint.port < hi,
        !ports.contains(w.endpoint.port),
        forall|k: int| 0 <= k < w.gpu_ids@.len() ==> !allocated.contains(#[trigger] w.gpu_ids@[k]),
    ensures
        ports_match(ws.push(w), ports.insert(w.endpoint.port), lo, hi),
        gpus_match(ws.push(w), allocated.union(w.gpu_ids@.to_set())),
{
    let ws2 = ws.push(w);
    let n = ws.len() as int;
    assert(ws2[n] == w);
    assert forall|i: int| 0 <= i < n implies #[trigger] ws2[i] == ws[i] by {}
    assert forall|i: int| 0 <= i < n implies ports.contains(#[trigger] ws[i].endpoint.port) by {}
    assert forall|p: u16| #[trigger] ports.insert(w.endpoint.port).contains(p) <==> exists|i: int|
        0 <= i < ws2.len() && ws2[i].endpoint.port == p by {
        if ports.insert(w.endpoint.port).contains(p) {
            if p == w.endpoint.port {
                assert(ws2[n].endpoint.port == p);
            } else {
                let i = choose|i: int| 0 <= i < ws.len() && ws[i].endpoint.port == p;
                assert(ws2[i].endpoint.port == p);
            }
        }
        if exists|i: int| 0 <= i < ws2.len() && ws2[i].endpoint.port == p {
            let i = choose|i: int| 0 <= i < ws2.len() && ws2[i].endpoint.port == p;
            if i < n {
                assert(ws[i].endpoint.port == p);
            }
        }
    }
    assert forall|i: int, j: int, a: int, b: int|
        0 <= i < ws2.len() && 0 <= j < ws2.len() && i != j && 0 <= a < ws2[i].gpu_ids@.len() && 0
            <= b < ws2[j].gpu_ids@.len() implies #[trigger] ws2[i].gpu_ids@[a]
        != #[trigger] ws2[j].gpu_ids@[b] by {
        if i < n && j < n {
        } else if i < n {
            assert(allocated.contains(ws[i].gpu_ids@[a]));
        } else {
            assert(allocated.contains(ws[j].gpu_ids@[b]));
        }
    }
    let al2 = allocated.union(w.gpu_ids@.to_set());
    assert forall|g: u32| #[trigger] al2.contains(g) <==> exists|i: int, k: int|
        0 <= i < ws2.len() && 0 <= k < ws2[i].gpu_ids@.len() && ws2[i].gpu_ids@[k] == g by {
        if al2.contains(g) {
            if allocated.contains(g) {
                let (i, k) = choose|i: int, k: int|
                    0 <= i < ws.len() && 0 <= k < ws[i].gpu_ids@.len() && ws[i].gpu_ids@[k] == g;
                assert(ws2[i].gpu_ids@[k] == g);
            } else {
                let k = choose|k: int| 0 <= k < w.gpu_ids@.len() && w.gpu_ids@[k] == g;
                assert(ws2[n].gpu_ids@[k] == g);
            }
        }
        if exists|i: int, k: int|
            0 <= i < ws2.len() && 0 <= k < ws2[i].gpu_ids@.len() && ws2[i].gpu_ids@[k] == g {
            let (i, k) = choose|i: int, k: int|
                0 <= i < ws2.len() && 0 <= k < ws2[i].gpu_ids@.len() && ws2[i].gpu_ids@[k] == g;
            if i < n {
                assert(allocated.contains(g));
            } else {
                assert(w.gpu_ids@.to_set().contains(g));
            }
        }
    }
}

/// Removing a worker and giving back its port and GPUs keeps the books.
pub proof fn lemma_match_remove(
    ws: Seq<Worker>,
    ports: Set<u16>,
    allocated: Set<u32>,
    lo: int,
    hi: int,
    i: int,
)
    requires
        ports_match(ws, ports, lo, hi),
        gpus_match(ws, allocated),
        0 <= i < ws.len(),
    ensures
        ports.contains(ws[i].endpoint.port),
        ports_match(ws.remove(i), ports.remove(ws[i].endpoint.port), lo, hi),
        gpus_match(ws.remove(i), allocated.difference(ws[i].gpu_ids@.to_set())),
{
    let ws2 = ws.remove(i);
    let p = ws[i].endpoint.port;
    let gs = ws[i].gpu_ids@.to_set();
    assert(ports.contains(p));
    assert forall|j: int| 0 <= j < ws2.len() implies #[trigger] ws2[j] == ws[if j < i {
        j
    } else {
        j + 1
    }] by {}
    assert forall|j: int| 0 <= j < ws2.len() implies lo <= #[trigger] ws2[j].endpoint.port < hi by {
        let jj = if j < i { j } else { j + 1 };
        assert(ws2[j] == ws[jj]);
    }
    assert forall|a: int, b: int|
        0 <= a < ws2.len() && 0 <= b < ws2.len() && a != b implies #[trigger] ws2[a].endpoint.port
        != #[trigger] ws2[b].endpoint.port by {
        let aa = if a < i { a } else { a + 1 };
        let bb = if b < i { b } else { b + 1 };
        assert(ws2[a] == ws[aa] && ws2[b] == ws[bb]);
        assert(ws[aa].endpoint.port != ws[bb].endpoint.port);
    }
    assert forall|q: u16| #[trigger] ports.remove(p).contains(q) <==> exists|j: int|
        0 <= j < ws2.len() && ws2[j].endpoint.port == q by {
        if ports.remove(p).contains(q) {
            let j = choose|j: int| 0 <= j < ws.len() && ws[j].endpoint.port == q;
            assert(j != i);
            let jj = if j < i { j } else { j - 1 };
            assert(ws2[jj] == ws[j]);
        }
        if exists|j: int| 0 <= j < ws2.len() && ws2[j].endpoint.port == q {
            let j = choose|j: int| 0 <= j < ws2.len() && ws2[j].endpoint.port == q;
            let jj = if j < i { j } else { j + 1 };
            assert(ws2[j] == ws[jj]);
            assert(ws[jj].endpoint.port != ws[i].endpoint.port);
        }
    }
    assert forall|a: int, b: int, x: int, y: int|
        0 <= a < ws2.len() && 0 <= b < ws2.len() && a != b && 0 <= x < ws2[a].gpu_ids@.len() && 0
            <= y < ws2[b].gpu_ids@.len() implies #[trigger] ws2[a].gpu_ids@[x]
        != #[trigger] ws2[b].gpu_ids@[y] by {
        let aa = if a < i { a } else { a + 1 };
        let bb = if b < i { b } else { b + 1 };
        assert(ws2[a] == ws[aa] && ws2[b] == ws[bb]);
        assert(ws[aa].gpu_ids@[x] != ws[bb].gpu_ids@[y]);
    }
    let al2 = allocated.difference(gs);
    assert forall|g: u32| #[trigger] al2.contains(g) <==> exists|j: int, k: int|
        0 <= j < ws2.len() && 0 <= k < ws2[j].gpu_ids@.len() && ws2[j].gpu_ids@[k] == g by {
        if al2.contains(g) {
            let (j, k) = choose|j: int, k: int|
                0 <= j < ws.len() && 0 <= k < ws[j].gpu_ids@.len() && ws[j].gpu_ids@[k] == g;
            if j == i {
                assert(gs.contains(g));
            }
            let jj = if j < i { j } else { j - 1 };
            assert(ws2[jj] == ws[j]);
            assert(ws2[jj].gpu_ids@[k] == g);
        }
        if exists|j: int, k: int|
            0 <= j < ws2.len() && 0 <= k < ws2[j].gpu_ids@.len() && ws2[j].gpu_ids@[k] == g {
            let (j, k) = choose|j: int, k: int|
                0 <= j < ws2.len() && 0 <= k < ws2[j].gpu_ids@.len() && ws2[j].gpu_ids@[k] == g;
            let jj = if j < i { j } else { j + 1 };
            assert(ws2[j] == ws[jj]);
            assert(ws[jj].gpu_ids@[k] == g);
            assert(allocated.contains(g));
            if gs.contains(g) {
                let x = choose|x: int| 0 <= x < ws[i].gpu_ids@.len() && ws[i].gpu_ids@[x] == g;
                assert(ws[jj].gpu_ids@[k] != ws[i].gpu_ids@[x]);
            }
        }
    }
}

/// Workers that keep their ports and GPUs keep the books.
pub proof fn lemma_match_same_holdings(
    ws: Seq<Worker>,
    ws2: Seq<Worker>,
    ports: Set<u16>,
    allocated: Set<u32>,
    lo: int,
    hi: int,
)
    requires
        ports_match(ws, ports, lo, hi),
        gpus_match(ws, allocated),
        ws2.len() == ws.len(),
        forall|i: int|
            0 <= i < ws.len() ==> (#[trigger] ws2[i]).endpoint.port == ws[i].endpoint.port
                && ws2[i].gpu_ids@ == ws[i].gpu_ids@,
    ensures
        ports_match(ws2, ports, lo, hi),
        gpus_match(ws2, allocated),
{
    assert forall|i: int| 0 <= i < ws2.len() implies lo <= #[trigger] ws2[i].endpoint.port < hi by {
        assert(ws2[i].endpoint.port == ws[i].endpoint.port);
    }
    assert forall|i: int, j: int|
        0 <= i < ws2.len() && 0 <= j < ws2.len() && i != j implies #[trigger] ws2[i].endpoint.port
        != #[trigger] ws2[j].endpoint.port by {
        assert(ws[i].endpoint.port != ws[j].endpoint.port);
    }
    assert forall|p: u16| #[trigger] ports.contains(p) <==> exists|i: int|
        0 <= i < ws2.len() && ws2[i].endpoint.port == p by {
        if ports.contains(p) {
            let i = choose|i: int| 0 <= i < ws.len() && ws[i].endpoint.port == p;
            assert(ws2[i].endpoint.port == p);
        }
        if exists|i: int| 0 <= i < ws2.len() && ws2[i].endpoint.port == p {
            let i = choose|i: int| 0 <= i < ws2.len() && ws2[i].endpoint.port == p;
            assert(ws[i].endpoint.port == p);
        }
    }
    assert forall|i: int, j: int, a: int, b: int|
        0 <= i < ws2.len() && 0 <= j < ws2.len() && i != j && 0 <= a < ws2[i].gpu_ids@.len() && 0
            <= b < ws2[j].gpu_ids@.len() implies #[trigger] ws2[i].gpu_ids@[a]
        != #[trigger] ws2[j].gpu_ids@[b] by {
        assert(ws2[i].gpu_ids@ == ws[i].gpu_ids@ && ws2[j].gpu_ids@ == ws[j].gpu_ids@);
        assert(ws[i].gpu_ids@[a] != ws[j].gpu_ids@[b]);
    }
    assert forall|g: u32| #[trigger] allocated.contains(g) <==> exists|i: int, k: int|
        0 <= i < ws2.len() && 0 <= k < ws2[i].gpu_ids@.len() && ws2[i].gpu_ids@[k] == g by {
        if allocated.contains(g) {
            let (i, k) = choose|i: int, k: int|
                0 <= i < ws.len() && 0 <= k < ws[i].gpu_ids@.len() && ws[i].gpu_ids@[k] == g;
            assert(ws2[i].gpu_ids@ == ws[i].gpu_ids@);
            assert(ws2[i].gpu_ids@[k] == g);
        }
        if exists|i: int, k: int|
            0 <= i < ws2.len() && 0 <= k < ws2[i].gpu_ids@.len() && ws2[i].gpu_ids@[k] == g {
            let (i, k) = choose|i: int, k: int|
                0 <= i < ws2.len() && 0 <= k < ws2[i].gpu_ids@.len() && ws2[i].gpu_ids@[k] == g;
            assert(ws2[i].gpu_ids@ == ws[i].gpu_ids@);
            assert(ws[i].gpu_ids@[k] == g);
        }
    }
}

} // verus!
