//! Uniform payloads and the binding allocator.
//!
//! A `Uniform` is one frame's payload for a shader-visible buffer: raw byte
//! content, the shader stages that read it, and — for variable-length
//! payloads — a declared `[min_size, max_size]` range.  A `UniformBindGroup`
//! records the size range a long-lived GPU buffer binding was created to
//! serve.  The allocator maps every payload of a frame to a binding whose
//! range covers the payload's required range, creating new bindings only
//! when no existing one is both eligible and still unassigned this frame.

use vstd::prelude::*;

verus! {

/// Size range of a variable-length payload whose exact content length is
/// only known at draw time.
#[derive(Clone, Copy, PartialEq, Eq, Structural, Debug)]
pub struct DynamicInfo {
    pub min_size: u64,
    pub max_size: u64,
}

/// One uniform payload for the current frame.
#[derive(Clone, Debug)]
pub struct Uniform {
    pub data: Vec<u8>,
    /// Shader stage bits (as the GPU backend encodes them).
    pub stages: u32,
    /// `Some` for variable-length payloads; `None` means the required size
    /// is exactly the content length.
    pub dynamic: Option<DynamicInfo>,
}

/// What a caller keeps of a uniform it declared ahead of time: the least
/// size its binding must accept and the stages that read it.
#[derive(Clone, Copy, PartialEq, Eq, Structural, Debug)]
pub struct UniformHandle {
    pub min_size: u64,
    /// Shader stage bits (as the GPU backend encodes them).
    pub stages: u32,
}

/// The size range a reusable GPU buffer binding accepts.  The GPU-side
/// objects (buffer, bind group, layout) live with the embedding application,
/// in an array parallel to the context's binding pool.
#[derive(Clone, Copy, PartialEq, Eq, Structural, Debug)]
pub struct UniformBindGroup {
    pub min_size: u64,
    pub max_size: u64,
}

/// Lower end of the size range a payload requires of its binding.
pub open spec fn required_min(u: Uniform) -> int {
    match u.dynamic {
        Some(d) => d.min_size as int,
        None => u.data@.len() as int,
    }
}

/// Upper end of the size range a payload requires of its binding.
pub open spec fn required_max(u: Uniform) -> int {
    match u.dynamic {
        Some(d) => d.max_size as int,
        None => u.data@.len() as int,
    }
}

/// A binding is eligible for a payload when its range fully contains the
/// payload's required range.
pub open spec fn covers(b: UniformBindGroup, u: Uniform) -> bool {
    b.min_size <= required_min(u) && b.max_size >= required_max(u)
}

/// The binding a payload gets when no existing one is eligible: sized to the
/// payload's exact required range.
pub open spec fn binding_for(u: Uniform) -> UniformBindGroup {
    UniformBindGroup {
        min_size: required_min(u) as u64,
        max_size: required_max(u) as u64,
    }
}

impl UniformBindGroup {
    /// Builds the binding descriptor a fresh binding for `u` is created
    /// with: the payload's declared range for variable-length payloads, the
    /// exact content length otherwise.
    pub fn for_uniform(u: &Uniform) -> (r: UniformBindGroup)
        ensures
            r == binding_for(*u),
    {
        match &u.dynamic {
            Some(d) => UniformBindGroup { min_size: d.min_size, max_size: d.max_size },
            None => {
                let len = u.data.len() as u64;
                UniformBindGroup { min_size: len, max_size: len }
            },
        }
    }

    /// Whether this binding's range covers the payload's required range.
    pub fn accepts(&self, u: &Uniform) -> (r: bool)
        ensures
            r == covers(*self, *u),
    {
        match &u.dynamic {
            Some(d) => self.min_size <= d.min_size && self.max_size >= d.max_size,
            None => {
                let len = u.data.len() as u64;
                self.min_size <= len && self.max_size >= len
            },
        }
    }
}

/// Content length of payload `i`, the key the allocator sorts by.
pub open spec fn payload_size(us: Seq<Uniform>, i: int) -> nat {
    us[i].data@.len()
}

/// Position at which a payload with sort key `key` is inserted into an
/// already-sorted (descending, stable) index sequence: after every element
/// whose key is at least `key`.
pub open spec fn insert_pos(order: Seq<usize>, us: Seq<Uniform>, key: nat) -> int
    decreases order.len(),
{
    if order.len() == 0 {
        0
    } else if payload_size(us, order[0] as int) >= key {
        1 + insert_pos(order.drop_first(), us, key)
    } else {
        0
    }
}

/// The payload indices `0..n`, sorted by content length descending, ties in
/// encounter order (a stable insertion sort).
pub open spec fn sorted_order_rec(us: Seq<Uniform>, n: int) -> Seq<usize>
    decreases n,
{
    if n <= 0 {
        Seq::empty()
    } else {
        let prev = sorted_order_rec(us, n - 1);
        prev.insert(insert_pos(prev, us, payload_size(us, n - 1)), (n - 1) as usize)
    }
}

/// The order in which the allocator serves a frame's payloads.
pub open spec fn sorted_order(us: Seq<Uniform>) -> Seq<usize> {
    sorted_order_rec(us, us.len() as int)
}

proof fn lemma_insert_pos_char(order: Seq<usize>, us: Seq<Uniform>, key: nat, p: int)
    requires
        0 <= p <= order.len(),
        forall|m: int| 0 <= m < p ==> payload_size(us, #[trigger] order[m] as int) >= key,
        p < order.len() ==> payload_size(us, order[p] as int) < key,
    ensures
        insert_pos(order, us, key) == p,
    decreases order.len(),
{
    if order.len() == 0 {
    } else if payload_size(us, order[0] as int) >= key {
        assert(p >= 1);
        let rest = order.drop_first();
        assert(forall|m: int| 0 <= m < p - 1 ==> payload_size(us, #[trigger] rest[m] as int) >= key);
        lemma_insert_pos_char(rest, us, key, p - 1);
    } else {
        assert(p == 0);
    }
}

/// Index of the first binding at or after position `i` that is eligible for
/// `u` and not yet assigned this frame, if any.
pub open spec fn first_fit_from(
    pool: Seq<UniformBindGroup>,
    used: Set<int>,
    u: Uniform,
    i: int,
) -> Option<int>
    decreases pool.len() - i,
{
    if i < 0 || i >= pool.len() {
        None
    } else if covers(pool[i], u) && !used.contains(i) {
        Some(i)
    } else {
        first_fit_from(pool, used, u, i + 1)
    }
}

/// One frame of the allocator, serving payloads in the order given: each
/// payload takes the first eligible unassigned binding, or a fresh binding
/// sized to its exact range, appended to the pool.  Returns the assignment
/// pairs (payload position, binding index) and the final pool.
pub open spec fn alloc_rec(
    pool: Seq<UniformBindGroup>,
    us: Seq<Uniform>,
    order: Seq<usize>,
    used: Set<int>,
    acc: Seq<(usize, usize)>,
) -> (Seq<(usize, usize)>, Seq<UniformBindGroup>)
    decreases order.len(),
{
    if order.len() == 0 {
        (acc, pool)
    } else {
        let oi = order[0];
        match first_fit_from(pool, used, us[oi as int], 0) {
            Some(b) => alloc_rec(
                pool,
                us,
                order.drop_first(),
                used.insert(b),
                acc.push((oi, b as usize)),
            ),
            None => alloc_rec(
                pool.push(binding_for(us[oi as int])),
                us,
                order.drop_first(),
                used.insert(pool.len() as int),
                acc.push((oi, pool.len() as usize)),
            ),
        }
    }
}

/// The allocator's answer for one frame: payloads are served largest first.
pub open spec fn alloc_model(
    pool: Seq<UniformBindGroup>,
    us: Seq<Uniform>,
) -> (Seq<(usize, usize)>, Seq<UniformBindGroup>) {
    alloc_rec(pool, us, sorted_order(us), Set::empty(), Seq::empty())
}

/// Sorts payload indices by content length, largest first, ties kept in
/// encounter order.
fn sort_indices(uniforms: &[Uniform]) -> (order: Vec<usize>)
    ensures
        order@ == sorted_order(uniforms@),
        forall|k: int| 0 <= k < order@.len() ==> (#[trigger] order@[k]) < uniforms@.len(),
{
    let n = uniforms.len();
    let mut order: Vec<usize> = Vec::new();
    let mut i: usize = 0;
    while i < n
        invariant
            i <= n,
            n == uniforms@.len(),
            order@ == sorted_order_rec(uniforms@, i as int),
            forall|k: int| 0 <= k < order@.len() ==> (#[trigger] order@[k]) < i,
        decreases n - i,
    {
        let key = uniforms[i].data.len();
        let mut p: usize = 0;
        while p < order.len() && uniforms[order[p]].data.len() >= key
            invariant
                p <= order@.len(),
                n == uniforms@.len(),
                forall|k: int| 0 <= k < order@.len() ==> (#[trigger] order@[k]) < n,
                key == payload_size(uniforms@, i as int),
                forall|m: int| 0 <= m < p ==> payload_size(uniforms@, #[trigger] order@[m] as int) >= key,
            decreases order@.len() - p,
        {
            p += 1;
        }
        proof {
            lemma_insert_pos_char(order@, uniforms@, key as nat, p as int);
        }
        order.insert(p, i);
        i += 1;
    }
    order
}

/// Serves every payload of a frame: each gets a binding whose range covers
/// its required range, taken from the pool when an eligible binding is still
/// unassigned this frame, created and appended otherwise.  Returns one
/// `(payload position, binding index)` pair per payload.  The pool only
/// grows; existing bindings are never changed.
pub fn allocate_bindings(
    pool: &mut Vec<UniformBindGroup>,
    uniforms: &[Uniform],
) -> (r: Vec<(usize, usize)>)
    ensures
        r@ == alloc_model(old(pool)@, uniforms@).0,
        final(pool)@ == alloc_model(old(pool)@, uniforms@).1,
        r@.len() == uniforms@.len(),
        final(pool)@.len() >= old(pool)@.len(),
        forall|j: int| 0 <= j < old(pool)@.len() ==> final(pool)@[j] == old(pool)@[j],
        forall|t: int|
            0 <= t < r@.len() ==> (#[trigger] r@[t].1 as int) < final(pool)@.len() && (r@[t].0
                as int) < uniforms@.len() && covers(
                final(pool)@[r@[t].1 as int],
                uniforms@[r@[t].0 as int],
            ),
        forall|t1: int, t2: int|
            0 <= t1 < t2 < r@.len() ==> (#[trigger] r@[t1].1) != (#[trigger] r@[t2].1),
        forall|i: usize| 0 <= (i as int) < uniforms@.len() ==> #[trigger] payload_assigned(r@, i),
{
    let ghost pool0 = pool@;
    let ghost us = uniforms@;
    let order = sort_indices(uniforms);
    let ghost order_full = order@;
    let mut result: Vec<(usize, usize)> = Vec::new();
    let ghost mut used: Set<int> = Set::empty();
    let mut assigned: Vec<bool> = Vec::new();
    let mut j: usize = 0;
    while j < pool.len()
        invariant
            j <= pool@.len(),
            assigned@.len() == j,
            forall|b: int| 0 <= b < j ==> !(#[trigger] assigned@[b]),
        decreases pool@.len() - j,
    {
        assigned.push(false);
        j += 1;
    }

    proof {
        assert(order_full.skip(0) =~= order_full);
    }
    let mut k: usize = 0;
    while k < order.len()
        invariant
            k <= order_full.len(),
            order@ == order_full,
            us == uniforms@,
            forall|m: int| 0 <= m < order_full.len() ==> (#[trigger] order_full[m]) < us.len(),
            assigned@.len() == pool@.len(),
            forall|b: int| 0 <= b < pool@.len() ==> (#[trigger] assigned@[b]) == used.contains(b),
            forall|b: int| used.contains(b) ==> 0 <= b < pool@.len(),
            alloc_rec(pool0, us, order_full, Set::empty(), Seq::empty()) == alloc_rec(
                pool@,
                us,
                order_full.skip(k as int),
                used,
                result@,
            ),
        decreases order_full.len() - k,
    {
        let oi = order[k];
        let u = &uniforms[oi];
        proof {
            assert(order_full.skip(k as int)[0] == order_full[k as int]);
            assert(order_full.skip(k as int).drop_first() =~= order_full.skip(k as int + 1));
        }
        let mut b: usize = 0;
        while b < pool.len() && !(pool[b].accepts(u) && !assigned[b])
            invariant
                b <= pool@.len(),
                us == uniforms@,
                (oi as int) < us.len(),
                *u == us[oi as int],
                assigned@.len() == pool@.len(),
                forall|c: int| 0 <= c < pool@.len() ==> (#[trigger] assigned@[c]) == used.contains(
                    c,
                ),
                first_fit_from(pool@, used, us[oi as int], 0) == first_fit_from(
                    pool@,
                    used,
                    us[oi as int],
                    b as int,
                ),
            decreases pool@.len() - b,
        {
            b += 1;
        }
        if b < pool.len() {
            proof {
                assert(first_fit_from(pool@, used, us[oi as int], 0) == Some(b as int));
            }
            assigned.set(b, true);
            result.push((oi, b));
            proof {
                used = used.insert(b as int);
            }
        } else {
            proof {
                assert(first_fit_from(pool@, used, us[oi as int], 0) is None);
            }
            let nb = UniformBindGroup::for_uniform(u);
            let new_id = pool.len();
            pool.push(nb);
            assigned.push(true);
            result.push((oi, new_id));
            proof {
                used = used.insert(new_id as int);
            }
        }
        k += 1;
    }
    proof {
        assert(order_full.skip(k as int) =~= Seq::<usize>::empty());
        assert(alloc_model(pool0, us) == (result@, pool@));
        assert(pool@.len() == pool.len());
        assert forall|i: int| 0 <= i < us.len() implies payload_size(us, i) <= u64::MAX by {
            assert(us[i].data.len() == us[i].data@.len());
        }
        lemma_alloc_rec_props(pool0, us, order_full, Set::empty(), Seq::empty());
        lemma_alloc_rec_prefix(pool0, us, order_full, Set::empty(), Seq::empty());
        lemma_sorted_order_rec_props(us, us.len() as int);
        assert forall|i: usize| 0 <= (i as int) < us.len() implies #[trigger] payload_assigned(
            result@,
            i,
        ) by {
            assert(order_full.contains(i));
            let m = choose|m: int| 0 <= m < order_full.len() && order_full[m] == i;
            assert(result@[m].0 == order_full[m]);
        }
    }
    result
}

proof fn lemma_first_fit_props(
    pool: Seq<UniformBindGroup>,
    used: Set<int>,
    u: Uniform,
    i: int,
    b: int,
)
    requires
        first_fit_from(pool, used, u, i) == Some(b),
    ensures
        i <= b < pool.len(),
        covers(pool[b], u),
        !used.contains(b),
    decreases pool.len() - i,
{
    if i < 0 || i >= pool.len() {
    } else if covers(pool[i], u) && !used.contains(i) {
    } else {
        lemma_first_fit_props(pool, used, u, i + 1, b);
    }
}

proof fn lemma_alloc_rec_prefix(
    pool: Seq<UniformBindGroup>,
    us: Seq<Uniform>,
    order: Seq<usize>,
    used: Set<int>,
    acc: Seq<(usize, usize)>,
)
    ensures
        alloc_rec(pool, us, order, used, acc).1.len() >= pool.len(),
        forall|j: int|
            0 <= j < pool.len() ==> alloc_rec(pool, us, order, used, acc).1[j] == pool[j],
    decreases order.len(),
{
    if order.len() == 0 {
    } else {
        let oi = order[0];
        match first_fit_from(pool, used, us[oi as int], 0) {
            Some(b) => {
                lemma_alloc_rec_prefix(
                    pool,
                    us,
                    order.drop_first(),
                    used.insert(b),
                    acc.push((oi, b as usize)),
                );
            },
            None => {
                let pool2 = pool.push(binding_for(us[oi as int]));
                lemma_alloc_rec_prefix(
                    pool2,
                    us,
                    order.drop_first(),
                    used.insert(pool.len() as int),
                    acc.push((oi, pool.len() as usize)),
                );
                assert(forall|j: int| 0 <= j < pool.len() ==> pool2[j] == pool[j]);
            },
        }
    }
}

proof fn lemma_alloc_rec_props(
    pool: Seq<UniformBindGroup>,
    us: Seq<Uniform>,
    order: Seq<usize>,
    used: Set<int>,
    acc: Seq<(usize, usize)>,
)
    requires
        alloc_rec(pool, us, order, used, acc).1.len() <= usize::MAX,
        forall|m: int| 0 <= m < order.len() ==> (#[trigger] order[m] as int) < us.len(),
        forall|i: int| 0 <= i < us.len() ==> payload_size(us, i) <= u64::MAX,
        forall|b: int| used.contains(b) ==> 0 <= b < pool.len(),
        forall|t: int|
            0 <= t < acc.len() ==> (#[trigger] acc[t].1 as int) < pool.len() && (acc[t].0 as int)
                < us.len() && covers(pool[acc[t].1 as int], us[acc[t].0 as int]) && used.contains(
                acc[t].1 as int,
            ),
        forall|t1: int, t2: int|
            0 <= t1 < t2 < acc.len() ==> (#[trigger] acc[t1].1) != (#[trigger] acc[t2].1),
    ensures
        ({
            let (a, p) = alloc_rec(pool, us, order, used, acc);
            &&& a.len() == acc.len() + order.len()
            &&& forall|t: int| 0 <= t < acc.len() ==> a[t] == acc[t]
            &&& forall|t: int|
                acc.len() <= t < a.len() ==> (#[trigger] a[t].0) == order[t - acc.len()]
            &&& forall|t: int|
                0 <= t < a.len() ==> (#[trigger] a[t].1 as int) < p.len() && (a[t].0 as int)
                    < us.len() && covers(p[a[t].1 as int], us[a[t].0 as int])
            &&& forall|t1: int, t2: int|
                0 <= t1 < t2 < a.len() ==> (#[trigger] a[t1].1) != (#[trigger] a[t2].1)
        }),
    decreases order.len(),
{
    if order.len() == 0 {
    } else {
        lemma_alloc_rec_prefix(pool, us, order, used, acc);
        let oi = order[0];
        let u = us[oi as int];
        match first_fit_from(pool, used, u, 0) {
            Some(b) => {
                lemma_first_fit_props(pool, used, u, 0, b);
                assert((b as usize) as int == b);
                let acc2 = acc.push((oi, b as usize));
                lemma_alloc_rec_props(pool, us, order.drop_first(), used.insert(b), acc2);
            },
            None => {
                let nb = binding_for(u);
                let pool2 = pool.push(nb);
                let acc2 = acc.push((oi, pool.len() as usize));
                assert(payload_size(us, oi as int) <= u64::MAX);
                assert(covers(nb, u));
                lemma_alloc_rec_props(
                    pool2,
                    us,
                    order.drop_first(),
                    used.insert(pool.len() as int),
                    acc2,
                );
            },
        }
    }
}

proof fn lemma_sorted_order_rec_props(us: Seq<Uniform>, n: int)
    requires
        0 <= n <= us.len(),
    ensures
        sorted_order_rec(us, n).len() == n,
        forall|m: int|
            0 <= m < n ==> 0 <= (#[trigger] sorted_order_rec(us, n)[m] as int) < n,
        forall|i: usize| 0 <= (i as int) < n ==> #[trigger] sorted_order_rec(us, n).contains(i),
    decreases n,
{
    if n <= 0 {
    } else {
        lemma_sorted_order_rec_props(us, n - 1);
        let prev = sorted_order_rec(us, n - 1);
        let pos = insert_pos(prev, us, payload_size(us, n - 1));
        lemma_insert_pos_bounds(prev, us, payload_size(us, n - 1));
        prev.insert_ensures(pos, (n - 1) as usize);
        let cur = sorted_order_rec(us, n);
        assert(cur == prev.insert(pos, (n - 1) as usize));
        assert forall|i: usize| 0 <= (i as int) < n implies #[trigger] cur.contains(i) by {
            if i as int == n - 1 {
                assert(cur[pos] == i);
            } else {
                assert(prev.contains(i));
                let m0 = choose|m0: int| 0 <= m0 < prev.len() && prev[m0] == i;
                if m0 < pos {
                    assert(cur[m0] == i);
                } else {
                    assert(cur[m0 + 1] == i);
                }
            }
        }
        assert forall|m: int| 0 <= m < n implies 0 <= (#[trigger] cur[m] as int) < n by {
            if m < pos {
                assert(cur[m] == prev[m]);
            } else if m == pos {
            } else {
                assert(cur[m] == prev[m - 1]);
            }
        }
    }
}

proof fn lemma_insert_pos_bounds(order: Seq<usize>, us: Seq<Uniform>, key: nat)
    ensures
        0 <= insert_pos(order, us, key) <= order.len(),
    decreases order.len(),
{
    if order.len() == 0 {
    } else if payload_size(us, order[0] as int) >= key {
        lemma_insert_pos_bounds(order.drop_first(), us, key);
    } else {
    }
}

proof fn lemma_alloc_rec_len_bound(
    pool: Seq<UniformBindGroup>,
    us: Seq<Uniform>,
    order: Seq<usize>,
    used: Set<int>,
    acc: Seq<(usize, usize)>,
)
    ensures
        alloc_rec(pool, us, order, used, acc).1.len() <= pool.len() + order.len(),
    decreases order.len(),
{
    if order.len() == 0 {
    } else {
        let oi = order[0];
        match first_fit_from(pool, used, us[oi as int], 0) {
            Some(b) => {
                lemma_alloc_rec_len_bound(
                    pool,
                    us,
                    order.drop_first(),
                    used.insert(b),
                    acc.push((oi, b as usize)),
                );
            },
            None => {
                lemma_alloc_rec_len_bound(
                    pool.push(binding_for(us[oi as int])),
                    us,
                    order.drop_first(),
                    used.insert(pool.len() as int),
                    acc.push((oi, pool.len() as usize)),
                );
            },
        }
    }
}

/// Whether payload position `i` occurs in the assignment list.
pub open spec fn payload_assigned(a: Seq<(usize, usize)>, i: usize) -> bool {
    exists|t: int| 0 <= t < a.len() && (#[trigger] a[t]).0 == i
}

/// Law: the allocator never fails.  For any pool and any frame of payloads
/// it returns one assignment per payload; every payload appears in the
/// assignment; every assigned binding's range covers its payload's required
/// range; no binding serves two payloads of the same frame; and the pool
/// only grows, its existing bindings untouched.
pub proof fn lemma_allocator_total(pool: Seq<UniformBindGroup>, us: Seq<Uniform>)
    requires
        pool.len() + us.len() <= usize::MAX,
        forall|i: int| 0 <= i < us.len() ==> payload_size(us, i) <= u64::MAX,
    ensures
        ({
            let (a, p) = alloc_model(pool, us);
            &&& a.len() == us.len()
            &&& p.len() >= pool.len()
            &&& forall|j: int| 0 <= j < pool.len() ==> p[j] == pool[j]
            &&& forall|t: int|
                0 <= t < a.len() ==> (#[trigger] a[t].1 as int) < p.len() && (a[t].0 as int)
                    < us.len() && covers(p[a[t].1 as int], us[a[t].0 as int])
            &&& forall|t1: int, t2: int|
                0 <= t1 < t2 < a.len() ==> (#[trigger] a[t1].1) != (#[trigger] a[t2].1)
            &&& forall|i: usize| 0 <= (i as int) < us.len() ==> #[trigger] payload_assigned(a, i)
        }),
{
    lemma_sorted_order_rec_props(us, us.len() as int);
    let order = sorted_order(us);
    lemma_alloc_rec_len_bound(pool, us, order, Set::empty(), Seq::empty());
    lemma_alloc_rec_props(pool, us, order, Set::empty(), Seq::empty());
    lemma_alloc_rec_prefix(pool, us, order, Set::empty(), Seq::empty());
    let (a, p) = alloc_model(pool, us);
    assert forall|i: usize| 0 <= (i as int) < us.len() implies #[trigger] payload_assigned(a, i) by {
        assert(order.contains(i));
        let m = choose|m: int| 0 <= m < order.len() && order[m] == i;
        assert(a[m].0 == order[m]);
    }
}

proof fn lemma_first_fit_prefix_some(
    pool: Seq<UniformBindGroup>,
    pext: Seq<UniformBindGroup>,
    used: Set<int>,
    u: Uniform,
    i: int,
    b: int,
)
    requires
        pool.len() <= pext.len(),
        forall|j: int| 0 <= j < pool.len() ==> pext[j] == pool[j],
        first_fit_from(pool, used, u, i) == Some(b),
    ensures
        first_fit_from(pext, used, u, i) == Some(b),
    decreases pool.len() - i,
{
    lemma_first_fit_props(pool, used, u, i, b);
    if covers(pool[i], u) && !used.contains(i) {
    } else {
        lemma_first_fit_prefix_some(pool, pext, used, u, i + 1, b);
    }
}

proof fn lemma_first_fit_none_ext(
    pool: Seq<UniformBindGroup>,
    pext: Seq<UniformBindGroup>,
    used: Set<int>,
    u: Uniform,
    i: int,
)
    requires
        0 <= i <= pool.len(),
        pool.len() < pext.len(),
        forall|j: int| 0 <= j < pool.len() ==> pext[j] == pool[j],
        first_fit_from(pool, used, u, i) is None,
        covers(pext[pool.len() as int], u),
        !used.contains(pool.len() as int),
    ensures
        first_fit_from(pext, used, u, i) == Some(pool.len() as int),
    decreases pool.len() - i,
{
    if i == pool.len() {
    } else {
        lemma_first_fit_none_ext(pool, pext, used, u, i + 1);
    }
}

proof fn lemma_alloc_replay(
    pfinal: Seq<UniformBindGroup>,
    pool: Seq<UniformBindGroup>,
    us: Seq<Uniform>,
    order: Seq<usize>,
    used: Set<int>,
    acc: Seq<(usize, usize)>,
)
    requires
        alloc_rec(pool, us, order, used, acc).1 == pfinal,
        forall|b: int| used.contains(b) ==> 0 <= b < pool.len(),
        forall|m: int| 0 <= m < order.len() ==> (#[trigger] order[m] as int) < us.len(),
        forall|i: int| 0 <= i < us.len() ==> payload_size(us, i) <= u64::MAX,
    ensures
        alloc_rec(pfinal, us, order, used, acc).0 == alloc_rec(pool, us, order, used, acc).0,
        alloc_rec(pfinal, us, order, used, acc).1 == pfinal,
    decreases order.len(),
{
    if order.len() == 0 {
    } else {
        let oi = order[0];
        let u = us[oi as int];
        match first_fit_from(pool, used, u, 0) {
            Some(b) => {
                let used2 = used.insert(b);
                let acc2 = acc.push((oi, b as usize));
                lemma_first_fit_props(pool, used, u, 0, b);
                lemma_alloc_rec_prefix(pool, us, order.drop_first(), used2, acc2);
                lemma_first_fit_prefix_some(pool, pfinal, used, u, 0, b);
                lemma_alloc_replay(pfinal, pool, us, order.drop_first(), used2, acc2);
            },
            None => {
                let nb = binding_for(u);
                let pool2 = pool.push(nb);
                let used2 = used.insert(pool.len() as int);
                let acc2 = acc.push((oi, pool.len() as usize));
                assert(alloc_rec(pool, us, order, used, acc) == alloc_rec(
                    pool2,
                    us,
                    order.drop_first(),
                    used2,
                    acc2,
                ));
                lemma_alloc_rec_prefix(pool2, us, order.drop_first(), used2, acc2);
                assert(forall|j: int| 0 <= j < pool2.len() ==> pfinal[j] == pool2[j]);
                assert(pfinal[pool.len() as int] == nb);
                assert(payload_size(us, oi as int) <= u64::MAX);
                assert(covers(nb, u));
                lemma_first_fit_none_ext(pool, pfinal, used, u, 0);
                lemma_alloc_replay(pfinal, pool2, us, order.drop_first(), used2, acc2);
            },
        }
    }
}

/// Whether two frames' payload lists have identical size profiles: the
/// same count, and position by position the same content length and the
/// same declared dynamic range.  The allocator reads nothing else of a
/// payload.
pub open spec fn same_size_profile(us1: Seq<Uniform>, us2: Seq<Uniform>) -> bool {
    &&& us1.len() == us2.len()
    &&& forall|i: int|
        0 <= i < us1.len() ==> (#[trigger] us1[i]).data@.len() == us2[i].data@.len() && us1[i].dynamic
            == us2[i].dynamic
}

proof fn lemma_insert_pos_profile(order: Seq<usize>, us1: Seq<Uniform>, us2: Seq<Uniform>, key: nat)
    requires
        same_size_profile(us1, us2),
        forall|m: int| 0 <= m < order.len() ==> (#[trigger] order[m] as int) < us1.len(),
    ensures
        insert_pos(order, us1, key) == insert_pos(order, us2, key),
    decreases order.len(),
{
    if order.len() == 0 {
    } else {
        assert(payload_size(us1, order[0] as int) == payload_size(us2, order[0] as int));
        let rest = order.drop_first();
        assert(forall|m: int| 0 <= m < rest.len() ==> (#[trigger] rest[m] as int) < us1.len());
        lemma_insert_pos_profile(rest, us1, us2, key);
    }
}

proof fn lemma_sorted_order_profile(us1: Seq<Uniform>, us2: Seq<Uniform>, n: int)
    requires
        same_size_profile(us1, us2),
        0 <= n <= us1.len(),
    ensures
        sorted_order_rec(us1, n) == sorted_order_rec(us2, n),
    decreases n,
{
    if n > 0 {
        lemma_sorted_order_profile(us1, us2, n - 1);
        lemma_sorted_order_rec_props(us1, n - 1);
        let prev = sorted_order_rec(us1, n - 1);
        lemma_insert_pos_profile(prev, us1, us2, payload_size(us1, n - 1));
        assert(payload_size(us1, n - 1) == payload_size(us2, n - 1));
    }
}

proof fn lemma_first_fit_profile(
    pool: Seq<UniformBindGroup>,
    used: Set<int>,
    u1: Uniform,
    u2: Uniform,
    i: int,
)
    requires
        u1.data@.len() == u2.data@.len(),
        u1.dynamic == u2.dynamic,
    ensures
        first_fit_from(pool, used, u1, i) == first_fit_from(pool, used, u2, i),
    decreases pool.len() - i,
{
    if i < 0 || i >= pool.len() {
    } else {
        lemma_first_fit_profile(pool, used, u1, u2, i + 1);
    }
}

proof fn lemma_alloc_rec_profile(
    pool: Seq<UniformBindGroup>,
    us1: Seq<Uniform>,
    us2: Seq<Uniform>,
    order: Seq<usize>,
    used: Set<int>,
    acc: Seq<(usize, usize)>,
)
    requires
        same_size_profile(us1, us2),
        forall|m: int| 0 <= m < order.len() ==> (#[trigger] order[m] as int) < us1.len(),
    ensures
        alloc_rec(pool, us1, order, used, acc) == alloc_rec(pool, us2, order, used, acc),
    decreases order.len(),
{
    if order.len() == 0 {
    } else {
        let oi = order[0];
        let u1 = us1[oi as int];
        let u2 = us2[oi as int];
        lemma_first_fit_profile(pool, used, u1, u2, 0);
        assert(binding_for(u1) == binding_for(u2));
        let rest = order.drop_first();
        assert(forall|m: int| 0 <= m < rest.len() ==> (#[trigger] rest[m] as int) < us1.len());
        match first_fit_from(pool, used, u1, 0) {
            Some(b) => {
                lemma_alloc_rec_profile(
                    pool,
                    us1,
                    us2,
                    rest,
                    used.insert(b),
                    acc.push((oi, b as usize)),
                );
            },
            None => {
                lemma_alloc_rec_profile(
                    pool.push(binding_for(u1)),
                    us1,
                    us2,
                    rest,
                    used.insert(pool.len() as int),
                    acc.push((oi, pool.len() as usize)),
                );
            },
        }
    }
}

/// Law: across two consecutive frames whose payload lists have identical
/// size profiles, the second frame reuses the bindings the first one
/// created or found: the pool does not grow again, and the assignment is
/// the same.
pub proof fn lemma_pool_reuse_same_sizes(
    pool: Seq<UniformBindGroup>,
    us1: Seq<Uniform>,
    us2: Seq<Uniform>,
)
    requires
        same_size_profile(us1, us2),
        forall|i: int| 0 <= i < us1.len() ==> payload_size(us1, i) <= u64::MAX,
    ensures
        ({
            let (a1, p1) = alloc_model(pool, us1);
            let (a2, p2) = alloc_model(p1, us2);
            p2 == p1 && a2 == a1
        }),
{
    lemma_sorted_order_rec_props(us1, us1.len() as int);
    lemma_sorted_order_profile(us1, us2, us1.len() as int);
    let (a1, p1) = alloc_model(pool, us1);
    lemma_alloc_rec_profile(p1, us1, us2, sorted_order(us1), Set::empty(), Seq::empty());
    lemma_alloc_replay(p1, pool, us1, sorted_order(us1), Set::empty(), Seq::empty());
}

} // verus!
