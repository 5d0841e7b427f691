//! The registry of downstream connections: ids handed out by a counter that
//! never goes back, and the order in which a broadcast batch is delivered.
use std::collections::HashMap;
use vstd::prelude::*;
use vstd::std_specs::iter::IteratorSpec;

verus! {

broadcast use vstd::std_specs::hash::group_hash_axioms;

/// The connections of one listener, keyed by the id each got on arrival.
pub struct Transports<T> {
    data: HashMap<u32, T>,
    index: u32,
}

impl<T> Transports<T> {
    /// The registered connections.
    pub closed spec fn members(&self) -> Map<u32, T> {
        self.data@
    }

    /// The id the next connection gets.
    pub closed spec fn next_id(&self) -> nat {
        self.index as nat
    }

    /// Every registered id was handed out before the current counter.
    pub closed spec fn wf(&self) -> bool {
        forall|id: u32| #[trigger] self.data@.contains_key(id) ==> id < self.index
    }

    pub fn new() -> (r: Self)
        ensures
            r.wf(),
            r.members() == Map::<u32, T>::empty(),
            r.next_id() == 0,
    {
        Transports { data: HashMap::new(), index: 0 }
    }

    /// Whether every id has been handed out.
    pub fn is_exhausted(&self) -> (r: bool)
        ensures
            r == (self.next_id() == u32::MAX),
    {
        self.index == u32::MAX
    }

    /// Registers a connection under the next id, and returns that id.
    pub fn insert(&mut self, transport: T) -> (id: u32)
        requires
            old(self).wf(),
            old(self).next_id() < u32::MAX,
        ensures
            inserted(*old(self), transport, *final(self), id),
    {
        let id = self.index;
        self.index = self.index + 1;
        self.data.insert(id, transport);
        id
    }

    /// Drops the connection registered under `id`, if there is one.
    pub fn remove(&mut self, id: u32)
        requires
            old(self).wf(),
        ensures
            removed(*old(self), id, *final(self)),
    {
        self.data.remove(&id);
    }

    pub fn get(&self, id: u32) -> (r: Option<&T>)
        ensures
            match r {
                Some(t) => self.members().contains_key(id) && *t == self.members()[id],
                None => !self.members().contains_key(id),
            },
    {
        self.data.get(&id)
    }

    pub fn len(&self) -> (r: usize)
        ensures
            r == self.members().len(),
    {
        self.data.len()
    }

    /// The registered ids, each once.
    pub fn ids(&self) -> (r: Vec<u32>)
        ensures
            r@.to_set() == self.members().dom(),
            r@.no_duplicates(),
    {
        let mut out: Vec<u32> = Vec::new();
        let keys = self.data.keys();
        let ghost all = keys.remaining().unref();
        assert(all.to_set() == self.data@.dom());
        assert(all.no_duplicates());
        for k in it: keys
            invariant
                all == it.seq().unref(),
                out@ == all.take(it.index() as int),
        {
            assert(all.take(it.index() + 1) =~= out@.push(*k));
            out.push(*k);
        }
        assert(out@ =~= all);
        out
    }

}

/// The order in which a batch of `n` messages reaches the connections
/// `ids` (see `delivery_plan`).
pub fn broadcast_plan(ids: &Vec<u32>, n: usize) -> (r: Vec<(u32, usize)>)
    ensures
        plan_view(r@) == delivery_plan(ids@, n as nat),
{
    let mut plan: Vec<(u32, usize)> = Vec::new();
    let mut i: usize = 0;
    assert(plan_view(plan@) =~= delivery_plan(ids@.take(0), n as nat));
    while i < ids.len()
        invariant
            i <= ids@.len(),
            plan_view(plan@) == delivery_plan(ids@.take(i as int), n as nat),
        decreases ids.len() - i,
    {
        let id = ids[i];
        let mut j: usize = 0;
        let ghost before = plan_view(plan@);
        assert(before + run(id, 0) =~= before);
        while j < n
            invariant
                j <= n,
                plan_view(plan@) == before + run(id, j as nat),
            decreases n - j,
        {
            let ghost mid = plan_view(plan@);
            plan.push((id, j));
            assert(plan_view(plan@) =~= mid.push((id, j as nat)));
            assert(run(id, (j + 1) as nat) =~= run(id, j as nat).push((id, j as nat)));
            assert(before + run(id, (j + 1) as nat) =~= mid.push((id, j as nat)));
            j += 1;
        }
        proof {
            lemma_plan_snoc(ids@.take(i as int), id, n as nat);
            assert(ids@.take(i + 1) =~= ids@.take(i as int).push(id));
        }
        i += 1;
    }
    assert(ids@.take(i as int) =~= ids@);
    plan
}

/// `after` is `before` with `t` registered under the fresh id `id`.
pub open spec fn inserted<T>(before: Transports<T>, t: T, after: Transports<T>, id: u32) -> bool {
    &&& after.wf()
    &&& id == before.next_id()
    &&& !before.members().contains_key(id)
    &&& after.members() == before.members().insert(id, t)
    &&& after.next_id() == before.next_id() + 1
}

/// `after` is `before` without the connection registered under `id`.
pub open spec fn removed<T>(before: Transports<T>, id: u32, after: Transports<T>) -> bool {
    &&& after.wf()
    &&& after.members() == before.members().remove(id)
    &&& after.next_id() == before.next_id()
}

/// Successive inserts hand out distinct ids in strictly increasing order,
/// and each connection stays registered under the id it got.
pub proof fn lemma_insert_ids_increase<T>(regs: Seq<Transports<T>>, ts: Seq<T>, ids: Seq<u32>)
    requires
        regs.len() == ids.len() + 1,
        ts.len() == ids.len(),
        forall|i: int| 0 <= i < ids.len() ==> inserted(#[trigger] regs[i], ts[i], regs[i + 1], ids[i]),
    ensures
        forall|i: int, j: int| 0 <= i < j < ids.len() ==> ids[i] < ids[j],
        forall|i: int|
            0 <= i < ids.len() ==> regs.last().members().contains_key(#[trigger] ids[i])
                && regs.last().members()[ids[i]] == ts[i],
    decreases ids.len(),
{
    if ids.len() > 0 {
        let k = ids.len() - 1;
        let rs = regs.drop_last();
        assert forall|i: int| 0 <= i < k implies inserted(#[trigger] rs[i], ts.drop_last()[i], rs[i + 1], ids.drop_last()[i]) by {
            assert(inserted(regs[i], ts[i], regs[i + 1], ids[i]));
        }
        lemma_insert_ids_increase(rs, ts.drop_last(), ids.drop_last());
        assert(inserted(regs[k], ts[k], regs[k + 1], ids[k]));
        assert(rs.last() == regs[k]);
        assert forall|i: int| 0 <= i < k implies ids[i] < ids[k] by {
            assert(ids.drop_last()[i] == ids[i]);
            assert(regs[k].members().contains_key(ids[i]));
            assert(inserted(regs[k - 1], ts[k - 1], regs[k], ids[k - 1]));
            assert(regs[k].wf());
        }
        assert forall|i: int, j: int| 0 <= i < j < ids.len() implies ids[i] < ids[j] by {
            if j < k {
                assert(ids.drop_last()[i] == ids[i]);
                assert(ids.drop_last()[j] == ids[j]);
            }
        }
        assert forall|i: int|
            0 <= i < ids.len() implies regs.last().members().contains_key(#[trigger] ids[i])
                && regs.last().members()[ids[i]] == ts[i] by {
            if i < k {
                assert(ids.drop_last()[i] == ids[i]);
                assert(ts.drop_last()[i] == ts[i]);
                assert(regs[k].members().contains_key(ids[i]));
            }
        }
    }
}

/// Removing a connection leaves every other registration as it was, and no
/// later broadcast plan over the registered ids delivers to it.
pub proof fn lemma_remove_isolates<T>(
    before: Transports<T>,
    id: u32,
    after: Transports<T>,
    ids: Seq<u32>,
    n: nat,
)
    requires
        removed(before, id, after),
        ids.to_set() == after.members().dom(),
    ensures
        forall|other: u32|
            other != id ==> (#[trigger] after.members().contains_key(other)
                == before.members().contains_key(other)) && (after.members().contains_key(other)
                ==> after.members()[other] == before.members()[other]),
        !after.members().contains_key(id),
        forall|k: int|
            0 <= k < delivery_plan(ids, n).len() ==> (#[trigger] delivery_plan(ids, n)[k]).0 != id,
{
    assert forall|k: int| 0 <= k < delivery_plan(ids, n).len() implies (#[trigger] delivery_plan(
        ids,
        n,
    )[k]).0 != id by {
        lemma_fan_out_members(ids, n, k);
        assert(ids.to_set().contains(delivery_plan(ids, n)[k].0));
    }
}

pub open spec fn plan_view(v: Seq<(u32, usize)>) -> Seq<(u32, nat)> {
    v.map_values(|p: (u32, usize)| (p.0, p.1 as nat))
}

/// A run of deliveries to `id`: the messages `0 .. n` of the batch, in order.
pub open spec fn run(id: u32, n: nat) -> Seq<(u32, nat)> {
    Seq::new(n, |j: int| (id, j as nat))
}

/// Deliveries `(connection, index in the batch)`, in the order they are
/// made: each connection in turn gets the whole batch, in order, before the
/// next one gets anything.
pub open spec fn delivery_plan(ids: Seq<u32>, n: nat) -> Seq<(u32, nat)>
    decreases ids.len(),
{
    if ids.len() == 0 {
        Seq::empty()
    } else {
        delivery_plan(ids.drop_last(), n) + run(ids.last(), n)
    }
}

proof fn lemma_plan_snoc(ids: Seq<u32>, id: u32, n: nat)
    ensures
        delivery_plan(ids.push(id), n) == delivery_plan(ids, n) + run(id, n),
{
    assert(ids.push(id).drop_last() =~= ids);
}

proof fn lemma_plan_len(ids: Seq<u32>, n: nat)
    ensures
        delivery_plan(ids, n).len() == ids.len() * n,
    decreases ids.len(),
{
    if ids.len() > 0 {
        lemma_plan_len(ids.drop_last(), n);
        assert((ids.len() - 1) * n + n == ids.len() * n) by (nonlinear_arith);
    }
}

proof fn lemma_fan_out_members(ids: Seq<u32>, n: nat, k: int)
    requires
        0 <= k < delivery_plan(ids, n).len(),
    ensures
        ids.contains(delivery_plan(ids, n)[k].0),
    decreases ids.len(),
{
    let init = ids.drop_last();
    if k < delivery_plan(init, n).len() {
        lemma_fan_out_members(init, n, k);
        let j = choose|j: int| 0 <= j < init.len() && init[j] == delivery_plan(init, n)[k].0;
        assert(ids[j] == init[j]);
    } else {
        assert(ids[ids.len() - 1] == ids.last());
    }
}

/// Fan-out is atomic per connection: in the plan of one broadcast, every
/// connection it visits receives the whole batch as one contiguous run, in
/// batch order, and no connection outside the registry is visited.
pub proof fn lemma_fan_out_contiguous(ids: Seq<u32>, n: nat, id: u32)
    requires
        ids.contains(id),
    ensures
        exists|s: int|
            0 <= s && s + n <= delivery_plan(ids, n).len() && #[trigger] delivery_plan(
                ids,
                n,
            ).subrange(s, s + n) == run(id, n),
        forall|k: int|
            0 <= k < delivery_plan(ids, n).len() ==> ids.contains(
                (#[trigger] delivery_plan(ids, n)[k]).0,
            ),
    decreases ids.len(),
{
    let p = delivery_plan(ids, n);
    let init = ids.drop_last();
    lemma_plan_len(ids, n);
    lemma_plan_len(init, n);
    assert(p == delivery_plan(init, n) + run(ids.last(), n));
    assert forall|k: int| 0 <= k < p.len() implies ids.contains((#[trigger] p[k]).0) by {
        lemma_fan_out_members(ids, n, k);
    }
    if ids.last() == id {
        let s = delivery_plan(init, n).len() as int;
        assert(p.subrange(s, s + n) =~= run(id, n));
    } else {
        assert(init.contains(id)) by {
            let j = choose|j: int| 0 <= j < ids.len() && ids[j] == id;
            assert(j < ids.len() - 1);
            assert(init[j] == id);
        }
        lemma_fan_out_contiguous(init, n, id);
        let s = choose|s: int|
            0 <= s && s + n <= delivery_plan(init, n).len() && #[trigger] delivery_plan(
                init,
                n,
            ).subrange(s, s + n) == run(id, n);
        assert(p.subrange(s, s + n) =~= delivery_plan(init, n).subrange(s, s + n));
    }
}

/// The outcome of delivering a batch: success when every delivery
/// succeeded, else the first failure, all deliveries having been made.
pub fn first_error<E>(outcomes: Vec<Result<(), E>>) -> (r: Result<(), E>)
    ensures
        r is Ok <==> forall|i: int| 0 <= i < outcomes@.len() ==> (#[trigger] outcomes@[i]) is Ok,
        r is Err ==> exists|i: int|
            0 <= i < outcomes@.len() && outcomes@[i] == r && forall|j: int|
                0 <= j < i ==> (#[trigger] outcomes@[j]) is Ok,
{
    let ghost all = outcomes@;
    let mut rest = outcomes;
    let mut r: Result<(), E> = Ok(());
    while rest.len() > 0
        invariant
            rest@.len() <= all.len(),
            rest@ == all.take(rest@.len() as int),
            r is Ok <==> forall|i: int| rest@.len() <= i < all.len() ==> (#[trigger] all[i]) is Ok,
            r is Err ==> exists|i: int|
                rest@.len() <= i < all.len() && all[i] == r && forall|j: int|
                    rest@.len() <= j < i ==> (#[trigger] all[j]) is Ok,
        decreases rest.len(),
    {
        let ghost k = rest@.len() - 1;
        let last = rest.pop().unwrap();
        assert(all[k] == last);
        assert(rest@ =~= all.take(k));
        if last.is_err() {
            r = last;
            assert(all[k] == r);
        }
    }
    r
}

} // verus!
