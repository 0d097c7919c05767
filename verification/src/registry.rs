//! Connection registry: the ordered set of write handles the broadcast
//! dispatcher currently fans out to.  Handles are named by unique `u64` ids
//! handed out at registration.  Only the dispatcher mutates the registry:
//! it appends a handle when a connection is accepted and rebuilds the
//! registry after each broadcast, keeping exactly the handles whose write
//! succeeded.

use vstd::prelude::*;

verus! {

/// All entries of `ids` differ.
pub open spec fn distinct(ids: Seq<u64>) -> bool {
    forall|i: int, j: int| 0 <= i < j < ids.len() ==> ids[i] != ids[j]
}

/// The subsequence of `ids` at the positions where `ok` holds, in order.
pub open spec fn keep(ids: Seq<u64>, ok: Seq<bool>) -> Seq<u64>
    recommends
        ids.len() == ok.len(),
    decreases ids.len(),
{
    if ids.len() == 0 {
        Seq::empty()
    } else {
        let rest = keep(ids.drop_last(), ok.drop_last());
        if ok[ids.len() - 1] {
            rest.push(ids.last())
        } else {
            rest
        }
    }
}

/// Everything `keep` retains was in `ids`.
pub proof fn lemma_keep_subset(ids: Seq<u64>, ok: Seq<bool>, x: u64)
    requires
        ids.len() == ok.len(),
        keep(ids, ok).contains(x),
    ensures
        ids.contains(x),
    decreases ids.len(),
{
    if ids.len() > 0 {
        let n = ids.len() - 1;
        if ok[n] && x == ids.last() {
            assert(ids[n] == x);
        } else {
            let kept = keep(ids, ok);
            let rest = keep(ids.drop_last(), ok.drop_last());
            let j = choose|j: int| 0 <= j < kept.len() && kept[j] == x;
            assert(rest[j] == x);
            lemma_keep_subset(ids.drop_last(), ok.drop_last(), x);
            let k = choose|k: int| 0 <= k < n && ids.drop_last()[k] == x;
            assert(ids[k] == x);
        }
    }
}

/// A handle whose write failed is gone from the pruned registry.
pub proof fn lemma_keep_absent(ids: Seq<u64>, ok: Seq<bool>, i: int)
    requires
        ids.len() == ok.len(),
        distinct(ids),
        0 <= i < ids.len(),
        !ok[i],
    ensures
        !keep(ids, ok).contains(ids[i]),
    decreases ids.len(),
{
    let n = ids.len() - 1;
    let rest = keep(ids.drop_last(), ok.drop_last());
    assert(forall|k: int| 0 <= k < n ==> ids.drop_last()[k] == ids[k]);
    if i == n {
        if rest.contains(ids[i]) {
            lemma_keep_subset(ids.drop_last(), ok.drop_last(), ids[i]);
            let k = choose|k: int| 0 <= k < n && ids.drop_last()[k] == ids[i];
            assert(ids[k] == ids[n]);
        }
    } else {
        lemma_keep_absent(ids.drop_last(), ok.drop_last(), i);
        if ok[n] {
            assert(ids[n] != ids[i]);
            if rest.push(ids.last()).contains(ids[i]) {
                let j = choose|j: int| 0 <= j < rest.len() + 1 && rest.push(ids.last())[j] == ids[i];
                if j < rest.len() {
                    assert(rest[j] == ids[i]);
                }
            }
        }
    }
}

/// A handle whose write succeeded is still in the pruned registry.
pub proof fn lemma_keep_kept(ids: Seq<u64>, ok: Seq<bool>, i: int)
    requires
        ids.len() == ok.len(),
        0 <= i < ids.len(),
        ok[i],
    ensures
        keep(ids, ok).contains(ids[i]),
    decreases ids.len(),
{
    let n = ids.len() - 1;
    let rest = keep(ids.drop_last(), ok.drop_last());
    if i == n {
        assert(rest.push(ids.last())[rest.len() as int] == ids[i]);
    } else {
        assert(ids.drop_last()[i] == ids[i]);
        lemma_keep_kept(ids.drop_last(), ok.drop_last(), i);
        let j = choose|j: int| 0 <= j < rest.len() && rest[j] == ids[i];
        if ok[n] {
            assert(rest.push(ids.last())[j] == ids[i]);
        }
    }
}

/// Pruning keeps the entries distinct.
pub proof fn lemma_keep_distinct(ids: Seq<u64>, ok: Seq<bool>)
    requires
        ids.len() == ok.len(),
        distinct(ids),
    ensures
        distinct(keep(ids, ok)),
    decreases ids.len(),
{
    if ids.len() > 0 {
        let n = ids.len() - 1;
        assert(forall|k: int| 0 <= k < n ==> ids.drop_last()[k] == ids[k]);
        lemma_keep_distinct(ids.drop_last(), ok.drop_last());
        let rest = keep(ids.drop_last(), ok.drop_last());
        if ok[n] {
            if rest.contains(ids[n]) {
                lemma_keep_subset(ids.drop_last(), ok.drop_last(), ids[n]);
                let k = choose|k: int| 0 <= k < n && ids.drop_last()[k] == ids[n];
                assert(ids[k] == ids[n]);
            }
            let pushed = rest.push(ids.last());
            assert forall|i: int, j: int| 0 <= i < j < pushed.len() implies pushed[i] != pushed[j] by {
                if j < rest.len() {
                    assert(pushed[i] == rest[i] && pushed[j] == rest[j]);
                } else {
                    assert(pushed[j] == ids[n]);
                    assert(pushed[i] == rest[i]);
                    assert(rest.contains(rest[i]));
                }
            }
        }
    }
}

/// Every retained entry stays below any bound that held for `ids`.
pub proof fn lemma_keep_bounded(ids: Seq<u64>, ok: Seq<bool>, bound: u64)
    requires
        ids.len() == ok.len(),
        forall|k: int| 0 <= k < ids.len() ==> ids[k] < bound,
    ensures
        forall|k: int| 0 <= k < keep(ids, ok).len() ==> keep(ids, ok)[k] < bound,
{
    let kept = keep(ids, ok);
    assert forall|k: int| 0 <= k < kept.len() implies kept[k] < bound by {
        assert(kept.contains(kept[k]));
        lemma_keep_subset(ids, ok, kept[k]);
        let j = choose|j: int| 0 <= j < ids.len() && ids[j] == kept[k];
    }
}

/// The live set of broadcastable connection handles, in registration order,
/// with the counter that names the next accepted connection.
pub struct Registry {
    ids: Vec<u64>,
    next_id: u64,
}

impl View for Registry {
    type V = Seq<u64>;

    closed spec fn view(&self) -> Seq<u64> {
        self.ids@
    }
}

impl Registry {
    #[verifier::type_invariant]
    spec fn inv(self) -> bool {
        distinct(self.ids@) && forall|i: int|
            0 <= i < self.ids@.len() ==> self.ids@[i] < self.next_id
    }

    /// The id counter has not run out.
    pub closed spec fn has_capacity(self) -> bool {
        self.next_id < u64::MAX
    }

    /// An empty registry.
    pub fn new() -> (r: Registry)
        ensures
            r@ == Seq::<u64>::empty(),
            r.has_capacity(),
    {
        Registry { ids: Vec::new(), next_id: 0 }
    }

    /// Whether one more connection can still be given a fresh id.
    pub fn can_register(&self) -> (b: bool)
        ensures
            b == self.has_capacity(),
    {
        self.next_id < u64::MAX
    }

    /// Appends a newly accepted connection and returns its handle id, which
    /// no current entry shares.
    pub fn register(&mut self) -> (id: u64)
        requires
            old(self).has_capacity(),
        ensures
            final(self)@ == old(self)@.push(id),
            !old(self)@.contains(id),
    {
        proof {
            use_type_invariant(&*self);
        }
        let ghost orig = self.ids@;
        let id = self.next_id;
        proof {
            if orig.contains(id) {
                let k = choose|k: int| 0 <= k < orig.len() && orig[k] == id;
            }
            assert(!orig.contains(id));
        }
        let mut ids: Vec<u64> = Vec::new();
        core::mem::swap(&mut ids, &mut self.ids);
        self.next_id = id + 1;
        ids.push(id);
        proof {
            let pushed = orig.push(id);
            assert forall|i: int, j: int| 0 <= i < j < pushed.len() implies pushed[i] != pushed[j] by {
                if j < orig.len() {
                } else {
                    assert(pushed[j] == id);
                }
            }
        }
        core::mem::swap(&mut self.ids, &mut ids);
        id
    }

    /// Rebuilds the registry after a broadcast: entry `i` survives exactly
    /// when `ok[i]`, its write result.  A handle whose write failed is
    /// absent afterwards; the survivors keep their order.
    pub fn prune(&mut self, ok: &Vec<bool>)
        requires
            ok@.len() == old(self)@.len(),
        ensures
            final(self)@ == keep(old(self)@, ok@),
            forall|i: int| 0 <= i < ok@.len() && !ok@[i] ==> !final(self)@.contains(old(self)@[i]),
            forall|i: int| 0 <= i < ok@.len() && ok@[i] ==> final(self)@.contains(old(self)@[i]),
            final(self).has_capacity() == old(self).has_capacity(),
    {
        proof {
            use_type_invariant(&*self);
        }
        let ghost orig = self.ids@;
        let mut kept: Vec<u64> = Vec::new();
        let mut j: usize = 0;
        proof {
            assert(orig.take(0) =~= Seq::<u64>::empty());
            assert(ok@.take(0) =~= Seq::<bool>::empty());
        }
        while j < self.ids.len()
            invariant
                j <= orig.len(),
                self.ids@ == orig,
                ok@.len() == orig.len(),
                kept@ == keep(orig.take(j as int), ok@.take(j as int)),
            decreases orig.len() - j,
        {
            let id = self.ids[j];
            proof {
                let t1 = orig.take(j as int + 1);
                let k1 = ok@.take(j as int + 1);
                assert(t1.drop_last() =~= orig.take(j as int));
                assert(k1.drop_last() =~= ok@.take(j as int));
                assert(t1.last() == orig[j as int]);
                assert(k1[t1.len() - 1] == ok@[j as int]);
            }
            if ok[j] {
                kept.push(id);
            }
            j = j + 1;
        }
        proof {
            assert(orig.take(orig.len() as int) =~= orig);
            assert(ok@.take(ok@.len() as int) =~= ok@);
            lemma_keep_distinct(orig, ok@);
            lemma_keep_bounded(orig, ok@, self.next_id);
        }
        self.ids = kept;
        proof {
            assert forall|i: int| 0 <= i < ok@.len() && !ok@[i] implies !self.ids@.contains(
                orig[i],
            ) by {
                lemma_keep_absent(orig, ok@, i);
            }
            assert forall|i: int| 0 <= i < ok@.len() && ok@[i] implies self.ids@.contains(
                orig[i],
            ) by {
                lemma_keep_kept(orig, ok@, i);
            }
        }
    }

    /// The handle ids to write the next broadcast to, in registration order.
    pub fn handles(&self) -> (r: &Vec<u64>)
        ensures
            r@ == self@,
    {
        &self.ids
    }

    /// Number of registered connections.
    pub fn count(&self) -> (n: usize)
        ensures
            n == self@.len(),
    {
        self.ids.len()
    }
}

} // verus!
