use vstd::prelude::*;
use crate::input::{InputPool, PayloadView, revision_in};

verus! {

/// Per reactive block: the dependency keys it declares and, for each, the
/// revision it observed when it last evaluated.
pub struct ChangeCursor {
    deps: Vec<String>,
    seen: Vec<u64>,
}

/// The revisions of `deps` in the pool view `m`, in order.
pub open spec fn snapshot(deps: Seq<Seq<char>>, m: Map<Seq<char>, (PayloadView, u64)>) -> Seq<
    u64,
> {
    Seq::new(deps.len(), |i: int| revision_in(m, deps[i]))
}

/// Whether some dependency's current revision differs from the one observed.
pub open spec fn differs(
    deps: Seq<Seq<char>>,
    seen: Seq<u64>,
    m: Map<Seq<char>, (PayloadView, u64)>,
) -> bool {
    exists|i: int| 0 <= i < deps.len() && #[trigger] revision_in(m, deps[i]) != seen[i]
}

/// Whether some dependency was written after the revision observed for it.
pub open spec fn written_since(
    deps: Seq<Seq<char>>,
    seen: Seq<u64>,
    m: Map<Seq<char>, (PayloadView, u64)>,
) -> bool {
    exists|i: int| 0 <= i < deps.len() && #[trigger] revision_in(m, deps[i]) > seen[i]
}

impl ChangeCursor {
    pub closed spec fn deps(&self) -> Seq<Seq<char>> {
        self.deps@.map_values(|s: String| s@)
    }

    pub closed spec fn seen(&self) -> Seq<u64> {
        self.seen@
    }

    pub open spec fn wf(&self) -> bool {
        self.deps().len() == self.seen().len()
    }

    /// No observed revision is ahead of the pool.
    pub open spec fn behind(&self, pool: &InputPool) -> bool {
        forall|i: int|
            0 <= i < self.deps().len() ==> #[trigger] self.seen()[i] <= revision_in(
                pool@,
                self.deps()[i],
            )
    }

    /// A cursor over `deps` that has observed nothing yet.
    pub fn new(deps: Vec<String>) -> (r: ChangeCursor)
        ensures
            r.wf(),
            r.deps() == deps@.map_values(|s: String| s@),
            r.seen() == Seq::new(deps@.len(), |i: int| 0u64),
    {
        let mut seen: Vec<u64> = Vec::new();
        let mut i: usize = 0;
        while i < deps.len()
            invariant
                i <= deps.len(),
                seen@ == Seq::new(i as nat, |j: int| 0u64),
            decreases deps.len() - i,
        {
            seen.push(0);
            i = i + 1;
            assert(seen@ =~= Seq::new(i as nat, |j: int| 0u64));
        }
        ChangeCursor { deps, seen }
    }

    /// Whether any dependency was written since this block last evaluated.
    /// Whether it fired or not, the cursor then holds the current revisions.
    pub fn changed(&mut self, pool: &InputPool) -> (fired: bool)
        requires
            old(self).wf(),
            pool.wf(),
        ensures
            final(self).wf(),
            final(self).deps() == old(self).deps(),
            final(self).seen() == snapshot(old(self).deps(), pool@),
            fired == differs(old(self).deps(), old(self).seen(), pool@),
    {
        let ghost old_seen = self.seen@;
        let ghost deps = self.deps();
        let mut fired = false;
        let mut i: usize = 0;
        while i < self.deps.len()
            invariant
                self.wf(),
                pool.wf(),
                self.deps() == deps,
                i <= deps.len(),
                forall|j: int| i <= j < deps.len() ==> self.seen@[j] == old_seen[j],
                forall|j: int| 0 <= j < i ==> self.seen@[j] == revision_in(pool@, deps[j]),
                fired == exists|j: int|
                    0 <= j < i && #[trigger] revision_in(pool@, deps[j]) != old_seen[j],
            decreases deps.len() - i,
        {
            let r = pool.revision(self.deps[i].as_str());
            assert(self.deps[i as int]@ == deps[i as int]);
            if r != self.seen[i] {
                fired = true;
            }
            self.seen.set(i, r);
            i = i + 1;
        }
        assert(self.seen@ =~= snapshot(deps, pool@));
        fired
    }
}

/// A block fires exactly when one of its dependencies was written after the
/// revision it last observed, provided its observations are not ahead of the
/// pool (which every write and every evaluation preserves).
pub proof fn law_fires_iff_written_since(c: ChangeCursor, pool: InputPool)
    requires
        c.wf(),
        pool.wf(),
        c.behind(&pool),
    ensures
        differs(c.deps(), c.seen(), pool@) == written_since(c.deps(), c.seen(), pool@),
{
    if differs(c.deps(), c.seen(), pool@) {
        let i = choose|i: int|
            0 <= i < c.deps().len() && #[trigger] revision_in(pool@, c.deps()[i]) != c.seen()[i];
        assert(c.seen()[i] <= revision_in(pool@, c.deps()[i]));
    }
    if written_since(c.deps(), c.seen(), pool@) {
        let i = choose|i: int|
            0 <= i < c.deps().len() && #[trigger] revision_in(pool@, c.deps()[i]) > c.seen()[i];
        assert(revision_in(pool@, c.deps()[i]) != c.seen()[i]);
    }
}

/// After a block evaluates, its observations match the pool.
pub proof fn law_evaluation_catches_up(deps: Seq<Seq<char>>, pool: InputPool)
    requires
        pool.wf(),
    ensures
        !differs(deps, snapshot(deps, pool@), pool@),
        forall|i: int|
            0 <= i < deps.len() ==> #[trigger] snapshot(deps, pool@)[i] <= revision_in(
                pool@,
                deps[i],
            ),
{
}

/// A write moves no key's revision backwards, so a cursor that was not ahead
/// of the pool stays so.
pub proof fn law_write_keeps_cursor_behind(
    c: ChangeCursor,
    before: InputPool,
    after: InputPool,
    key: Seq<char>,
    payload: PayloadView,
)
    requires
        c.wf(),
        before.wf(),
        c.behind(&before),
        after@ == before@.insert(key, (payload, (before.current_revision() + 1) as u64)),
        before.current_revision() < u64::MAX,
    ensures
        c.behind(&after),
{
    assert forall|i: int| 0 <= i < c.deps().len() implies #[trigger] c.seen()[i] <= revision_in(
        after@,
        c.deps()[i],
    ) by {
        let k = c.deps()[i];
        assert(c.seen()[i] <= revision_in(before@, k));
        before.lemma_revisions_bounded(k);
    }
}

/// With no write between two evaluations a block does not fire again, and a
/// write of a dependency makes it fire even when the value written equals
/// the stored one.
pub proof fn law_fires_on_write_not_on_value(
    deps: Seq<Seq<char>>,
    before: InputPool,
    after: InputPool,
    key: Seq<char>,
)
    requires
        before.wf(),
        before.current_revision() < u64::MAX,
        before@.contains_key(key),
        deps.contains(key),
        after@ == before@.insert(
            key,
            (before@[key].0, (before.current_revision() + 1) as u64),
        ),
    ensures
        !differs(deps, snapshot(deps, before@), before@),
        differs(deps, snapshot(deps, before@), after@),
{
    let i = choose|i: int| 0 <= i < deps.len() && deps[i] == key;
    before.lemma_revisions_bounded(key);
    assert(revision_in(after@, deps[i]) != snapshot(deps, before@)[i]);
}

} // verus!
