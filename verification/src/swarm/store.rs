//! The outcomes of recent swarms, oldest first, up to a limit.

use crate::swarm::types;
use crate::swarm::types::{
    SwarmOutcome, SwarmOutcomeView, MAX_SWARM_HISTORY, SWARM_STATE_SCHEMA_VERSION,
};
use crate::text;
use std::collections::VecDeque;
use vstd::hash_map::StringHashMap;
use vstd::prelude::*;
use vstd::string::*;

verus! {

/// The value of a store: the outcome of each swarm, and the ids from the oldest to the newest.
pub struct SwarmStoreView {
    pub outcomes: Map<Seq<char>, SwarmOutcomeView>,
    pub order: Seq<Seq<char>>,
}

impl SwarmStoreView {
    /// The ids are listed once each, and are those of the outcomes.
    pub open spec fn consistent(self) -> bool {
        &&& self.order.no_duplicates()
        &&& self.outcomes.dom() == self.order.to_set()
    }

    /// A store that holds nothing.
    pub open spec fn blank() -> SwarmStoreView {
        SwarmStoreView { outcomes: Map::empty(), order: seq![] }
    }

    /// The outcome of a swarm.
    pub open spec fn lookup(self, id: Seq<char>) -> Option<SwarmOutcomeView> {
        if self.outcomes.contains_key(id) {
            Some(self.outcomes[id])
        } else {
            None
        }
    }

    /// The store without its oldest outcomes, so that the limit is kept.
    pub open spec fn within_limit(self) -> SwarmStoreView
        decreases self.order.len(),
    {
        if self.order.len() > MAX_SWARM_HISTORY {
            SwarmStoreView {
                outcomes: self.outcomes.remove(self.order[0]),
                order: self.order.drop_first(),
            }.within_limit()
        } else {
            self
        }
    }

    /// The store with an outcome as the newest, in place of any that its swarm had.
    pub open spec fn with_outcome(self, outcome: SwarmOutcomeView) -> SwarmStoreView {
        SwarmStoreView {
            outcomes: self.outcomes.insert(outcome.swarm_id, outcome),
            order: self.order.remove_value(outcome.swarm_id).push(outcome.swarm_id),
        }.within_limit()
    }

    /// The store after the ids of `ids` from `from` on were taken over from `saved`, where the
    /// store does not know them.
    pub open spec fn adopting(
        self,
        saved: Map<Seq<char>, SwarmOutcomeView>,
        ids: Seq<Seq<char>>,
        from: int,
    ) -> SwarmStoreView
        decreases ids.len() - from,
    {
        if from < 0 || from >= ids.len() {
            self
        } else if saved.contains_key(ids[from]) && !self.outcomes.contains_key(ids[from]) {
            SwarmStoreView {
                outcomes: self.outcomes.insert(ids[from], saved[ids[from]]),
                order: self.order.push(ids[from]),
            }.adopting(saved, ids, from + 1)
        } else {
            self.adopting(saved, ids, from + 1)
        }
    }

    /// The store after a saved store was taken over.
    pub open spec fn merged(self, saved: PersistedSwarmStoreView) -> SwarmStoreView {
        if saved.schema_version == SWARM_STATE_SCHEMA_VERSION {
            self.adopting(saved.store.outcomes, saved.store.order, 0).within_limit()
        } else {
            self
        }
    }
}

/// The outcomes that a table holds.
pub open spec fn outcome_map(table: Map<Seq<char>, SwarmOutcome>) -> Map<
    Seq<char>,
    SwarmOutcomeView,
> {
    table.map_values(|outcome: SwarmOutcome| outcome@)
}

/// A store as it is saved.
pub struct PersistedSwarmStore {
    pub schema_version: u32,
    pub outcomes: StringHashMap<SwarmOutcome>,
    pub order: VecDeque<String>,
}

/// The value of a [`PersistedSwarmStore`].
pub struct PersistedSwarmStoreView {
    pub schema_version: u32,
    pub store: SwarmStoreView,
}

impl View for PersistedSwarmStore {
    type V = PersistedSwarmStoreView;

    open spec fn view(&self) -> PersistedSwarmStoreView {
        PersistedSwarmStoreView {
            schema_version: self.schema_version,
            store: SwarmStoreView {
                outcomes: outcome_map(self.outcomes@),
                order: text::texts(self.order@),
            },
        }
    }
}

impl Default for PersistedSwarmStore {
    fn default() -> (r: Self)
        ensures
            r@ == (PersistedSwarmStoreView {
                schema_version: SWARM_STATE_SCHEMA_VERSION,
                store: SwarmStoreView::blank(),
            }),
    {
        let r: PersistedSwarmStore = PersistedSwarmStore {
            schema_version: SWARM_STATE_SCHEMA_VERSION,
            outcomes: StringHashMap::new(),
            order: VecDeque::new(),
        };
        assert(outcome_map(r.outcomes@) =~= Map::empty());
        assert(text::texts(r.order@) =~= seq![]);
        r
    }
}

impl PersistedSwarmStore {
    /// Adds an outcome under an id; one that the id already has is replaced.
    pub fn insert(&mut self, id: String, outcome: SwarmOutcome)
        ensures
            final(self)@ == (PersistedSwarmStoreView {
                schema_version: old(self)@.schema_version,
                store: SwarmStoreView {
                    outcomes: old(self)@.store.outcomes.insert(id@, outcome@),
                    order: old(self)@.store.order,
                },
            }),
    {
        let ghost before = self.outcomes@;
        let ghost key = id@;
        let ghost value = outcome@;
        self.outcomes.insert(id, outcome);
        assert(outcome_map(self.outcomes@) =~= outcome_map(before).insert(key, value));
    }

    /// Lists an id as the newest.
    pub fn push_id(&mut self, id: String)
        ensures
            final(self)@ == (PersistedSwarmStoreView {
                schema_version: old(self)@.schema_version,
                store: SwarmStoreView {
                    outcomes: old(self)@.store.outcomes,
                    order: old(self)@.store.order.push(id@),
                },
            }),
    {
        let ghost before = self.order@;
        let ghost last = id@;
        self.order.push_back(id);
        assert(text::texts(self.order@) =~= text::texts(before).push(last));
    }

    /// The outcome under an id.
    pub fn get(&self, id: &str) -> (r: Option<&SwarmOutcome>)
        ensures
            match r {
                Some(outcome) => self@.store.lookup(id@) == Some(outcome@),
                None => self@.store.lookup(id@) is None,
            },
    {
        self.outcomes.get(id)
    }

    /// The ids, from the oldest to the newest.
    pub fn ids(&self) -> (r: Vec<String>)
        ensures
            text::texts(r@) == self@.store.order,
    {
        let mut out: Vec<String> = Vec::new();
        let mut i: usize = 0;
        while i < self.order.len()
            invariant
                i <= self.order@.len(),
                out@.len() == i,
                forall|j: int| 0 <= j < i ==> #[trigger] out@[j]@ == self.order@[j]@,
            decreases self.order@.len() - i,
        {
            out.push(self.order[i].clone());
            i += 1;
        }
        assert(text::texts(out@) =~= text::texts(self.order@));
        out
    }
}

/// The outcomes of recent swarms.
pub struct SwarmStore {
    outcomes: StringHashMap<SwarmOutcome>,
    order: VecDeque<String>,
}

impl View for SwarmStore {
    type V = SwarmStoreView;

    closed spec fn view(&self) -> SwarmStoreView {
        SwarmStoreView {
            outcomes: outcome_map(self.outcomes@),
            order: text::texts(self.order@),
        }
    }
}

impl SwarmStore {
    /// The ids are listed once each, are those of the outcomes, and keep the limit.
    pub open spec fn wf(self) -> bool {
        &&& self@.consistent()
        &&& self@.order.len() <= MAX_SWARM_HISTORY
    }

    /// An empty store.
    pub fn new() -> (r: SwarmStore)
        ensures
            r.wf(),
            r@ == SwarmStoreView::blank(),
    {
        let r: SwarmStore = SwarmStore { outcomes: StringHashMap::new(), order: VecDeque::new() };
        assert(outcome_map(r.outcomes@) =~= Map::empty());
        assert(text::texts(r.order@) =~= seq![]);
        assert(r@.outcomes.dom() =~= r@.order.to_set());
        r
    }

    /// Drops the oldest outcomes until the limit is kept.
    fn keep_limit(&mut self)
        requires
            old(self)@.consistent(),
        ensures
            final(self).wf(),
            final(self)@ == old(self)@.within_limit(),
    {
        while self.order.len() > MAX_SWARM_HISTORY
            invariant
                self@.consistent(),
                self@.within_limit() == old(self)@.within_limit(),
            decreases self.order@.len(),
        {
            let ghost before = self@;
            let ghost table = self.outcomes@;
            if let Some(oldest) = self.order.pop_front() {
                self.outcomes.remove(oldest.as_str());
                proof {
                    assert(oldest@ == before.order[0]);
                    assert(self@.order =~= before.order.drop_first());
                    assert(self@.outcomes =~= before.outcomes.remove(before.order[0]));
                    lemma_drop_oldest(before);
                }
            }
        }
    }

    /// Stores an outcome as the newest, in place of any that its swarm had.
    pub fn store_swarm_outcome(&mut self, outcome: &SwarmOutcome)
        requires
            old(self).wf(),
        ensures
            final(self).wf(),
            final(self)@ == old(self)@.with_outcome(outcome@),
    {
        let ghost before = self@;
        let ghost table = self.outcomes@;
        let ghost id = outcome@.swarm_id;
        let copy: SwarmOutcome = outcome.clone();
        self.outcomes.insert(outcome.swarm_id.clone(), copy);
        assert(outcome_map(self.outcomes@) =~= outcome_map(table).insert(id, outcome@));
        let mut idx: usize = 0;
        let len: usize = self.order.len();
        while idx < len && !text::same_text(self.order[idx].as_str(), outcome.swarm_id.as_str())
            invariant
                idx <= len,
                len == self.order@.len(),
                id == outcome.swarm_id@,
                forall|j: int| 0 <= j < idx ==> self.order@[j]@ != id,
            decreases len - idx,
        {
            idx += 1;
        }
        proof {
            before.order.index_of_first_ensures(id);
            assert(forall|j: int|
                0 <= j < before.order.len() ==> before.order[j] == self.order@[j]@);
            if idx < len {
                assert(before.order[idx as int] == id);
                assert(before.order.index_of_first(id) == Some(idx as int));
            } else {
                assert(before.order.index_of_first(id) is None);
            }
        }
        if idx < len {
            let _ = self.order.remove(idx);
        }
        assert(self@.order =~= before.order.remove_value(id));
        self.order.push_back(outcome.swarm_id.clone());
        proof {
            assert(self@.order =~= before.order.remove_value(id).push(id));
            lemma_move_to_back(before, id, outcome@);
        }
        self.keep_limit();
    }

    /// The outcome of a swarm.
    pub fn load_swarm_outcome(&self, swarm_id: &str) -> (r: Option<SwarmOutcome>)
        ensures
            match r {
                Some(outcome) => self@.lookup(swarm_id@) == Some(outcome@),
                None => self@.lookup(swarm_id@) is None,
            },
    {
        match self.outcomes.get(swarm_id) {
            Some(outcome) => Some(outcome.clone()),
            None => None,
        }
    }

    /// Takes over the outcomes of a saved store that this store does not know.
    pub fn merge(&mut self, saved: &PersistedSwarmStore)
        requires
            old(self).wf(),
        ensures
            final(self).wf(),
            final(self)@ == old(self)@.merged(saved@),
    {
        if saved.schema_version != SWARM_STATE_SCHEMA_VERSION {
            return;
        }
        let ghost known = saved@.store.outcomes;
        let ghost ids = saved@.store.order;
        let mut i: usize = 0;
        while i < saved.order.len()
            invariant
                i <= saved.order@.len(),
                known == saved@.store.outcomes,
                ids == saved@.store.order,
                self@.consistent(),
                self@.adopting(known, ids, i as int) == old(self)@.adopting(known, ids, 0),
            decreases saved.order@.len() - i,
        {
            let id: &String = &saved.order[i];
            let ghost before = self@;
            let ghost table = self.outcomes@;
            assert(ids[i as int] == id@);
            if let Some(outcome) = saved.outcomes.get(id.as_str()) {
                if !self.outcomes.contains_key(id.as_str()) {
                    self.outcomes.insert(id.clone(), outcome.clone());
                    self.order.push_back(id.clone());
                    proof {
                        assert(self@.outcomes =~= before.outcomes.insert(id@, known[id@]));
                        assert(self@.order =~= before.order.push(id@));
                        lemma_push_fresh(before, id@, known[id@]);
                    }
                }
            }
            i += 1;
        }
        self.keep_limit();
    }

    /// The store as it is saved.
    pub fn snapshot(&self) -> (r: PersistedSwarmStore)
        requires
            self.wf(),
        ensures
            r@ == (PersistedSwarmStoreView {
                schema_version: SWARM_STATE_SCHEMA_VERSION,
                store: self@,
            }),
    {
        let mut out: PersistedSwarmStore = PersistedSwarmStore::default();
        let mut i: usize = 0;
        while i < self.order.len()
            invariant
                i <= self.order@.len(),
                self@.consistent(),
                out@.schema_version == SWARM_STATE_SCHEMA_VERSION,
                out@.store.order == self@.order.take(i as int),
                forall|id: Seq<char>| #[trigger]
                    out@.store.outcomes.contains_key(id) <==> self@.order.take(i as int).contains(
                        id,
                    ),
                forall|id: Seq<char>| #[trigger]
                    out@.store.outcomes.contains_key(id) ==> out@.store.outcomes[id]
                        == self@.outcomes[id],
            decreases self.order@.len() - i,
        {
            let id: &String = &self.order[i];
            let ghost before = out@.store;
            assert(self@.order[i as int] == id@);
            assert(self@.order.to_set().contains(id@));
            assert(self.outcomes@.contains_key(id@));
            if let Some(outcome) = self.outcomes.get(id.as_str()) {
                out.insert(id.clone(), outcome.clone());
            }
            out.push_id(id.clone());
            proof {
                let longer = self@.order.take(i + 1);
                assert(longer =~= self@.order.take(i as int).push(id@));
                assert forall|x: Seq<char>| #[trigger]
                    out@.store.outcomes.contains_key(x) <==> longer.contains(x) by {
                    if x == id@ {
                        assert(longer[i as int] == x);
                    } else if longer.contains(x) {
                        let k = choose|k: int| 0 <= k < longer.len() && longer[k] == x;
                        assert(self@.order.take(i as int)[k] == x);
                        assert(before.outcomes.contains_key(x));
                    } else if out@.store.outcomes.contains_key(x) {
                        assert(before.outcomes.contains_key(x));
                        let k = choose|k: int|
                            0 <= k < i && self@.order.take(i as int)[k] == x;
                        assert(longer[k] == x);
                    }
                }
            }
            i += 1;
        }
        proof {
            assert(self@.order.take(i as int) =~= self@.order);
            assert(out@.store.outcomes.dom() =~= self@.outcomes.dom());
            assert(out@.store.outcomes =~= self@.outcomes);
        }
        out
    }
}

proof fn lemma_drop_oldest(s: SwarmStoreView)
    requires
        s.consistent(),
        s.order.len() > 0,
    ensures
        (SwarmStoreView {
            outcomes: s.outcomes.remove(s.order[0]),
            order: s.order.drop_first(),
        }).consistent(),
{
    let rest = s.order.drop_first();
    assert(rest.no_duplicates()) by {
        assert forall|i: int, j: int| 0 <= i < rest.len() && 0 <= j < rest.len() && i
            != j implies rest[i] != rest[j] by {
            assert(rest[i] == s.order[i + 1]);
            assert(rest[j] == s.order[j + 1]);
        }
    }
    assert(s.outcomes.remove(s.order[0]).dom() =~= rest.to_set()) by {
        assert forall|x: Seq<char>| s.outcomes.remove(s.order[0]).dom().contains(
            x,
        ) implies rest.to_set().contains(x) by {
            assert(s.order.to_set().contains(x));
            let k = choose|k: int| 0 <= k < s.order.len() && s.order[k] == x;
            assert(rest[k - 1] == x);
        }
        assert forall|x: Seq<char>| rest.to_set().contains(x) implies s.outcomes.remove(
            s.order[0],
        ).dom().contains(x) by {
            let k = choose|k: int| 0 <= k < rest.len() && rest[k] == x;
            assert(s.order[k + 1] == x);
            assert(s.order.to_set().contains(x));
        }
    }
}

proof fn lemma_push_fresh(s: SwarmStoreView, id: Seq<char>, outcome: SwarmOutcomeView)
    requires
        s.consistent(),
        !s.outcomes.contains_key(id),
    ensures
        (SwarmStoreView {
            outcomes: s.outcomes.insert(id, outcome),
            order: s.order.push(id),
        }).consistent(),
{
    let longer = s.order.push(id);
    assert(!s.order.to_set().contains(id));
    assert(longer.no_duplicates()) by {
        assert forall|i: int, j: int| 0 <= i < longer.len() && 0 <= j < longer.len() && i
            != j implies longer[i] != longer[j] by {
            if i == s.order.len() {
                assert(s.order.to_set().contains(s.order[j]));
            } else if j == s.order.len() {
                assert(s.order.to_set().contains(s.order[i]));
            }
        }
    }
    assert(s.outcomes.insert(id, outcome).dom() =~= longer.to_set()) by {
        assert forall|x: Seq<char>| s.outcomes.insert(id, outcome).dom().contains(
            x,
        ) implies longer.to_set().contains(x) by {
            if x == id {
                assert(longer[s.order.len() as int] == x);
            } else {
                assert(s.order.to_set().contains(x));
                let k = choose|k: int| 0 <= k < s.order.len() && s.order[k] == x;
                assert(longer[k] == x);
            }
        }
        assert forall|x: Seq<char>| longer.to_set().contains(x) implies s.outcomes.insert(
            id,
            outcome,
        ).dom().contains(x) by {
            let k = choose|k: int| 0 <= k < longer.len() && longer[k] == x;
            if k < s.order.len() {
                assert(s.order.to_set().contains(s.order[k]));
            }
        }
    }
}

proof fn lemma_move_to_back(s: SwarmStoreView, id: Seq<char>, outcome: SwarmOutcomeView)
    requires
        s.consistent(),
    ensures
        (SwarmStoreView {
            outcomes: s.outcomes.insert(id, outcome),
            order: s.order.remove_value(id).push(id),
        }).consistent(),
{
    s.order.index_of_first_ensures(id);
    let front = s.order.remove_value(id);
    let rest = SwarmStoreView { outcomes: s.outcomes.remove(id), order: front };
    assert(front.no_duplicates()) by {
        if s.order.contains(id) {
            let at = s.order.index_of_first(id)->0;
            assert forall|i: int, j: int| 0 <= i < front.len() && 0 <= j < front.len() && i
                != j implies front[i] != front[j] by {
                let a = if i < at {
                    i
                } else {
                    i + 1
                };
                let b = if j < at {
                    j
                } else {
                    j + 1
                };
                assert(front[i] == s.order[a]);
                assert(front[j] == s.order[b]);
            }
        }
    }
    assert(rest.outcomes.dom() =~= front.to_set()) by {
        assert forall|x: Seq<char>| rest.outcomes.dom().contains(x) implies front.to_set().contains(
            x,
        ) by {
            assert(s.order.to_set().contains(x));
            let k = choose|k: int| 0 <= k < s.order.len() && s.order[k] == x;
            if s.order.contains(id) {
                let at = s.order.index_of_first(id)->0;
                let m = if k < at {
                    k
                } else {
                    k - 1
                };
                assert(front[m] == x);
            } else {
                assert(front[k] == x);
            }
        }
        assert forall|x: Seq<char>| front.to_set().contains(x) implies rest.outcomes.dom().contains(
            x,
        ) by {
            let k = choose|k: int| 0 <= k < front.len() && front[k] == x;
            if s.order.contains(id) {
                let at = s.order.index_of_first(id)->0;
                let m = if k < at {
                    k
                } else {
                    k + 1
                };
                assert(s.order[m] == x);
                assert(s.order[m] != s.order[at]);
            } else {
                assert(s.order[k] == x);
            }
            assert(s.order.to_set().contains(x));
        }
    }
    lemma_push_fresh(rest, id, outcome);
    assert(rest.outcomes.insert(id, outcome) =~= s.outcomes.insert(id, outcome));
}

/// What was stored of a swarm is what is read back.
pub proof fn stored_outcome_is_read_back(s: SwarmStoreView, outcome: SwarmOutcomeView)
    requires
        s.consistent(),
        s.order.len() <= MAX_SWARM_HISTORY,
    ensures
        s.with_outcome(outcome).lookup(outcome.swarm_id) == Some(outcome),
        s.with_outcome(outcome).order.last() == outcome.swarm_id,
{
    lemma_with_outcome(s, outcome);
}

/// The store that an outcome is stored in, before and after the limit is kept.
proof fn lemma_with_outcome(s: SwarmStoreView, outcome: SwarmOutcomeView)
    requires
        s.consistent(),
        s.order.len() <= MAX_SWARM_HISTORY,
    ensures
        ({
            let id = outcome.swarm_id;
            let full = s.order.len() == MAX_SWARM_HISTORY && !s.outcomes.contains_key(id);
            let after = s.with_outcome(outcome);
            &&& after.outcomes == (if full {
                s.outcomes.insert(id, outcome).remove(s.order[0])
            } else {
                s.outcomes.insert(id, outcome)
            })
            &&& after.order == (if full {
                s.order.drop_first().push(id)
            } else {
                s.order.remove_value(id).push(id)
            })
            &&& full ==> s.order[0] != id
        }),
{
    let id = outcome.swarm_id;
    s.order.index_of_first_ensures(id);
    let entered = SwarmStoreView {
        outcomes: s.outcomes.insert(id, outcome),
        order: s.order.remove_value(id).push(id),
    };
    assert(s.order.contains(id) == s.order.to_set().contains(id));
    if s.order.len() == MAX_SWARM_HISTORY && !s.outcomes.contains_key(id) {
        assert(s.order.to_set().contains(s.order[0]));
        assert(entered.order.drop_first() =~= s.order.drop_first().push(id));
        let shorter = SwarmStoreView {
            outcomes: entered.outcomes.remove(entered.order[0]),
            order: entered.order.drop_first(),
        };
        assert(entered.within_limit() == shorter.within_limit());
        assert(shorter.within_limit() == shorter);
    } else {
        assert(entered.order.len() <= MAX_SWARM_HISTORY);
    }
}

/// Storing an outcome leaves the outcomes of other swarms as they were, except that a full store
/// drops its oldest for a swarm that it did not know.
pub proof fn storing_keeps_other_outcomes(
    s: SwarmStoreView,
    outcome: SwarmOutcomeView,
    id: Seq<char>,
)
    requires
        s.consistent(),
        s.order.len() <= MAX_SWARM_HISTORY,
        id != outcome.swarm_id,
    ensures
        s.with_outcome(outcome).lookup(id) == (if s.order.len() == MAX_SWARM_HISTORY
            && !s.outcomes.contains_key(outcome.swarm_id) && id == s.order[0] {
            None
        } else {
            s.lookup(id)
        }),
{
    lemma_with_outcome(s, outcome);
}

proof fn lemma_limit_only_drops(s: SwarmStoreView, id: Seq<char>)
    ensures
        s.within_limit().lookup(id) is Some ==> s.within_limit().lookup(id) == s.lookup(id),
    decreases s.order.len(),
{
    if s.order.len() > MAX_SWARM_HISTORY {
        lemma_limit_only_drops(
            SwarmStoreView {
                outcomes: s.outcomes.remove(s.order[0]),
                order: s.order.drop_first(),
            },
            id,
        );
    }
}

proof fn lemma_adopting_keeps(
    s: SwarmStoreView,
    saved: Map<Seq<char>, SwarmOutcomeView>,
    ids: Seq<Seq<char>>,
    from: int,
    id: Seq<char>,
)
    requires
        s.outcomes.contains_key(id),
    ensures
        s.adopting(saved, ids, from).lookup(id) == s.lookup(id),
    decreases ids.len() - from,
{
    if 0 <= from < ids.len() {
        if saved.contains_key(ids[from]) && !s.outcomes.contains_key(ids[from]) {
            lemma_adopting_keeps(
                SwarmStoreView {
                    outcomes: s.outcomes.insert(ids[from], saved[ids[from]]),
                    order: s.order.push(ids[from]),
                },
                saved,
                ids,
                from + 1,
                id,
            );
        } else {
            lemma_adopting_keeps(s, saved, ids, from + 1, id);
        }
    }
}

/// Taking over a saved store never replaces an outcome that is known already: it is kept as it
/// was, or dropped as one of the oldest.
pub proof fn merging_never_replaces(
    s: SwarmStoreView,
    saved: PersistedSwarmStoreView,
    id: Seq<char>,
)
    requires
        s.outcomes.contains_key(id),
    ensures
        s.merged(saved).lookup(id) == s.lookup(id) || s.merged(saved).lookup(id) is None,
{
    lemma_adopting_keeps(s, saved.store.outcomes, saved.store.order, 0, id);
    lemma_limit_only_drops(s.adopting(saved.store.outcomes, saved.store.order, 0), id);
}

/// A store that was saved is what an empty store becomes by taking it over.
pub proof fn saved_store_is_restored(s: SwarmStoreView)
    requires
        s.consistent(),
        s.order.len() <= MAX_SWARM_HISTORY,
    ensures
        SwarmStoreView::blank().merged(
            PersistedSwarmStoreView { schema_version: SWARM_STATE_SCHEMA_VERSION, store: s },
        ) == s,
{
    let blank = SwarmStoreView::blank();
    assert(blank.order =~= s.order.take(0));
    assert(blank.outcomes.dom() =~= s.order.take(0).to_set());
    lemma_adopting_rebuilds(s, blank, 0);
}

proof fn lemma_adopting_rebuilds(s: SwarmStoreView, part: SwarmStoreView, from: int)
    requires
        s.consistent(),
        0 <= from <= s.order.len(),
        part.order == s.order.take(from),
        part.outcomes.dom() == s.order.take(from).to_set(),
        forall|id: Seq<char>| #[trigger]
            part.outcomes.contains_key(id) ==> part.outcomes[id] == s.outcomes[id],
    ensures
        part.adopting(s.outcomes, s.order, from) == s,
    decreases s.order.len() - from,
{
    if from < s.order.len() {
        let id = s.order[from];
        assert(s.order.to_set().contains(id));
        assert(!part.outcomes.contains_key(id)) by {
            if part.outcomes.dom().contains(id) {
                let front = s.order.take(from);
                let k = choose|k: int| 0 <= k < front.len() && front[k] == id;
                assert(s.order[k] == s.order[from]);
            }
        }
        let next = SwarmStoreView {
            outcomes: part.outcomes.insert(id, s.outcomes[id]),
            order: part.order.push(id),
        };
        assert(next.order =~= s.order.take(from + 1));
        assert(next.outcomes.dom() =~= s.order.take(from + 1).to_set()) by {
            let longer = s.order.take(from + 1);
            let front = s.order.take(from);
            assert forall|x: Seq<char>| next.outcomes.dom().contains(
                x,
            ) implies longer.to_set().contains(x) by {
                if x == id {
                    assert(longer[from] == x);
                } else {
                    assert(front.to_set().contains(x));
                    let k = choose|k: int| 0 <= k < front.len() && front[k] == x;
                    assert(longer[k] == x);
                }
            }
            assert forall|x: Seq<char>| longer.to_set().contains(
                x,
            ) implies next.outcomes.dom().contains(x) by {
                let k = choose|k: int| 0 <= k < longer.len() && longer[k] == x;
                if k < from {
                    assert(front[k] == x);
                    assert(front.to_set().contains(x));
                }
            }
        }
        lemma_adopting_rebuilds(s, next, from + 1);
    } else {
        assert(s.order.take(from) =~= s.order);
        assert(part.outcomes =~= s.outcomes);
    }
}

/// A store keeps the limit, and storing keeps the others in their order: the stored swarm moves to
/// the end, and only a full store loses its oldest for a swarm that it did not know.
pub proof fn storing_keeps_the_order(s: SwarmStoreView, outcome: SwarmOutcomeView)
    requires
        s.consistent(),
        s.order.len() <= 256,
    ensures
        ({
            let id = outcome.swarm_id;
            let after = s.with_outcome(outcome);
            &&& after.order.len() <= 256
            &&& after.order.last() == id
            &&& s.outcomes.contains_key(id) ==> after.order.len() == s.order.len()
                && after.order.drop_last() == s.order.remove_value(id)
            &&& !s.outcomes.contains_key(id) && s.order.len() < 256 ==> after.order
                == s.order.push(id)
            &&& !s.outcomes.contains_key(id) && s.order.len() == 256 ==> after.order
                == s.order.drop_first().push(id)
        }),
{
    lemma_with_outcome(s, outcome);
    let id = outcome.swarm_id;
    s.order.index_of_first_ensures(id);
    assert(s.order.contains(id) == s.order.to_set().contains(id));
    let rest = s.order.remove_value(id);
    assert(rest.push(id).drop_last() =~= rest);
}

/// A saved outcome that the store does not know is taken over, where there is room for all and the
/// saved store has the layout of this one; a saved store of another layout changes nothing.
pub proof fn merging_adopts_the_unknown(
    s: SwarmStoreView,
    saved: PersistedSwarmStoreView,
    id: Seq<char>,
)
    requires
        s.consistent(),
        saved.store.consistent(),
        s.order.len() + saved.store.order.len() <= 256,
    ensures
        saved.schema_version != 1 ==> s.merged(saved) == s,
        saved.schema_version == 1 && s.lookup(id) is None ==> s.merged(saved).lookup(id)
            == saved.store.lookup(id),
        saved.schema_version == 1 && s.lookup(id) is Some ==> s.merged(saved).lookup(id)
            == s.lookup(id),
        saved.schema_version == 1 ==> s.merged(saved).order.take(s.order.len() as int) == s.order,
{
    lemma_adopting_all(s, saved.store.outcomes, saved.store.order, 0, id);
    assert(saved.store.order.contains(id) == saved.store.order.to_set().contains(id));
    if saved.store.order.contains(id) {
        let k = choose|k: int| 0 <= k < saved.store.order.len() && saved.store.order[k] == id;
        assert(saved.store.order[k] == id);
    }
}

proof fn lemma_adopting_all(
    s: SwarmStoreView,
    saved: Map<Seq<char>, SwarmOutcomeView>,
    ids: Seq<Seq<char>>,
    from: int,
    id: Seq<char>,
)
    requires
        0 <= from <= ids.len(),
    ensures
        s.adopting(saved, ids, from).order.len() <= s.order.len() + ids.len() - from,
        s.order.len() <= s.adopting(saved, ids, from).order.len(),
        s.adopting(saved, ids, from).order.take(s.order.len() as int) == s.order,
        s.lookup(id) is Some ==> s.adopting(saved, ids, from).lookup(id) == s.lookup(id),
        s.lookup(id) is None ==> s.adopting(saved, ids, from).lookup(id) == (if exists|k: int|
            from <= k < ids.len() && #[trigger] ids[k] == id && saved.contains_key(id) {
            Some(saved[id])
        } else {
            None
        }),
    decreases ids.len() - from,
{
    if from < ids.len() {
        if saved.contains_key(ids[from]) && !s.outcomes.contains_key(ids[from]) {
            let next = SwarmStoreView {
                outcomes: s.outcomes.insert(ids[from], saved[ids[from]]),
                order: s.order.push(ids[from]),
            };
            lemma_adopting_all(next, saved, ids, from + 1, id);
            let after = next.adopting(saved, ids, from + 1);
            assert(after.order.take(next.order.len() as int).take(s.order.len() as int)
                =~= after.order.take(s.order.len() as int));
            assert(next.order.take(s.order.len() as int) =~= s.order);
        } else {
            lemma_adopting_all(s, saved, ids, from + 1, id);
        }
    } else {
        assert(s.order.take(s.order.len() as int) =~= s.order);
    }
}

} // verus!
