//! The projection of contacts, one row per identifier, and the engine that
//! reconciles it with the changes read from patch batches.

use vstd::prelude::*;
use crate::contact::{Contact, ContactId, ContactView};
use crate::patch::{Patch, ParsedChange, ChangeView, ParseError, parse_patches, parse_spec, patches_view};
use crate::order::{name_before, listed_in_order, listed_before, lemma_name_before_asymmetric, lemma_strictly_in_order, lemma_strict_order_unique};

verus! {

/// A failure of the store itself.
#[derive(Clone, Copy, Debug, PartialEq, Eq, Structural)]
pub enum StoreError {
    /// A row with the same identifier exists already.
    DuplicateId,
}

/// Why a patch batch could not be reconciled.
#[derive(Clone, Copy, Debug, PartialEq, Eq, Structural)]
pub enum ReconcileError {
    Parse(ParseError),
    Store(StoreError),
}

/// The single mutation that brings the projection in line with a change.
#[derive(Clone, Debug)]
pub enum Mutation {
    Insert(Contact),
    Update(Contact),
    Delete(ContactId),
}

pub enum MutationView {
    Insert(ContactView),
    Update(ContactView),
    Delete(ContactId),
}

impl View for Mutation {
    type V = MutationView;

    open spec fn view(&self) -> MutationView {
        match self {
            Mutation::Insert(c) => MutationView::Insert(c@),
            Mutation::Update(c) => MutationView::Update(c@),
            Mutation::Delete(id) => MutationView::Delete(*id),
        }
    }
}

/// The projection, as a map from identifier to row.
pub type Rows = Map<ContactId, ContactView>;

/// `c` with the creation time `created_at`.
pub open spec fn with_created(c: ContactView, created_at: i64) -> ContactView {
    ContactView { created_at, ..c }
}

/// The rows after an update by `c`: every field but the creation time is
/// overwritten; nothing happens where no row has `c`'s identifier.
pub open spec fn updated(m: Rows, c: ContactView) -> Rows {
    if m.contains_key(c.id) {
        m.insert(c.id, with_created(c, m[c.id].created_at))
    } else {
        m
    }
}

/// The rows after an insert, or an update where the row exists.
pub open spec fn upserted(m: Rows, c: ContactView) -> Rows {
    if m.contains_key(c.id) {
        updated(m, c)
    } else {
        m.insert(c.id, c)
    }
}

/// The rows after reconciling the change `ch`.
pub open spec fn reconciled(m: Rows, ch: ChangeView) -> Rows {
    match ch {
        ChangeView::Upsert(c) => upserted(m, c),
        ChangeView::Remove(id) => m.remove(id),
    }
}

/// The mutation that reconciles `ch`, where a row with its identifier
/// exists or not.
pub open spec fn mutation_for(ch: ChangeView, exists: bool) -> MutationView {
    match ch {
        ChangeView::Upsert(c) => if exists { MutationView::Update(c) } else { MutationView::Insert(c) },
        ChangeView::Remove(id) => MutationView::Delete(id),
    }
}

/// Decides which mutation reconciles `change`, given whether a row with its
/// identifier exists.
pub fn plan_mutation(change: ParsedChange, exists: bool) -> (r: Mutation)
    ensures
        r@ == mutation_for(change@, exists),
{
    match change {
        ParsedChange::Upsert(c) => if exists { Mutation::Update(c) } else { Mutation::Insert(c) },
        ParsedChange::Remove(id) => Mutation::Delete(id),
    }
}

/// After reconciling the insert of `c` into an empty projection, looking
/// `c`'s identifier up finds `c`.
pub proof fn lemma_insert_then_find(c: ContactView)
    ensures
        reconciled(Map::empty(), ChangeView::Upsert(c)).contains_key(c.id),
        reconciled(Map::empty(), ChangeView::Upsert(c))[c.id] == c,
{
}

/// Inserting `e` and then reconciling `e2` with the same identifier leaves the
/// row with `e2`'s fields but `e`'s creation time.
pub proof fn lemma_update_keeps_creation(m: Rows, e: ContactView, e2: ContactView)
    requires
        !m.contains_key(e.id),
        e2.id == e.id,
    ensures
        reconciled(reconciled(m, ChangeView::Upsert(e)), ChangeView::Upsert(e2))[e.id]
            == with_created(e2, e.created_at),
{
}

/// Removing an absent identifier changes nothing, and removing twice is
/// removing once.
pub proof fn lemma_remove_idempotent(m: Rows, id: ContactId)
    ensures
        !m.contains_key(id) ==> reconciled(m, ChangeView::Remove(id)) == m,
        reconciled(reconciled(m, ChangeView::Remove(id)), ChangeView::Remove(id))
            == reconciled(m, ChangeView::Remove(id)),
{
    assert(!m.contains_key(id) ==> m.remove(id) =~= m);
    assert(m.remove(id).remove(id) =~= m.remove(id));
}

/// `s` lists the rows `m`: each row once, in name order.
pub open spec fn is_listing(m: Rows, s: Seq<ContactView>) -> bool {
    &&& listed_in_order(s)
    &&& forall|t: int| 0 <= t < s.len() ==> m.contains_key((#[trigger] s[t]).id) && m[s[t].id] == s[t]
    &&& forall|id: ContactId| m.contains_key(id) ==> exists|t: int| 0 <= t < s.len() && (#[trigger] s[t]).id == id
    &&& forall|a: int, b: int| 0 <= a < b < s.len() ==> (#[trigger] s[a]).id != (#[trigger] s[b]).id
}

/// No two rows of `m` share both last and first name.
pub open spec fn names_distinct(m: Rows) -> bool {
    forall|a: ContactId, b: ContactId|
        m.contains_key(a) && m.contains_key(b) && a != b
            ==> (#[trigger] m[a]).last_name != (#[trigger] m[b]).last_name || m[a].first_name != m[b].first_name
}

proof fn lemma_listing_strict(m: Rows, s: Seq<ContactView>)
    requires
        is_listing(m, s),
        names_distinct(m),
    ensures
        crate::order::strictly_in_order(s),
{
    assert forall|t: int| 0 <= t < s.len() - 1 implies (#[trigger] s[t]).last_name != s[t + 1].last_name
        || s[t].first_name != s[t + 1].first_name by {
        assert(s[t].id != s[t + 1].id);
        assert(m[s[t].id] == s[t] && m[s[t + 1].id] == s[t + 1]);
    }
    lemma_strictly_in_order(s);
}

/// Where no two rows share a name, the rows have one listing only: what
/// `all` returns does not depend on the order in which rows were added.
pub proof fn lemma_listing_unique(m: Rows, s1: Seq<ContactView>, s2: Seq<ContactView>)
    requires
        is_listing(m, s1),
        is_listing(m, s2),
        names_distinct(m),
    ensures
        s1 == s2,
{
    lemma_listing_strict(m, s1);
    lemma_listing_strict(m, s2);
    let f = |t: int| choose|u: int| 0 <= u < s2.len() && (#[trigger] s2[u]).id == s1[t].id;
    let g = |u: int| choose|t: int| 0 <= t < s1.len() && (#[trigger] s1[t]).id == s2[u].id;
    assert forall|t: int| 0 <= t < s1.len() implies 0 <= #[trigger] f(t) < s2.len() && s2[f(t)] == s1[t] by {
        assert(m.contains_key(s1[t].id));
    }
    assert forall|u: int| 0 <= u < s2.len() implies 0 <= #[trigger] g(u) < s1.len() && s1[g(u)] == s2[u] by {
        assert(m.contains_key(s2[u].id));
    }
    lemma_strict_order_unique(s1, s2, f, g);
}

/// The projection of contacts, one row per identifier.
pub struct ContactRepository {
    rows: Vec<Contact>,
    model: Ghost<Rows>,
}

impl View for ContactRepository {
    type V = Rows;

    closed spec fn view(&self) -> Rows {
        self.model@
    }
}

impl ContactRepository {
    /// The rows are keyed by unique identifiers and are what the view says.
    pub closed spec fn wf(&self) -> bool {
        &&& forall|i: int, j: int|
            0 <= i < j < self.rows@.len() ==> (#[trigger] self.rows@[i]).id != (#[trigger] self.rows@[j]).id
        &&& forall|i: int|
            0 <= i < self.rows@.len() ==> self.model@.contains_key((#[trigger] self.rows@[i]).id)
                && self.model@[self.rows@[i].id] == self.rows@[i]@
        &&& forall|id: ContactId|
            self.model@.contains_key(id) ==> exists|i: int| 0 <= i < self.rows@.len() && (#[trigger] self.rows@[i]).id == id
    }

    /// An empty projection.
    pub fn new() -> (r: ContactRepository)
        ensures
            r.wf(),
            r@ == Map::<ContactId, ContactView>::empty(),
    {
        ContactRepository { rows: Vec::new(), model: Ghost(Map::empty()) }
    }

    fn position(&self, id: ContactId) -> (r: Option<usize>)
        requires
            self.wf(),
        ensures
            match r {
                Some(i) => i < self.rows@.len() && self.rows@[i as int].id == id
                    && self@.contains_key(id) && self@[id] == self.rows@[i as int]@,
                None => !self@.contains_key(id),
            },
    {
        let n = self.rows.len();
        let mut i: usize = 0;
        while i < n
            invariant
                self.wf(),
                n == self.rows@.len(),
                0 <= i <= n,
                forall|j: int| 0 <= j < i ==> (#[trigger] self.rows@[j]).id != id,
            decreases n - i,
        {
            if self.rows[i].id == id {
                return Some(i);
            }
            i += 1;
        }
        None
    }

    /// The row with identifier `id`, if there is one.
    pub fn get_by_id(&self, id: ContactId) -> (r: Option<Contact>)
        requires
            self.wf(),
        ensures
            match r {
                Some(c) => self@.contains_key(id) && c@ == self@[id],
                None => !self@.contains_key(id),
            },
    {
        match self.position(id) {
            Some(i) => Some(self.rows[i].snapshot()),
            None => None,
        }
    }

    /// Adds a row for `contact`; refused where its identifier has one already.
    pub fn insert(&mut self, contact: &Contact) -> (r: Result<(), StoreError>)
        requires
            old(self).wf(),
        ensures
            final(self).wf(),
            old(self)@.contains_key(contact.id) ==> r == Err::<(), StoreError>(StoreError::DuplicateId)
                && final(self)@ == old(self)@,
            !old(self)@.contains_key(contact.id) ==> r == Ok::<(), StoreError>(())
                && final(self)@ == old(self)@.insert(contact.id, contact@),
    {
        if self.position(contact.id).is_some() {
            return Err(StoreError::DuplicateId);
        }
        let ghost old_rows = self.rows@;
        let ghost old_model = self.model@;
        self.rows.push(contact.snapshot());
        self.model = Ghost(self.model@.insert(contact.id, contact@));
        proof {
            assert forall|i: int| 0 <= i < old_rows.len() implies (#[trigger] old_rows[i]).id != contact.id by {
                assert(old_model.contains_key(old_rows[i].id));
            }
            assert forall|id: ContactId| self.model@.contains_key(id)
                implies exists|i: int| 0 <= i < self.rows@.len() && (#[trigger] self.rows@[i]).id == id by {
                if id == contact.id {
                    assert(self.rows@[old_rows.len() as int].id == id);
                } else {
                    let i = choose|i: int| 0 <= i < old_rows.len() && (#[trigger] old_rows[i]).id == id;
                    assert(self.rows@[i] == old_rows[i]);
                }
            }
        }
        Ok(())
    }

    /// Overwrites the row with `contact`'s identifier with its fields, all but
    /// the creation time; nothing happens where there is no such row.
    pub fn update(&mut self, contact: &Contact)
        requires
            old(self).wf(),
        ensures
            final(self).wf(),
            final(self)@ == updated(old(self)@, contact@),
    {
        match self.position(contact.id) {
            None => {},
            Some(i) => {
                let ghost old_rows = self.rows@;
                let mut row = contact.snapshot();
                row.created_at = self.rows[i].created_at;
                assert(row@ == with_created(contact@, self.model@[contact.id].created_at));
                self.rows.set(i, row);
                self.model = Ghost(self.model@.insert(contact.id, row@));
                proof {
                    assert forall|id: ContactId| self.model@.contains_key(id)
                        implies exists|j: int| 0 <= j < self.rows@.len() && (#[trigger] self.rows@[j]).id == id by {
                        let j = choose|j: int| 0 <= j < old_rows.len() && (#[trigger] old_rows[j]).id == id;
                        assert(self.rows@[j].id == id);
                    }
                }
            },
        }
    }

    /// Removes the row with identifier `id`, where there is one.
    pub fn delete(&mut self, id: ContactId)
        requires
            old(self).wf(),
        ensures
            final(self).wf(),
            final(self)@ == old(self)@.remove(id),
    {
        match self.position(id) {
            None => {
                assert(self.model@.remove(id) =~= self.model@);
            },
            Some(i) => {
                let ghost old_rows = self.rows@;
                let ghost old_model = self.model@;
                self.rows.remove(i);
                self.model = Ghost(self.model@.remove(id));
                proof {
                    assert forall|j: int| 0 <= j < self.rows@.len()
                        implies self.model@.contains_key((#[trigger] self.rows@[j]).id)
                            && self.model@[self.rows@[j].id] == self.rows@[j]@ by {
                        if j < i {
                            assert(self.rows@[j] == old_rows[j]);
                        } else {
                            assert(self.rows@[j] == old_rows[j + 1]);
                        }
                    }
                    assert forall|k: ContactId| self.model@.contains_key(k)
                        implies exists|j: int| 0 <= j < self.rows@.len() && (#[trigger] self.rows@[j]).id == k by {
                        let j = choose|j: int| 0 <= j < old_rows.len() && (#[trigger] old_rows[j]).id == k;
                        if j < i {
                            assert(self.rows@[j] == old_rows[j]);
                        } else {
                            assert(j != i);
                            assert(self.rows@[j - 1] == old_rows[j]);
                        }
                    }
                    assert forall|a: int, b: int| 0 <= a < b < self.rows@.len()
                        implies (#[trigger] self.rows@[a]).id != (#[trigger] self.rows@[b]).id by {
                        let a2 = if a < i { a } else { a + 1 };
                        let b2 = if b < i { b } else { b + 1 };
                        assert(self.rows@[a] == old_rows[a2]);
                        assert(self.rows@[b] == old_rows[b2]);
                    }
                }
            },
        }
    }

    /// Every row, listed by last name and then first name.
    pub fn all(&self) -> (r: Vec<Contact>)
        requires
            self.wf(),
        ensures
            is_listing(self@, r@.map_values(|c: Contact| c@)),
    {
        let n = self.rows.len();
        let mut out: Vec<Contact> = Vec::new();
        let ghost mut src: Seq<int> = Seq::empty();
        let ghost mut pos: Seq<int> = Seq::empty();
        let mut k: usize = 0;
        while k < n
            invariant
                self.wf(),
                n == self.rows@.len(),
                0 <= k <= n,
                out@.len() == k,
                src.len() == k,
                pos.len() == k,
                listed_in_order(out@.map_values(|c: Contact| c@)),
                forall|t: int| 0 <= t < k ==> 0 <= #[trigger] src[t] < k && out@[t]@ == self.rows@[src[t]]@,
                forall|a: int, b: int| 0 <= a < b < k ==> #[trigger] src[a] != #[trigger] src[b],
                forall|j: int| 0 <= j < k ==> 0 <= #[trigger] pos[j] < k && out@[pos[j]]@ == self.rows@[j]@,
            decreases n - k,
        {
            let c = self.rows[k].snapshot();
            let mut p: usize = 0;
            let mut here = false;
            while p < k && !here
                invariant
                    0 <= p <= k,
                    out@.len() == k,
                    forall|t: int| 0 <= t < p ==> !name_before(c@, #[trigger] out@[t]@),
                    here ==> p < k && name_before(c@, out@[p as int]@),
                decreases k - p + (if here { 0int } else { 1int }),
            {
                if listed_before(&c, &out[p]) {
                    here = true;
                } else {
                    p += 1;
                }
            }
            let ghost old_out = out@;
            let ghost cv = c@;
            proof {
                if p < k {
                    lemma_name_before_asymmetric(c@, out@[p as int]@);
                }
            }
            out.insert(p, c);
            proof {
                let vs = out@.map_values(|c: Contact| c@);
                let ovs = old_out.map_values(|c: Contact| c@);
                assert forall|t: int| 0 <= t < vs.len() - 1 implies !name_before(#[trigger] vs[t + 1], vs[t]) by {
                    if t + 1 < p {
                        assert(vs[t] == ovs[t] && vs[t + 1] == ovs[t + 1]);
                    } else if t + 1 == p {
                        assert(vs[t + 1] == cv && vs[t] == ovs[t]);
                        assert(ovs[t] == old_out[t]@);
                    } else if t == p {
                        assert(vs[t] == cv && vs[t + 1] == ovs[t]);
                        assert(ovs[t] == old_out[t]@);
                    } else {
                        assert(vs[t] == ovs[t - 1] && vs[t + 1] == ovs[t]);
                        assert(!name_before(ovs[(t - 1) + 1], ovs[t - 1]));
                    }
                }
                src = src.insert(p as int, k as int);
                pos = pos.map_values(|x: int| if x >= p { x + 1 } else { x }).push(p as int);
                assert forall|t: int| 0 <= t < k + 1 implies 0 <= #[trigger] src[t] < k + 1 && out@[t]@ == self.rows@[src[t]]@ by {
                    if t > p {
                        assert(out@[t] == old_out[t - 1]);
                    } else if t < p {
                        assert(out@[t] == old_out[t]);
                    }
                }
                assert forall|j: int| 0 <= j < k + 1 implies 0 <= #[trigger] pos[j] < k + 1 && out@[pos[j]]@ == self.rows@[j]@ by {
                    if j < k {
                        let q = if pos[j] > p { pos[j] - 1 } else { pos[j] };
                        assert(out@[pos[j]] == old_out[q]);
                    }
                }
            }
            k += 1;
        }
        proof {
            let vs = out@.map_values(|c: Contact| c@);
            assert forall|t: int| 0 <= t < vs.len() implies self@.contains_key((#[trigger] vs[t]).id) && self@[vs[t].id] == vs[t] by {
                let j = src[t];
                assert(vs[t] == out@[t]@ && out@[t]@ == self.rows@[j]@);
                assert(self.model@.contains_key(self.rows@[j].id));
            }
            assert forall|id: ContactId| self@.contains_key(id) implies exists|t: int| 0 <= t < vs.len() && (#[trigger] vs[t]).id == id by {
                let j = choose|j: int| 0 <= j < self.rows@.len() && (#[trigger] self.rows@[j]).id == id;
                assert(vs[pos[j]] == out@[pos[j]]@);
            }
            assert forall|a: int, b: int| 0 <= a < b < vs.len() implies (#[trigger] vs[a]).id != (#[trigger] vs[b]).id by {
                assert(vs[a] == out@[a]@ && vs[b] == out@[b]@);
                let (x, y) = if src[a] < src[b] { (src[a], src[b]) } else { (src[b], src[a]) };
                assert(self.rows@[x].id != self.rows@[y].id);
            }
        }
        out
    }

    /// Carries out `m` on the projection.
    pub fn perform(&mut self, m: Mutation) -> (r: Result<(), StoreError>)
        requires
            old(self).wf(),
        ensures
            final(self).wf(),
            match m@ {
                MutationView::Insert(c) => if old(self)@.contains_key(c.id) {
                    r == Err::<(), StoreError>(StoreError::DuplicateId) && final(self)@ == old(self)@
                } else {
                    r == Ok::<(), StoreError>(()) && final(self)@ == old(self)@.insert(c.id, c)
                },
                MutationView::Update(c) => r == Ok::<(), StoreError>(()) && final(self)@ == updated(old(self)@, c),
                MutationView::Delete(id) => r == Ok::<(), StoreError>(()) && final(self)@ == old(self)@.remove(id),
            },
    {
        match m {
            Mutation::Insert(c) => self.insert(&c),
            Mutation::Update(c) => {
                self.update(&c);
                Ok(())
            },
            Mutation::Delete(id) => {
                self.delete(id);
                Ok(())
            },
        }
    }

    /// Brings the projection in line with `change`: looks the identifier up,
    /// then inserts, updates or deletes.
    pub fn reconcile(&mut self, change: ParsedChange)
        requires
            old(self).wf(),
        ensures
            final(self).wf(),
            final(self)@ == reconciled(old(self)@, change@),
    {
        let id = match &change {
            ParsedChange::Upsert(c) => c.id,
            ParsedChange::Remove(id) => *id,
        };
        let exists = self.position(id).is_some();
        let m = plan_mutation(change, exists);
        let _ = self.perform(m);
    }

    /// Reconciles the projection with a patch batch. An empty batch changes
    /// nothing; a batch that does not parse changes nothing and gives the
    /// parse error.
    pub fn apply_patches(&mut self, patches: Vec<Patch>) -> (r: Result<(), ReconcileError>)
        requires
            old(self).wf(),
        ensures
            final(self).wf(),
            patches@.len() == 0 ==> r == Ok::<(), ReconcileError>(()) && final(self)@ == old(self)@,
            patches@.len() > 0 ==> match parse_spec(patches_view(patches@)) {
                Ok(ch) => r == Ok::<(), ReconcileError>(()) && final(self)@ == reconciled(old(self)@, ch),
                Err(e) => r == Err::<(), ReconcileError>(ReconcileError::Parse(e)) && final(self)@ == old(self)@,
            },
    {
        if patches.len() == 0 {
            return Ok(());
        }
        match parse_patches(&patches) {
            Ok(change) => {
                self.reconcile(change);
                Ok(())
            },
            Err(e) => Err(ReconcileError::Parse(e)),
        }
    }
}

} // verus!
