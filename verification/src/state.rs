//! The persistent store adapter: a typed, ordered key-value namespace.
//!
//! The store holds three logical collections — a single `Config` record, the
//! single `EntrySequence` counter, and the `Group` collection keyed by
//! ascending id. Loads of absent records fail with
//! [`ContractError::NotFound`]; the group collection supports ordered saves
//! (insert or replace, keyed by id) and ascending range scans with an
//! exclusive lower-bound cursor and a record cap.
//!
//! Every operation takes the store handle explicitly, so independent
//! namespaces can coexist. Mutating operations take the handle exclusively
//! (`&mut Store`), so a transition — reading the counter, advancing it, and
//! writing the new record — is one indivisible step to every other caller;
//! queries borrow the store shared and may run alongside each other.

use vstd::prelude::*;

use crate::error::ContractError;

verus! {

/// A group record: a unique sequential id, a name, and a token amount.
/// Immutable once created — no operation updates or deletes it.
#[derive(Debug, PartialEq, Eq)]
pub struct Group {
    pub id: u64,
    pub group_name: String,
    pub token_amount: u128,
}

/// The mathematical value of a [`Group`] record.
pub struct GroupView {
    pub id: u64,
    pub group_name: Seq<char>,
    pub token_amount: u128,
}

impl View for Group {
    type V = GroupView;

    open spec fn view(&self) -> GroupView {
        GroupView { id: self.id, group_name: self.group_name@, token_amount: self.token_amount }
    }
}

/// The configuration singleton: the one address authorized to create groups,
/// fixed at initialization.
#[derive(Debug, PartialEq, Eq)]
pub struct Config {
    pub owner: String,
}

/// The mathematical value of the whole store: the stored owner (if the config
/// record exists), the counter (if written), and the group records in key
/// order.
pub struct StoreView {
    pub config: Option<Seq<char>>,
    pub entry_seq: Option<u64>,
    pub groups: Seq<GroupView>,
}

/// The record values of a sequence of group records.
pub open spec fn views(s: Seq<Group>) -> Seq<GroupView> {
    s.map_values(|g: Group| g@)
}

/// Group records in strictly ascending id order — the order a range scan
/// observes, and the shape every store operation preserves.
pub open spec fn sorted_by_id(s: Seq<GroupView>) -> bool {
    forall|i: int, j: int| 0 <= i < j < s.len() ==> s[i].id < s[j].id
}

/// Whether some record in `s` carries the key `id`.
pub open spec fn has_group(s: Seq<GroupView>, id: u64) -> bool {
    exists|i: int| 0 <= i < s.len() && s[i].id == id
}

/// The record in `s` carrying the key `id`.
pub open spec fn group_with_id(s: Seq<GroupView>, id: u64) -> GroupView
    recommends
        has_group(s, id),
{
    s[choose|i: int| 0 <= i < s.len() && s[i].id == id]
}

/// The collection after an ordered save of `g`: records with smaller ids stay
/// in front, a record carrying the same id is replaced, the rest stay behind.
pub open spec fn saved(s: Seq<GroupView>, g: GroupView) -> Seq<GroupView>
    decreases s.len(),
{
    if s.len() == 0 {
        seq![g]
    } else if g.id < s[0].id {
        seq![g] + s
    } else if g.id == s[0].id {
        seq![g] + s.drop_first()
    } else {
        seq![s[0]] + saved(s.drop_first(), g)
    }
}

/// Whether a record lies strictly after the (exclusive) cursor; an absent
/// cursor admits every record.
pub open spec fn after_cursor(g: GroupView, start_after: Option<u64>) -> bool {
    match start_after {
        Some(k) => g.id > k,
        None => true,
    }
}

/// The cursor test as a predicate on records.
pub open spec fn cursor_pred(start_after: Option<u64>) -> spec_fn(GroupView) -> bool {
    |g: GroupView| after_cursor(g, start_after)
}

/// The records of `s` lying strictly after the cursor, in order.
pub open spec fn matching(s: Seq<GroupView>, start_after: Option<u64>) -> Seq<GroupView> {
    s.filter(cursor_pred(start_after))
}

/// One page of a range scan: the records after the cursor, capped at `limit`.
pub open spec fn page(s: Seq<GroupView>, start_after: Option<u64>, limit: int) -> Seq<GroupView> {
    let f = matching(s, start_after);
    if f.len() <= limit {
        f
    } else {
        f.take(limit)
    }
}

/// The persistent store: one namespace holding the config singleton, the
/// entry-sequence counter, and the group collection in ascending id order.
pub struct Store {
    config: Option<Config>,
    entry_seq: Option<u64>,
    groups: Vec<Group>,
}

impl View for Store {
    type V = StoreView;

    closed spec fn view(&self) -> StoreView {
        StoreView {
            config: match self.config {
                Some(c) => Some(c.owner@),
                None => None,
            },
            entry_seq: self.entry_seq,
            groups: views(self.groups@),
        }
    }
}

impl Store {
    /// Well-formedness: the group records sit in strictly ascending id order,
    /// as the keyed collection stores them. Established by [`Store::new`] and
    /// preserved by every operation.
    pub open spec fn wf(self) -> bool {
        sorted_by_id(self@.groups)
    }

    /// A fresh, empty namespace: no config, no counter, no groups.
    pub fn new() -> (s: Store)
        ensures
            s.wf(),
            s@.config is None,
            s@.entry_seq is None,
            s@.groups == Seq::<GroupView>::empty(),
    {
        let s = Store { config: None, entry_seq: None, groups: Vec::new() };
        proof {
            assert(s@.groups =~= Seq::<GroupView>::empty());
        }
        s
    }

    /// Saves the config singleton, creating or overwriting it.
    pub fn save_config(&mut self, config: Config)
        ensures
            final(self)@.config == Some(config.owner@),
            final(self)@.entry_seq == old(self)@.entry_seq,
            final(self)@.groups == old(self)@.groups,
    {
        self.config = Some(config);
    }

    /// Loads the config singleton; fails `NotFound` when it was never saved.
    pub fn load_config(&self) -> (r: Result<Config, ContractError>)
        ensures
            match r {
                Ok(c) => self@.config == Some(c.owner@),
                Err(e) => e == ContractError::NotFound && self@.config is None,
            },
    {
        match &self.config {
            Some(c) => Ok(Config { owner: c.owner.clone() }),
            None => Err(ContractError::NotFound),
        }
    }

    /// Saves the entry-sequence counter, creating or overwriting it.
    pub fn save_entry_seq(&mut self, value: u64)
        ensures
            final(self)@.entry_seq == Some(value),
            final(self)@.config == old(self)@.config,
            final(self)@.groups == old(self)@.groups,
    {
        self.entry_seq = Some(value);
    }

    /// Loads the entry-sequence counter; fails `NotFound` when it was never
    /// saved (the namespace was not initialized).
    pub fn load_entry_seq(&self) -> (r: Result<u64, ContractError>)
        ensures
            match r {
                Ok(v) => self@.entry_seq == Some(v),
                Err(e) => e == ContractError::NotFound && self@.entry_seq is None,
            },
    {
        match self.entry_seq {
            Some(v) => Ok(v),
            None => Err(ContractError::NotFound),
        }
    }

    /// Saves a group record keyed by its id: inserted at its place in the
    /// ascending order, or replacing the record already carrying that id.
    pub fn save_group(&mut self, group: Group)
        requires
            old(self).wf(),
        ensures
            final(self).wf(),
            final(self)@.groups == saved(old(self)@.groups, group@),
            final(self)@.config == old(self)@.config,
            final(self)@.entry_seq == old(self)@.entry_seq,
    {
        let ghost s0 = views(self.groups@);
        let mut i: usize = 0;
        while i < self.groups.len() && self.groups[i].id < group.id
            invariant
                *self == *old(self),
                i <= self.groups@.len(),
                forall|k: int| 0 <= k < i ==> views(self.groups@)[k].id < group@.id,
            decreases self.groups@.len() - i,
    {
            i = i + 1;
        }
        let replace = i < self.groups.len() && self.groups[i].id == group.id;
        proof {
            lemma_saved_split(s0, group@, i as int);
        }
        if replace {
            self.groups.remove(i);
            self.groups.insert(i, group);
            proof {
                assert(views(self.groups@) =~= s0.take(i as int) + seq![group@] + s0.skip(
                    i as int + 1,
                ));
            }
        } else {
            self.groups.insert(i, group);
            proof {
                assert(views(self.groups@) =~= s0.take(i as int) + seq![group@] + s0.skip(
                    i as int,
                ));
            }
        }
        proof {
            let gv = group@;
            let s1 = views(self.groups@);
            let j: int = if replace {
                i as int + 1
            } else {
                i as int
            };
            assert(s1 == saved(s0, gv));
            assert(s1 =~= s0.take(i as int) + seq![gv] + s0.skip(j));
            // Every id before the landing position is smaller, every id after
            // it larger, so the ascending order is preserved.
            assert forall|k: int| j <= k < s0.len() implies s0[k].id > gv.id by {
                if replace {
                    assert(s0[i as int].id == gv.id);
                    assert(s0[i as int].id < s0[k].id);
                } else {
                    assert(s0[i as int].id > gv.id);
                    if k > i {
                        assert(s0[i as int].id < s0[k].id);
                    }
                }
            }
            assert forall|a: int, b: int| 0 <= a < b < s1.len() implies s1[a].id < s1[b].id by {
                if a < i {
                    assert(s1[a] == s0[a]);
                }
                if a > i {
                    assert(s1[a] == s0[a - i - 1 + j]);
                }
                if b < i {
                    assert(s1[b] == s0[b]);
                }
                if b > i {
                    assert(s1[b] == s0[b - i - 1 + j]);
                }
            }
        }
    }

    /// Loads the group record keyed by `id`; fails `NotFound` when no record
    /// carries that id.
    pub fn load_group(&self, id: u64) -> (r: Result<Group, ContractError>)
        requires
            self.wf(),
        ensures
            match r {
                Ok(g) => has_group(self@.groups, id) && g@ == group_with_id(self@.groups, id),
                Err(e) => e == ContractError::NotFound && !has_group(self@.groups, id),
            },
    {
        let mut i: usize = 0;
        while i < self.groups.len()
            invariant
                self.wf(),
                i <= self.groups@.len(),
                forall|k: int| 0 <= k < i ==> views(self.groups@)[k].id != id,
            decreases self.groups@.len() - i,
        {
            if self.groups[i].id == id {
                let g = &self.groups[i];
                let found = Group {
                    id: g.id,
                    group_name: g.group_name.clone(),
                    token_amount: g.token_amount,
                };
                proof {
                    let s = self@.groups;
                    assert(s[i as int] == self.groups@[i as int]@);
                    assert(s[i as int].id == id);
                    assert(has_group(s, id));
                    let k = choose|k: int| 0 <= k < s.len() && s[k].id == id;
                    if k < i {
                        assert(s[k].id < s[i as int].id);
                    } else if k > i {
                        assert(s[i as int].id < s[k].id);
                    }
                    assert(found@ == group_with_id(s, id));
                }
                return Ok(found);
            }
            i = i + 1;
        }
        Err(ContractError::NotFound)
    }

    /// One ascending range scan: the group records lying strictly after the
    /// cursor, in id order, capped at `limit` records.
    pub fn list_after(&self, start_after: Option<u64>, limit: usize) -> (r: Vec<Group>)
        requires
            self.wf(),
        ensures
            views(r@) == page(self@.groups, start_after, limit as int),
    {
        let ghost s = self@.groups;
        let ghost pred = cursor_pred(start_after);
        let mut out: Vec<Group> = Vec::new();
        let mut i: usize = 0;
        while i < self.groups.len() && out.len() < limit
            invariant
                i <= self.groups@.len(),
                s == views(self.groups@),
                pred == cursor_pred(start_after),
                out@.len() <= limit,
                views(out@) == s.take(i as int).filter(pred),
            decreases self.groups@.len() - i,
        {
            let g = &self.groups[i];
            let matches_cursor = match start_after {
                Some(k) => g.id > k,
                None => true,
            };
            proof {
                assert(s.take(i as int + 1) =~= s.take(i as int).push(s[i as int]));
                s.take(i as int).lemma_filter_push(s[i as int], pred);
            }
            proof {
                assert(pred(s[i as int]) == matches_cursor);
            }
            if matches_cursor {
                let kept = Group {
                    id: g.id,
                    group_name: g.group_name.clone(),
                    token_amount: g.token_amount,
                };
                proof {
                    assert(kept@ == s[i as int]);
                }
                out.push(kept);
            }
            proof {
                assert(views(out@) =~= s.take(i as int + 1).filter(pred));
            }
            i = i + 1;
        }
        proof {
            let f = matching(s, start_after);
            if i == self.groups@.len() {
                assert(s.take(i as int) =~= s);
                assert(views(out@) == f);
                assert(views(out@) =~= page(s, start_after, limit as int));
            } else {
                assert(out@.len() == limit);
                s.take(i as int).lemma_filter_monotone(s, pred);
                assert(s.take(i as int).is_prefix_of(s));
                assert(s.take(i as int).filter(pred) =~= f.take(limit as int));
                assert(views(out@) =~= page(s, start_after, limit as int));
            }
        }
        out
    }
}

/// Relates the recursive [`saved`] to its split form: if every record before
/// position `i` has a smaller id and the record at `i` (if any) does not, the
/// save lands exactly at position `i`.
proof fn lemma_saved_split(s: Seq<GroupView>, g: GroupView, i: int)
    requires
        sorted_by_id(s),
        0 <= i <= s.len(),
        forall|k: int| 0 <= k < i ==> s[k].id < g.id,
        i < s.len() ==> s[i].id >= g.id,
    ensures
        i < s.len() && s[i].id == g.id ==> saved(s, g) == s.take(i) + seq![g] + s.skip(i + 1),
        !(i < s.len() && s[i].id == g.id) ==> saved(s, g) == s.take(i) + seq![g] + s.skip(i),
    decreases s.len(),
{
    if s.len() == 0 {
        assert(saved(s, g) =~= s.take(0) + seq![g] + s.skip(0));
    } else if i == 0 {
        if s[0].id == g.id {
            assert(saved(s, g) =~= s.take(0) + seq![g] + s.skip(1));
        } else {
            assert(g.id < s[0].id);
            assert(saved(s, g) =~= s.take(0) + seq![g] + s.skip(0));
        }
    } else {
        let t = s.drop_first();
        assert(s[0].id < g.id);
        assert(saved(s, g) == seq![s[0]] + saved(t, g));
        assert forall|a: int, b: int| 0 <= a < b < t.len() implies t[a].id < t[b].id by {
            assert(t[a] == s[a + 1]);
            assert(t[b] == s[b + 1]);
        }
        assert forall|k: int| 0 <= k < i - 1 implies t[k].id < g.id by {
            assert(t[k] == s[k + 1]);
        }
        lemma_saved_split(t, g, i - 1);
        if i < s.len() && s[i].id == g.id {
            assert(t[i - 1] == s[i]);
            assert(saved(t, g) == t.take(i - 1) + seq![g] + t.skip(i));
            assert(saved(s, g) =~= s.take(i) + seq![g] + s.skip(i + 1));
        } else {
            assert(saved(t, g) == t.take(i - 1) + seq![g] + t.skip(i - 1));
            assert(saved(s, g) =~= s.take(i) + seq![g] + s.skip(i));
        }
    }
}

/// The ids `1..=n`, in order, exactly: the shape of the group collection after
/// `n` successful creations in a namespace initialized with counter zero.
pub open spec fn ids_complete(s: Seq<GroupView>, n: u64) -> bool {
    s.len() == n && forall|i: int| 0 <= i < s.len() ==> s[i].id == i + 1
}

/// An ordered save of a record whose id is larger than every stored id
/// appends it.
proof fn lemma_saved_append(s: Seq<GroupView>, g: GroupView)
    requires
        forall|i: int| 0 <= i < s.len() ==> s[i].id < g.id,
    ensures
        saved(s, g) == s.push(g),
    decreases s.len(),
{
    if s.len() == 0 {
        assert(saved(s, g) =~= s.push(g));
    } else {
        let t = s.drop_first();
        assert forall|k: int| 0 <= k < t.len() implies t[k].id < g.id by {
            assert(t[k] == s[k + 1]);
        }
        lemma_saved_append(t, g);
        assert(saved(s, g) =~= s.push(g));
    }
}

/// Law: created ids start at 1 and increase by one. If the stored records
/// carry exactly the ids `1..=n` and the next record carries id `n + 1`, the
/// ordered save appends it — whatever name and amount it carries — and the
/// stored ids are then exactly `1..=n + 1`.
pub proof fn lemma_sequential_ids(s: Seq<GroupView>, n: u64, g: GroupView)
    requires
        ids_complete(s, n),
        n < u64::MAX,
        g.id == n + 1,
    ensures
        saved(s, g) == s.push(g),
        ids_complete(saved(s, g), (n + 1) as u64),
{
    lemma_saved_append(s, g);
}

/// Law: a page never holds more records than its limit.
pub proof fn lemma_page_bounded(s: Seq<GroupView>, start_after: Option<u64>, limit: int)
    requires
        limit >= 0,
    ensures
        page(s, start_after, limit).len() <= limit,
{
}

/// Law: every record of a page with cursor `k` carries an id strictly greater
/// than `k`.
pub proof fn lemma_page_after_cursor(s: Seq<GroupView>, k: u64, limit: int)
    requires
        limit >= 0,
    ensures
        forall|i: int|
            0 <= i < page(s, Some(k), limit).len() ==> page(s, Some(k), limit)[i].id > k,
{
    let f = matching(s, Some(k));
    assert forall|i: int| 0 <= i < page(s, Some(k), limit).len() implies page(
        s,
        Some(k),
        limit,
    )[i].id > k by {
        assert(page(s, Some(k), limit)[i] == f[i]);
        s.lemma_filter_pred(cursor_pred(Some(k)), i);
        assert(cursor_pred(Some(k))(f[i]));
    }
}

/// With no cursor, the scan keeps every record.
proof fn lemma_matching_all(s: Seq<GroupView>)
    ensures
        matching(s, None) == s,
    decreases s.len(),
{
    reveal(Seq::filter);
    if s.len() == 0 {
        assert(matching(s, None) =~= s);
    } else {
        lemma_matching_all(s.drop_last());
        assert(cursor_pred(None)(s.last()));
        assert(matching(s, None) =~= s);
    }
}

/// Law: with no cursor and a limit at least the collection's size, the page
/// is the whole collection.
pub proof fn lemma_page_complete(s: Seq<GroupView>, limit: int)
    requires
        limit >= s.len(),
    ensures
        page(s, None, limit) == s,
{
    lemma_matching_all(s);
}

/// The records the scan keeps sit in ascending id order, and none carries an
/// id above the last stored one.
proof fn lemma_matching_sorted(s: Seq<GroupView>, start_after: Option<u64>)
    requires
        sorted_by_id(s),
    ensures
        sorted_by_id(matching(s, start_after)),
        forall|i: int|
            0 <= i < matching(s, start_after).len() ==> s.len() > 0 && (#[trigger] matching(
                s,
                start_after,
            )[i]).id <= s.last().id,
    decreases s.len(),
{
    reveal(Seq::filter);
    if s.len() == 0 {
    } else {
        let t = s.drop_last();
        let x = s.last();
        assert forall|a: int, b: int| 0 <= a < b < t.len() implies t[a].id < t[b].id by {
            assert(t[a] == s[a]);
            assert(t[b] == s[b]);
        }
        lemma_matching_sorted(t, start_after);
        let m = matching(s, start_after);
        let mt = matching(t, start_after);
        t.lemma_filter_len(cursor_pred(start_after));
        if cursor_pred(start_after)(x) {
            assert(m == mt.push(x));
            assert forall|i: int| 0 <= i < m.len() implies (m[i]).id <= s.last().id by {
                if i < mt.len() {
                    assert(m[i] == mt[i]);
                    assert(t.last() == s[s.len() - 2]);
                    assert(mt[i].id <= t.last().id);
                } else {
                    assert(m[i] == x);
                }
            }
            assert forall|a: int, b: int| 0 <= a < b < m.len() implies m[a].id < m[b].id by {
                if b < mt.len() {
                    assert(m[a] == mt[a]);
                    assert(m[b] == mt[b]);
                } else {
                    assert(m[b] == x);
                    assert(m[a] == mt[a]);
                    assert(t.last() == s[s.len() - 2]);
                    assert(mt[a].id <= t.last().id);
                    assert(t.last().id < x.id);
                }
            }
        } else {
            assert(m == mt);
            assert forall|i: int| 0 <= i < m.len() implies (m[i]).id <= s.last().id by {
                assert(m[i] == mt[i]);
                assert(t.last() == s[s.len() - 2]);
                assert(mt[i].id <= t.last().id);
                assert(t.last().id < x.id);
            }
        }
    }
}

/// Law: a page of a well-formed collection is itself in strictly ascending id
/// order.
pub proof fn lemma_page_sorted(s: Seq<GroupView>, start_after: Option<u64>, limit: int)
    requires
        sorted_by_id(s),
        limit >= 0,
    ensures
        sorted_by_id(page(s, start_after, limit)),
{
    lemma_matching_sorted(s, start_after);
    let f = matching(s, start_after);
    let p = page(s, start_after, limit);
    assert forall|a: int, b: int| 0 <= a < b < p.len() implies p[a].id < p[b].id by {
        assert(p[a] == f[a]);
        assert(p[b] == f[b]);
    }
}

} // verus!
