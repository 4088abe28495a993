//! The in-process store: a list of keyed cells plus a clock it owns. Expiry
//! is enforced lazily, on the next read of the key that passed it.

use vstd::prelude::*;
use super::{KeyValueStore, StoreResult};
use crate::decimal;

verus! {

struct Entry {
    key: String,
    value: String,
    expires_at: Option<u64>,
    ttl: u64,
}

/// One stored cell: the value text, the absolute expiry tick if the cell was
/// written with a time-to-live, and the time-to-live it was armed with (zero
/// for a cell that never had one).
pub type Stored = (Seq<char>, Option<u64>, u64);

/// A cell is visible to `get` only while its expiry tick lies ahead; a cell
/// written without one (a counter) is never visible. The largest tick stands
/// for an expiry the clock can never reach.
pub open spec fn alive_at(exp: Option<u64>, t: u64) -> bool {
    match exp {
        Some(e) => e == u64::MAX || e > t,
        None => false,
    }
}

/// A cell whose expiry tick has been reached is expired; a cell without an
/// expiry never is.
pub open spec fn expired_at(exp: Option<u64>, t: u64) -> bool {
    match exp {
        Some(e) => e != u64::MAX && e <= t,
        None => false,
    }
}

spec fn keys_unique(s: Seq<Entry>) -> bool {
    forall|i: int, j: int| 0 <= i < j < s.len() ==> s[i].key@ != s[j].key@
}

/// Every finite expiry tick lies within the armed time-to-live of the clock:
/// a cell armed at some past tick `t` with time-to-live `d` expires at
/// `t + d`, which never exceeds `now + d`.
spec fn lease_within(exp: Option<u64>, ttl: u64, now: u64) -> bool {
    match exp {
        Some(e) => if e == u64::MAX {
            now + ttl >= u64::MAX
        } else {
            e <= now + ttl
        },
        None => true,
    }
}

spec fn leases_bounded(s: Seq<Entry>, now: u64) -> bool {
    forall|i: int| 0 <= i < s.len() ==> lease_within((#[trigger] s[i]).expires_at, s[i].ttl, now)
}

proof fn lemma_bounded_remove(s: Seq<Entry>, now: u64, i: int)
    requires
        leases_bounded(s, now),
        0 <= i < s.len(),
    ensures
        leases_bounded(s.remove(i), now),
{
    let r = s.remove(i);
    assert forall|j: int| 0 <= j < r.len() implies lease_within(
        (#[trigger] r[j]).expires_at,
        r[j].ttl,
        now,
    ) by {
        if j < i {
            assert(r[j] == s[j]);
        } else {
            assert(r[j] == s[j + 1]);
        }
    }
}

proof fn lemma_bounded_push(s: Seq<Entry>, now: u64, e: Entry)
    requires
        leases_bounded(s, now),
        lease_within(e.expires_at, e.ttl, now),
    ensures
        leases_bounded(s.push(e), now),
{
    let s2 = s.push(e);
    assert forall|j: int| 0 <= j < s2.len() implies lease_within(
        (#[trigger] s2[j]).expires_at,
        s2[j].ttl,
        now,
    ) by {
        if j < s.len() {
            assert(s2[j] == s[j]);
        } else {
            assert(s2[j] == e);
        }
    }
}

proof fn lemma_bounded_later(s: Seq<Entry>, now: u64, later: u64)
    requires
        leases_bounded(s, now),
        now <= later,
    ensures
        leases_bounded(s, later),
{
    assert forall|j: int| 0 <= j < s.len() implies lease_within(
        (#[trigger] s[j]).expires_at,
        s[j].ttl,
        later,
    ) by {
        assert(lease_within(s[j].expires_at, s[j].ttl, now));
    }
}

spec fn table_of(s: Seq<Entry>) -> Map<Seq<char>, Stored>
    decreases s.len(),
{
    if s.len() == 0 {
        Map::empty()
    } else {
        table_of(s.drop_last()).insert(
            s.last().key@,
            (s.last().value@, s.last().expires_at, s.last().ttl),
        )
    }
}

/// The `get`-visible view of a table at tick `t`.
pub open spec fn live_from(table: Map<Seq<char>, Stored>, t: u64) -> Map<Seq<char>, Seq<char>> {
    Map::new(
        |k: Seq<char>| table.contains_key(k) && alive_at(table[k].1, t),
        |k: Seq<char>| table[k].0,
    )
}

/// The numeric view of a table at tick `t`: every unexpired cell, read as a
/// decimal `i32`.
pub open spec fn counters_from(table: Map<Seq<char>, Stored>, t: u64) -> Map<Seq<char>, i32> {
    Map::new(
        |k: Seq<char>| table.contains_key(k) && !expired_at(table[k].1, t),
        |k: Seq<char>| decimal::parse_i32_spec(table[k].0),
    )
}

/// The time-to-live view of a table at tick `t`: for every live cell, the
/// time-to-live it was last armed with.
pub open spec fn ttls_from(table: Map<Seq<char>, Stored>, t: u64) -> Map<Seq<char>, u64> {
    Map::new(
        |k: Seq<char>| table.contains_key(k) && alive_at(table[k].1, t),
        |k: Seq<char>| table[k].2,
    )
}

/// Every finite expiry tick of a table lies within the armed time-to-live of
/// the clock: once the clock advances by a live cell's time-to-live, that
/// cell has expired. Every store operation maintains this.
pub open spec fn table_leases_bounded(table: Map<Seq<char>, Stored>, now: u64) -> bool {
    forall|k: Seq<char>|
        #[trigger] table.contains_key(k) ==> match table[k].1 {
            Some(e) => if e == u64::MAX {
                now + table[k].2 >= u64::MAX
            } else {
                e <= now + table[k].2
            },
            None => true,
        }
}

/// What an increment leaves of a cell's lease: a live or never-leased cell
/// keeps its expiry tick and armed time-to-live; an expired or absent one is
/// re-created bare.
pub open spec fn lease_kept(table: Map<Seq<char>, Stored>, k: Seq<char>, t: u64) -> (
    Option<u64>,
    u64,
) {
    if table.contains_key(k) && !expired_at(table[k].1, t) {
        (table[k].1, table[k].2)
    } else {
        (None, 0)
    }
}

proof fn lemma_table_contains(s: Seq<Entry>, k: Seq<char>)
    ensures
        table_of(s).contains_key(k) <==> exists|i: int| 0 <= i < s.len() && s[i].key@ == k,
    decreases s.len(),
{
    if s.len() > 0 {
        lemma_table_contains(s.drop_last(), k);
        if table_of(s).contains_key(k) {
            if s.last().key@ == k {
                assert(s[s.len() - 1].key@ == k);
            } else {
                let i = choose|i: int| 0 <= i < s.drop_last().len() && s.drop_last()[i].key@ == k;
                assert(s[i].key@ == k);
            }
        }
        if exists|i: int| 0 <= i < s.len() && s[i].key@ == k {
            let i = choose|i: int| 0 <= i < s.len() && s[i].key@ == k;
            if i < s.len() - 1 {
                assert(s.drop_last()[i].key@ == k);
            }
        }
    }
}

proof fn lemma_table_index(s: Seq<Entry>, i: int)
    requires
        keys_unique(s),
        0 <= i < s.len(),
    ensures
        table_of(s).contains_key(s[i].key@),
        table_of(s)[s[i].key@] == (s[i].value@, s[i].expires_at, s[i].ttl),
    decreases s.len(),
{
    if i == s.len() - 1 {
        assert(s.last() == s[i]);
    } else {
        assert(keys_unique(s.drop_last()));
        lemma_table_index(s.drop_last(), i);
        assert(s.drop_last()[i] == s[i]);
        assert(s.last().key@ != s[i].key@);
    }
}

proof fn lemma_table_bounded(s: Seq<Entry>, now: u64)
    requires
        keys_unique(s),
        leases_bounded(s, now),
    ensures
        table_leases_bounded(table_of(s), now),
{
    assert forall|k: Seq<char>|
        #[trigger] table_of(s).contains_key(k) implies match table_of(s)[k].1 {
        Some(e) => if e == u64::MAX {
            now + table_of(s)[k].2 >= u64::MAX
        } else {
            e <= now + table_of(s)[k].2
        },
        None => true,
    } by {
        lemma_table_contains(s, k);
        let i = choose|i: int| 0 <= i < s.len() && s[i].key@ == k;
        lemma_table_index(s, i);
    }
}

proof fn lemma_table_push(s: Seq<Entry>, e: Entry)
    ensures
        table_of(s.push(e)) == table_of(s).insert(e.key@, (e.value@, e.expires_at, e.ttl)),
{
    assert(s.push(e).drop_last() =~= s);
    assert(s.push(e).last() == e);
}

proof fn lemma_unique_push(s: Seq<Entry>, e: Entry)
    requires
        keys_unique(s),
        forall|i: int| 0 <= i < s.len() ==> (#[trigger] s[i].key@) != e.key@,
    ensures
        keys_unique(s.push(e)),
{
    let s2 = s.push(e);
    assert forall|i: int, j: int| 0 <= i < j < s2.len() implies s2[i].key@ != s2[j].key@ by {
        if j < s.len() {
            assert(s2[i] == s[i] && s2[j] == s[j]);
        } else {
            assert(s2[j] == e && s2[i] == s[i]);
        }
    }
}

proof fn lemma_table_remove(s: Seq<Entry>, i: int)
    requires
        keys_unique(s),
        0 <= i < s.len(),
    ensures
        table_of(s.remove(i)) == table_of(s).remove(s[i].key@),
        keys_unique(s.remove(i)),
        forall|j: int|
            0 <= j < s.remove(i).len() ==> (#[trigger] s.remove(i)[j].key@) != s[i].key@,
    decreases s.len(),
{
    let k = s[i].key@;
    let r = s.remove(i);
    assert forall|j: int| 0 <= j < r.len() implies r[j].key@ != k by {
        if j < i {
            assert(r[j] == s[j]);
        } else {
            assert(r[j] == s[j + 1]);
        }
    }
    assert forall|a: int, b: int| 0 <= a < b < r.len() implies r[a].key@ != r[b].key@ by {
        let a0 = if a < i {
            a
        } else {
            a + 1
        };
        let b0 = if b < i {
            b
        } else {
            b + 1
        };
        assert(r[a] == s[a0] && r[b] == s[b0]);
    }
    if i == s.len() - 1 {
        assert(r =~= s.drop_last());
        lemma_table_contains(s.drop_last(), k);
        assert(!table_of(s.drop_last()).contains_key(k)) by {
            if exists|j: int| 0 <= j < s.drop_last().len() && s.drop_last()[j].key@ == k {
                let j = choose|j: int| 0 <= j < s.drop_last().len() && s.drop_last()[j].key@ == k;
                assert(s[j].key@ == k && j < i);
            }
        }
        assert(table_of(s.remove(i)) =~= table_of(s).remove(k));
    } else {
        assert(keys_unique(s.drop_last()));
        lemma_table_remove(s.drop_last(), i);
        assert(r.drop_last() =~= s.drop_last().remove(i));
        assert(r.last() == s.last());
        assert(s.drop_last()[i] == s[i]);
        let lk = s.last().key@;
        let lp = (s.last().value@, s.last().expires_at, s.last().ttl);
        assert(table_of(r) == table_of(s.drop_last().remove(i)).insert(lk, lp));
        assert(lk != k);
        assert(table_of(s.drop_last()).remove(k).insert(lk, lp) =~= table_of(s.drop_last()).insert(
            lk,
            lp,
        ).remove(k));
    }
}

fn find_idx(entries: &Vec<Entry>, key: &str) -> (r: Option<usize>)
    ensures
        match r {
            Some(i) => i < entries@.len() && entries@[i as int].key@ == key@,
            None => forall|j: int| 0 <= j < entries@.len() ==> (#[trigger] entries@[j].key@)
                != key@,
        },
{
    let k: String = key.to_owned();
    let n = entries.len();
    let mut i: usize = 0;
    while i < n
        invariant
            n == entries@.len(),
            i <= n,
            k@ == key@,
            forall|j: int| 0 <= j < i ==> (#[trigger] entries@[j].key@) != key@,
        decreases n - i,
    {
        if entries[i].key == k {
            return Some(i);
        }
        i += 1;
    }
    None
}

/// The in-process map-backed store, for tests and single-process use. It owns
/// its clock: ticks pass only through `advance`, so tests control expiry.
/// Exclusive access — every operation takes `&mut self` — is its single-writer
/// discipline; nothing is shared across instances.
pub struct InMemory {
    entries: Vec<Entry>,
    now: u64,
}

impl InMemory {
    #[verifier::type_invariant]
    spec fn wf(&self) -> bool {
        keys_unique(self.entries@) && leases_bounded(self.entries@, self.now)
    }

    /// Everything the store holds: per key, the value text and expiry tick.
    pub closed spec fn table(&self) -> Map<Seq<char>, Stored> {
        table_of(self.entries@)
    }

    /// The store's current clock tick.
    pub closed spec fn now_spec(&self) -> u64 {
        self.now
    }

    pub fn new() -> (s: InMemory)
        ensures
            s.table() == Map::<Seq<char>, Stored>::empty(),
            s.now_spec() == 0,
            table_leases_bounded(s.table(), s.now_spec()),
    {
        let s = InMemory { entries: Vec::new(), now: 0 };
        proof {
            assert(s.table() =~= Map::<Seq<char>, Stored>::empty());
        }
        s
    }

    /// Moves the clock forward. Nothing is touched but the clock, so any cell
    /// whose expiry tick is reached drops out of the live view by itself.
    pub fn advance(&mut self, ticks: u64)
        ensures
            final(self).table() == old(self).table(),
            final(self).now_spec() == old(self).now_spec().saturating_add(ticks),
            table_leases_bounded(old(self).table(), old(self).now_spec()),
            table_leases_bounded(final(self).table(), final(self).now_spec()),
    {
        proof {
            use_type_invariant(&*self);
            lemma_table_bounded(self.entries@, self.now);
            lemma_bounded_later(self.entries@, self.now, self.now.saturating_add(ticks));
            lemma_table_bounded(self.entries@, self.now.saturating_add(ticks));
        }
        self.now = self.now.saturating_add(ticks);
    }

}

impl KeyValueStore for InMemory {
    open spec fn live(&self) -> Map<Seq<char>, Seq<char>> {
        live_from(self.table(), self.now_spec())
    }

    open spec fn counters(&self) -> Map<Seq<char>, i32> {
        counters_from(self.table(), self.now_spec())
    }

    open spec fn ttls(&self) -> Map<Seq<char>, u64> {
        ttls_from(self.table(), self.now_spec())
    }

    open spec fn infallible(&self) -> bool {
        true
    }

    fn get(&mut self, key: &str) -> (r: StoreResult<Option<String>>)
        ensures
            r is Ok,
            final(self).now_spec() == old(self).now_spec(),
            final(self).table() == old(self).table() || {
                &&& old(self).table().contains_key(key@)
                &&& expired_at(old(self).table()[key@].1, old(self).now_spec())
                &&& final(self).table() == old(self).table().remove(key@)
            },
    {
        proof {
            use_type_invariant(&*self);
        }
        match find_idx(&self.entries, key) {
            None => {
                proof {
                    lemma_table_contains(self.entries@, key@);
                }
                Ok(None)
            },
            Some(i) => {
                proof {
                    lemma_table_index(self.entries@, i as int);
                }
                let exp = self.entries[i].expires_at;
                match exp {
                    None => Ok(None),
                    Some(e) => {
                        if e == u64::MAX || e > self.now {
                            let v = self.entries[i].value.clone();
                            Ok(Some(v))
                        } else {
                            let ghost tab = self.table();
                            let ghost t = self.now;
                            proof {
                                lemma_table_remove(self.entries@, i as int);
                                lemma_bounded_remove(self.entries@, self.now, i as int);
                            }
                            let mut entries: Vec<Entry> = Vec::new();
                            std::mem::swap(&mut entries, &mut self.entries);
                            entries.remove(i);
                            self.entries = entries;
                            proof {
                                assert(live_from(tab.remove(key@), t) =~= live_from(tab, t));
                                assert(counters_from(tab.remove(key@), t) =~= counters_from(
                                    tab,
                                    t,
                                ));
                                assert(ttls_from(tab.remove(key@), t) =~= ttls_from(tab, t));
                            }
                            Ok(None)
                        }
                    },
                }
            },
        }
    }

    fn set(&mut self, key: &str, value: &str, expires: u64) -> (r: StoreResult<()>)
        ensures
            r is Ok,
            final(self).now_spec() == old(self).now_spec(),
            final(self).table() == old(self).table().insert(
                key@,
                (value@, Some(old(self).now_spec().saturating_add(expires)), expires),
            ),
    {
        proof {
            use_type_invariant(&*self);
        }
        let ghost tab = self.table();
        let ghost t = self.now;
        let exp = self.now.saturating_add(expires);
        let idx = find_idx(&self.entries, key);
        let mut entries: Vec<Entry> = Vec::new();
        std::mem::swap(&mut entries, &mut self.entries);
        match idx {
            Some(i) => {
                proof {
                    lemma_table_remove(entries@, i as int);
                    lemma_bounded_remove(entries@, t, i as int);
                }
                entries.remove(i);
            },
            None => {
                proof {
                    lemma_table_contains(entries@, key@);
                }
            },
        }
        let e = Entry {
            key: key.to_owned(),
            value: value.to_owned(),
            expires_at: Some(exp),
            ttl: expires,
        };
        proof {
            lemma_unique_push(entries@, e);
            lemma_table_push(entries@, e);
            lemma_bounded_push(entries@, t, e);
        }
        entries.push(e);
        self.entries = entries;
        proof {
            assert(self.table() =~= tab.insert(key@, (value@, Some(exp), expires)));
            assert(alive_at(Some(exp), t));
            assert(live_from(self.table(), t) =~= live_from(tab, t).insert(key@, value@));
            assert(counters_from(self.table(), t) =~= counters_from(tab, t).insert(
                key@,
                decimal::parse_i32_spec(value@),
            ));
            assert(ttls_from(self.table(), t) =~= ttls_from(tab, t).insert(key@, expires));
        }
        Ok(())
    }

    fn incr_by(&mut self, key: &str, delta: i32) -> (r: StoreResult<i32>)
        ensures
            r is Ok,
            final(self).now_spec() == old(self).now_spec(),
            match r {
                Ok(n) => final(self).table() == old(self).table().insert(
                    key@,
                    (
                        decimal::i32_rep(n),
                        lease_kept(old(self).table(), key@, old(self).now_spec()).0,
                        lease_kept(old(self).table(), key@, old(self).now_spec()).1,
                    ),
                ),
                Err(_) => true,
            },
    {
        proof {
            use_type_invariant(&*self);
        }
        let ghost tab = self.table();
        let ghost t = self.now;
        match find_idx(&self.entries, key) {
            None => {
                proof {
                    lemma_table_contains(self.entries@, key@);
                    assert(!counters_from(tab, t).contains_key(key@));
                    assert(!live_from(tab, t).contains_key(key@));
                }
                let val = decimal::i32_to_string(0);
                let e = Entry { key: key.to_owned(), value: val, expires_at: None, ttl: 0 };
                let mut entries: Vec<Entry> = Vec::new();
                std::mem::swap(&mut entries, &mut self.entries);
                proof {
                    lemma_unique_push(entries@, e);
                    lemma_table_push(entries@, e);
                    lemma_bounded_push(entries@, t, e);
                }
                entries.push(e);
                self.entries = entries;
                proof {
                    decimal::lemma_parse_of_rep(0);
                    assert(self.table() =~= tab.insert(key@, (decimal::i32_rep(0i32), None, 0u64)));
                    assert(counters_from(self.table(), t) =~= counters_from(tab, t).insert(
                        key@,
                        0i32,
                    ));
                    assert(live_from(self.table(), t) =~= live_from(tab, t));
                    assert(ttls_from(self.table(), t) =~= ttls_from(tab, t));
                }
                Ok(0)
            },
            Some(i) => {
                proof {
                    lemma_table_index(self.entries@, i as int);
                }
                let exp = self.entries[i].expires_at;
                let expired = match exp {
                    Some(e) => e != u64::MAX && e <= self.now,
                    None => false,
                };
                if expired {
                    proof {
                        lemma_table_remove(self.entries@, i as int);
                        assert(!counters_from(tab, t).contains_key(key@));
                        assert(!live_from(tab, t).contains_key(key@));
                    }
                    proof {
                        lemma_bounded_remove(self.entries@, t, i as int);
                    }
                    let mut entries: Vec<Entry> = Vec::new();
                    std::mem::swap(&mut entries, &mut self.entries);
                    entries.remove(i);
                    let val = decimal::i32_to_string(0);
                    let e = Entry { key: key.to_owned(), value: val, expires_at: None, ttl: 0 };
                    proof {
                        lemma_unique_push(entries@, e);
                        lemma_table_push(entries@, e);
                        lemma_bounded_push(entries@, t, e);
                    }
                    entries.push(e);
                    self.entries = entries;
                    proof {
                        decimal::lemma_parse_of_rep(0);
                        assert(self.table() =~= tab.insert(
                            key@,
                            (decimal::i32_rep(0i32), None, 0u64),
                        ));
                        assert(counters_from(self.table(), t) =~= counters_from(tab, t).insert(
                            key@,
                            0i32,
                        ));
                        assert(live_from(self.table(), t) =~= live_from(tab, t));
                        assert(ttls_from(self.table(), t) =~= ttls_from(tab, t));
                    }
                    Ok(0)
                } else {
                    let cur = decimal::parse_i32(self.entries[i].value.as_str());
                    let n = cur.wrapping_add(delta);
                    let val = decimal::i32_to_string(n);
                    let kept_ttl = self.entries[i].ttl;
                    proof {
                        assert(counters_from(tab, t).contains_key(key@));
                        assert(counters_from(tab, t)[key@] == cur);
                        lemma_table_remove(self.entries@, i as int);
                    }
                    proof {
                        lemma_bounded_remove(self.entries@, t, i as int);
                    }
                    let mut entries: Vec<Entry> = Vec::new();
                    std::mem::swap(&mut entries, &mut self.entries);
                    entries.remove(i);
                    let e = Entry { key: key.to_owned(), value: val, expires_at: exp, ttl: kept_ttl };
                    proof {
                        lemma_unique_push(entries@, e);
                        lemma_table_push(entries@, e);
                        lemma_bounded_push(entries@, t, e);
                    }
                    entries.push(e);
                    self.entries = entries;
                    proof {
                        decimal::lemma_parse_of_rep(n);
                        assert(self.table() =~= tab.insert(
                            key@,
                            (decimal::i32_rep(n), exp, kept_ttl),
                        ));
                        assert(counters_from(self.table(), t) =~= counters_from(tab, t).insert(
                            key@,
                            n,
                        ));
                        if live_from(tab, t).contains_key(key@) {
                            assert(live_from(self.table(), t) =~= live_from(tab, t).insert(
                                key@,
                                decimal::i32_rep(n),
                            ));
                        } else {
                            assert(live_from(self.table(), t) =~= live_from(tab, t));
                        }
                        assert(ttls_from(self.table(), t) =~= ttls_from(tab, t));
                    }
                    Ok(n)
                }
            },
        }
    }
}

} // verus!
