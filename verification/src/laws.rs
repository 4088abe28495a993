//! What the exchange promises, written out and proved over the relations its
//! contracts are stated with.

use vstd::prelude::*;
use crate::decimal;
use crate::exchange::{
    create_ok_rel, cursor_key, gen_conflict_rel, lemma_vocab_not_cursor, slot_of, vocab,
    CODE_EXPIRY,
};
use crate::key_value_store::in_memory::{
    expired_at, live_from, table_leases_bounded, ttls_from, InMemory, Stored,
};
use crate::key_value_store::{KeyValueStore, live_after_incr, next_counter};

verus! {

/// Round trip: a message filed by a successful `create` is exactly what the
/// live view holds under the allocated code word — so a `find` of that word
/// returns the message — and the word is leased for the standing expiry.
pub proof fn lemma_round_trip(
    l0: Map<Seq<char>, Seq<char>>,
    c0: Map<Seq<char>, i32>,
    t0: Map<Seq<char>, u64>,
    l1: Map<Seq<char>, Seq<char>>,
    c1: Map<Seq<char>, i32>,
    t1: Map<Seq<char>, u64>,
    message: Seq<char>,
    code: Seq<char>,
)
    requires
        create_ok_rel(l0, c0, t0, l1, c1, t1, message, code),
    ensures
        l1.contains_key(code),
        l1[code] == message,
        t1.contains_key(code),
        t1[code] == CODE_EXPIRY,
{
}

/// A fresh store has nothing live, no counters, no leases, and never fails.
pub proof fn lemma_fresh_store_views(s: InMemory)
    requires
        s.table() == Map::<Seq<char>, Stored>::empty(),
    ensures
        s.live() == Map::<Seq<char>, Seq<char>>::empty(),
        s.counters() == Map::<Seq<char>, i32>::empty(),
        s.ttls() == Map::<Seq<char>, u64>::empty(),
        s.infallible(),
{
    assert(s.live() =~= Map::<Seq<char>, Seq<char>>::empty());
    assert(s.counters() =~= Map::<Seq<char>, i32>::empty());
    assert(s.ttls() =~= Map::<Seq<char>, u64>::empty());
}

/// Capacity boundary, for the vocabulary of two words: from a fresh store,
/// two `create` calls succeed with the two code words in cursor order, and a
/// third attempt cannot succeed — the slot its cursor reading selects is
/// occupied, which is exactly the conflicted case.
pub proof fn lemma_capacity_boundary(
    l1: Map<Seq<char>, Seq<char>>,
    c1: Map<Seq<char>, i32>,
    t1: Map<Seq<char>, u64>,
    m1: Seq<char>,
    code1: Seq<char>,
    l2: Map<Seq<char>, Seq<char>>,
    c2: Map<Seq<char>, i32>,
    t2: Map<Seq<char>, u64>,
    m2: Seq<char>,
    code2: Seq<char>,
)
    requires
        create_ok_rel(
            Map::<Seq<char>, Seq<char>>::empty(),
            Map::<Seq<char>, i32>::empty(),
            Map::<Seq<char>, u64>::empty(),
            l1,
            c1,
            t1,
            m1,
            code1,
        ),
        create_ok_rel(l1, c1, t1, l2, c2, t2, m2, code2),
    ensures
        code1 == vocab()[0],
        code2 == vocab()[1],
        code1 != code2,
        l2.contains_key(vocab()[slot_of(next_counter(c2, cursor_key(), 1))]),
        forall|
            l3: Map<Seq<char>, Seq<char>>,
            c3: Map<Seq<char>, i32>,
            t3: Map<Seq<char>, u64>,
            m3: Seq<char>,
            code3: Seq<char>,
        | !create_ok_rel(l2, c2, t2, l3, c3, t3, m3, code3),
{
    lemma_vocab_not_cursor();
    reveal_strlit("hello");
    reveal_strlit("goodbye");
    let ck = cursor_key();
    let e_l = Map::<Seq<char>, Seq<char>>::empty();
    let e_c = Map::<Seq<char>, i32>::empty();
    let n1 = next_counter(e_c, ck, 1);
    assert(n1 == 0);
    assert(slot_of(0i32) == 0);
    assert(code1 == vocab()[0]);
    assert(l1 == e_l.insert(code1, m1));
    let n2 = next_counter(c1, ck, 1);
    assert(c1[ck] == 0);
    assert(n2 == 1);
    assert(slot_of(1i32) == 1);
    assert(code2 == vocab()[1]);
    assert(code1 != code2) by {
        assert(vocab()[0].len() == 5);
        assert(vocab()[1].len() == 7);
    }
    assert(!l1.contains_key(ck));
    assert(l2 == l1.insert(code2, m2));
    let n3 = next_counter(c2, ck, 1);
    assert(c2[ck] == 1);
    assert(n3 == 2);
    assert(slot_of(2i32) == 0);
    assert(l2.contains_key(vocab()[0]));
    assert forall|
        l3: Map<Seq<char>, Seq<char>>,
        c3: Map<Seq<char>, i32>,
        t3: Map<Seq<char>, u64>,
        m3: Seq<char>,
        code3: Seq<char>,
    | !create_ok_rel(l2, c2, t2, l3, c3, t3, m3, code3) by {
        if create_ok_rel(l2, c2, t2, l3, c3, t3, m3, code3) {
            assert(code3 == vocab()[0]);
            assert(!l2.contains_key(code3));
        }
    }
}

/// Rollback on conflict: when the probed candidate is occupied, the failed
/// attempt's increment and its compensating decrement cancel, so the counters
/// are exactly as before and the next allocation reads the same cursor value
/// the failed one did. This needs the store to carry the cursor already, as
/// it does after any earlier allocation attempt; on a store without the
/// cursor a conflict leaves it one below zero.
pub proof fn lemma_conflict_rolls_back(
    l0: Map<Seq<char>, Seq<char>>,
    c0: Map<Seq<char>, i32>,
    t0: Map<Seq<char>, u64>,
    l1: Map<Seq<char>, Seq<char>>,
    c1: Map<Seq<char>, i32>,
    t1: Map<Seq<char>, u64>,
)
    requires
        gen_conflict_rel(l0, c0, t0, l1, c1, t1),
        c0.contains_key(cursor_key()),
    ensures
        c1 == c0,
        t1 == t0,
        next_counter(c1, cursor_key(), 1) == next_counter(c0, cursor_key(), 1),
{
    let ck = cursor_key();
    let n = next_counter(c0, ck, 1);
    let m = next_counter(c0.insert(ck, n), ck, -1i32);
    assert(m == c0[ck]);
    assert(c1 =~= c0);
}

/// Expiry reclaim, the store side: once the clock reaches a cell's expiry
/// tick, its key has dropped out of the live view.
pub proof fn lemma_expiry_frees_key(table: Map<Seq<char>, Stored>, t0: u64, t1: u64, k: Seq<char>)
    requires
        live_from(table, t0).contains_key(k),
        expired_at(table[k].1, t1),
    ensures
        !live_from(table, t1).contains_key(k),
{
}

/// Expiry reclaim, end to end on the in-process store: a key live under a
/// lease the clock can still reach is no longer live once the clock has moved
/// at least the armed time-to-live onward — as after `advance`, which keeps
/// the table and hands out exactly this lease bound.
pub proof fn lemma_advance_reclaims(
    table: Map<Seq<char>, Stored>,
    now1: u64,
    now2: u64,
    k: Seq<char>,
)
    requires
        table_leases_bounded(table, now1),
        live_from(table, now1).contains_key(k),
        now1 + ttls_from(table, now1)[k] < u64::MAX,
        now2 >= now1 + ttls_from(table, now1)[k],
    ensures
        !live_from(table, now2).contains_key(k),
{
    assert(ttls_from(table, now1)[k] == table[k].2);
    assert(expired_at(table[k].1, now2));
    lemma_expiry_frees_key(table, now1, now2, k);
}

/// Expiry reclaim, the exchange side: as soon as the word the cursor's slot
/// names is free — as it is once its assignment expired — a `create` can
/// succeed again, reusing exactly that word: the successful-create relation
/// holds of the freed store.
pub proof fn lemma_free_slot_allocatable(
    l: Map<Seq<char>, Seq<char>>,
    c: Map<Seq<char>, i32>,
    t: Map<Seq<char>, u64>,
    message: Seq<char>,
)
    requires
        !l.contains_key(vocab()[slot_of(next_counter(c, cursor_key(), 1))]),
    ensures
        ({
            let n = next_counter(c, cursor_key(), 1);
            let code = vocab()[slot_of(n)];
            create_ok_rel(
                l,
                c,
                t,
                live_after_incr(l, cursor_key(), n).insert(code, message),
                c.insert(cursor_key(), n).insert(code, decimal::parse_i32_spec(message)),
                t.insert(code, CODE_EXPIRY),
                message,
                code,
            )
        }),
{
}

} // verus!
