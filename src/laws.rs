//! Laws that relate commands to one another, stated over `execute`.

use crate::command::{lrange, parse_words, CommandModel, ExpiryUnit};
use crate::keyspace::{
    execute, last_entry_id, next_stamp, lemma_insert_ordered, list_at, lpop_result, push_result, stream_at,
    stale_id_reply, streams_ordered, wrong_type_reply, xadd_result, zero_id_reply, ActionModel,
    bad_id_reply,
};
use crate::text::{lemma_first_index, u64_of_text, upper_of};
use crate::value::{
    id_after, id_text, ids_increasing, resolve_id, verdict, EntryModel, StoredValue,
};
use crate::wire::{array_reply, bulk_reply, null_reply};
use vstd::prelude::*;

verus! {

/// Requests whose names upper-case alike and whose arguments agree name
/// the same command with the same arguments; the arguments are kept as
/// written.
pub proof fn names_alike_parse_alike(w1: Seq<Seq<char>>, w2: Seq<Seq<char>>)
    requires
        w1.len() > 0,
        w1.len() == w2.len(),
        upper_of(w1[0]) == upper_of(w2[0]),
        w1.drop_first() == w2.drop_first(),
    ensures
        parse_words(w1) == parse_words(w2),
{
    assert forall|i: int| 1 <= i < w1.len() implies w1[i] == w2[i] by {
        assert(w1[i] == w1.drop_first()[i - 1]);
    }
    if w1.len() >= 3 {
        assert(w1.subrange(2, w1.len() as int) =~= w2.subrange(2, w2.len() as int));
    }
    if w1.len() >= 5 {
        assert(w1.subrange(3, w1.len() as int) =~= w2.subrange(3, w2.len() as int));
    }
}

/// After SET of `v` at `k`, GET of `k` shows `v` as a bulk string, whatever
/// `k` held before.
pub proof fn set_then_get(db: Map<Seq<char>, StoredValue>, k: Seq<char>, v: Seq<char>)
    ensures
        execute(execute(db, CommandModel::Store(k, v)).0, CommandModel::Get(k)).1 == bulk_reply(v),
{
}

/// LRANGE selects nothing where the start lies at or past the end, or after
/// the stop. A start at or after zero with a negative stop is left out
/// unless the stop, counted from the end, falls before the start.
pub proof fn lrange_empty<T>(s: Seq<T>, start: int, stop: int)
    requires
        start >= s.len() || (start > stop && !(0 <= start && stop < 0 && start <= s.len() + stop)),
    ensures
        lrange(s, start, stop).len() == 0,
{
}

/// On an absent key, LPUSH of `items` followed by LRANGE `0 -1` shows the
/// items reversed; RPUSH shows them in order.
pub proof fn push_then_full_range(
    db: Map<Seq<char>, StoredValue>,
    k: Seq<char>,
    items: Seq<Seq<char>>,
)
    requires
        !db.contains_key(k),
    ensures
        execute(execute(db, CommandModel::LPush(k, items)).0, CommandModel::LRange(k, 0isize, -1isize)).1
            == array_reply(items.reverse()),
        execute(execute(db, CommandModel::RPush(k, items)).0, CommandModel::LRange(k, 0isize, -1isize)).1
            == array_reply(items),
{
    assert(items.reverse() + Seq::<Seq<char>>::empty() == items.reverse());
    assert(Seq::<Seq<char>>::empty() + items == items);
    lemma_full_range(items.reverse());
    lemma_full_range(items);
}

proof fn lemma_full_range<T>(s: Seq<T>)
    ensures
        lrange(s, 0, -1) == s,
{
    if s.len() == 0 {
        assert(lrange(s, 0, -1) =~= s);
    } else {
        assert(s.subrange(0, s.len() as int) == s);
    }
}

/// LPOP without a count takes exactly the first element and shows it.
pub proof fn lpop_takes_front(
    db: Map<Seq<char>, StoredValue>,
    k: Seq<char>,
    l: Seq<Seq<char>>,
)
    requires
        list_at(db, k) == Some(l),
        l.len() > 0,
    ensures
        lpop_result(db, k, None) == (db.insert(k, StoredValue::List(l.drop_first())), bulk_reply(
            l[0],
        )),
{
}

/// LPOP with a count `n` takes the first `n` elements and shows them, and
/// fails with the null reply, changing nothing, where `n` exceeds the length.
pub proof fn lpop_takes_count(
    db: Map<Seq<char>, StoredValue>,
    k: Seq<char>,
    l: Seq<Seq<char>>,
    n: isize,
)
    requires
        list_at(db, k) == Some(l),
    ensures
        n > l.len() ==> lpop_result(db, k, Some(n)) == (db, null_reply()),
        0 <= n <= l.len() ==> lpop_result(db, k, Some(n)) == (
            db.insert(k, StoredValue::List(l.subrange(n as int, l.len() as int))),
            array_reply(l.subrange(0, n as int)),
        ),
{
}

/// XADD keeps every stream in strictly increasing id order, with no `0-0`.
pub proof fn xadd_keeps_order(
    db: Map<Seq<char>, StoredValue>,
    k: Seq<char>,
    raw: Seq<char>,
    fields: Map<Seq<char>, Seq<char>>,
)
    requires
        streams_ordered(db),
    ensures
        streams_ordered(xadd_result(db, k, raw, fields).0),
{
    reveal(xadd_result);
    if !(db.contains_key(k) && !(db[k] is Stream)) {
        let es = stream_at(db, k);
        if db.contains_key(k) {
            assert(ids_increasing(es));
        }
        let last = last_entry_id(es);
        if resolve_id(raw, last) is Some {
            let (ms, seq) = resolve_id(raw, last)->0;
            if verdict(ms, seq, last) == Some(true) {
                let e = EntryModel { id: id_text(ms, seq), ms, seq, fields };
                assert(ids_increasing(es.push(e)));
                lemma_insert_ordered(db, k, StoredValue::Stream(es.push(e)));
            }
        }
    }
}

/// The outcome of XADD on a key that holds a stream or nothing: where the
/// resolved id is not `0-0` and comes after the stream's last id, the entry
/// is appended and the stream stays strictly increasing; otherwise the
/// reply is an error and nothing changes.
pub proof fn xadd_outcome(
    db: Map<Seq<char>, StoredValue>,
    k: Seq<char>,
    raw: Seq<char>,
    fields: Map<Seq<char>, Seq<char>>,
)
    requires
        streams_ordered(db),
        !db.contains_key(k) || db[k] is Stream,
    ensures
        ({
            let es = stream_at(db, k);
            let (db2, r) = xadd_result(db, k, raw, fields);
            match resolve_id(raw, last_entry_id(es)) {
                Some((ms, seq)) => if !(ms == 0 && seq == 0) && (es.len() == 0 || id_after(
                    ms,
                    seq,
                    es.last().ms,
                    es.last().seq,
                )) {
                    let e = EntryModel { id: id_text(ms, seq), ms, seq, fields };
                    &&& db2 == db.insert(k, StoredValue::Stream(es.push(e)))
                    &&& ids_increasing(es.push(e))
                    &&& r == bulk_reply(id_text(ms, seq))
                } else {
                    &&& db2 == db
                    &&& (r == zero_id_reply() || r == stale_id_reply())
                },
                None => db2 == db && r == bad_id_reply(),
            }
        }),
{
    reveal(xadd_result);
    let es = stream_at(db, k);
    if db.contains_key(k) {
        assert(ids_increasing(es));
    }
}

/// An id that comes to `0-0` is refused, and nothing changes; on an empty
/// stream as on any other.
pub proof fn xadd_refuses_zero(
    db: Map<Seq<char>, StoredValue>,
    k: Seq<char>,
    raw: Seq<char>,
    fields: Map<Seq<char>, Seq<char>>,
)
    requires
        !db.contains_key(k) || db[k] is Stream,
        resolve_id(raw, last_entry_id(stream_at(db, k))) == Some((0u64, 0u64)),
    ensures
        xadd_result(db, k, raw, fields) == (db, zero_id_reply()),
{
    reveal(xadd_result);
}

/// `<ms>-*` after an entry with the same `ms` takes the next sequence number.
pub proof fn xadd_wildcard_follows(
    db: Map<Seq<char>, StoredValue>,
    k: Seq<char>,
    ms_text: Seq<char>,
    ms: u64,
    seq: u64,
    fields: Map<Seq<char>, Seq<char>>,
)
    requires
        db.contains_key(k),
        db[k] is Stream,
        last_entry_id(stream_at(db, k)) == Some((ms, seq)),
        seq < u64::MAX,
        u64_of_text(ms_text) == Some(ms),
        !ms_text.contains('-'),
    ensures
        xadd_result(db, k, ms_text + seq!['-', '*'], fields) == ({
            let next = (seq + 1) as u64;
            let e = EntryModel { id: id_text(ms, next), ms, seq: next, fields };
            (
                db.insert(k, StoredValue::Stream(stream_at(db, k).push(e))),
                bulk_reply(id_text(ms, next)),
            )
        }),
{
    reveal(xadd_result);
    reveal(resolve_id);
    let raw = ms_text + seq!['-', '*'];
    assert(raw == ms_text + seq!['-'] + seq!['*']);
    lemma_first_index(raw, '-', ms_text, seq!['*']);
}

/// LPUSH or RPUSH at a key that holds no list fails with WRONGTYPE and
/// leaves the keyspace as it was.
pub proof fn push_wrong_type_keeps(
    db: Map<Seq<char>, StoredValue>,
    k: Seq<char>,
    items: Seq<Seq<char>>,
    front: bool,
)
    requires
        db.contains_key(k),
        !(db[k] is List),
    ensures
        push_result(db, k, items, front) == (db, wrong_type_reply()),
{
}

/// BLPOP on a non-empty list answers at once with the key and the first
/// element, which leaves the list.
pub proof fn blpop_ready(
    db: Map<Seq<char>, StoredValue>,
    k: Seq<char>,
    timeout: u64,
    l: Seq<Seq<char>>,
)
    requires
        list_at(db, k) == Some(l),
        l.len() > 0,
    ensures
        execute(db, CommandModel::BLPop(k, timeout)) == (
            db.insert(k, StoredValue::List(l.drop_first())),
            array_reply(seq![k, l[0]]),
            ActionModel::Nothing,
        ),
{
}

/// A SET after one whose expiry is pending gives the key a newer stamp, so
/// that expiry (see `Keyspace::expire`) leaves the newer value in place;
/// this holds while stamps last, and no stamp of a well-formed keyspace is
/// past the last one given out (see `Keyspace::lemma_stamps_bounded`).
pub proof fn newer_set_outlives_expiry(pending: u64, last: u64)
    requires
        pending <= last < u64::MAX,
    ensures
        next_stamp(last) != pending,
{
}

/// SET with an expiry holds the value at once and asks for the key's
/// removal after the given time; that removal leaves the key absent.
pub proof fn set_expiry_then_expire(
    db: Map<Seq<char>, StoredValue>,
    k: Seq<char>,
    v: Seq<char>,
    unit: ExpiryUnit,
    amount: u64,
)
    ensures
        ({
            let (db2, _, action) = execute(db, CommandModel::SetExpiry(k, v, unit, amount));
            &&& db2.contains_key(k)
            &&& db2[k] == StoredValue::Str(v)
            &&& action == ActionModel::ExpireAfter(k, unit, amount)
            &&& !db2.remove(k).contains_key(k)
        }),
{
}

} // verus!
