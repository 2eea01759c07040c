//! The keyspace and the effect of each command on it.

use crate::command::{lrange, lrange_slice_vec, Command, CommandModel, ExpiryUnit};
use crate::strmap::StrMap;
use crate::value::{
    ids_increasing, id_text, kind_name, render, resolve_id, verdict, EntryModel, RedisValue,
    StoredValue, StreamEntry,
};
use crate::wire::{
    array_reply, bulk_array, bulk_reply, bulk_string, error, error_reply, integer, integer_reply,
    null, null_array, null_array_reply, null_reply, simple, simple_reply,
};
use vstd::prelude::*;

verus! {

pub open spec fn wrong_type_reply() -> Seq<char> {
    error_reply("WRONGTYPE Operation against a key holding the wrong kind of value"@)
}

pub open spec fn zero_id_reply() -> Seq<char> {
    error_reply("ERR The ID specified in XADD must be greater than 0-0"@)
}

pub open spec fn stale_id_reply() -> Seq<char> {
    error_reply("ERR The ID specified in XADD is equal or smaller than the target stream top item"@)
}

pub open spec fn bad_id_reply() -> Seq<char> {
    error_reply("ERR Invalid stream ID specified as stream command argument"@)
}

pub open spec fn unknown_reply() -> Seq<char> {
    error_reply("ERR unknown command"@)
}

fn wrong_type() -> (r: String)
    ensures
        r@ == wrong_type_reply(),
{
    error("WRONGTYPE Operation against a key holding the wrong kind of value")
}

/// Every stream held in `db` keeps its ids strictly increasing.
pub open spec fn streams_ordered(db: Map<Seq<char>, StoredValue>) -> bool {
    forall|k: Seq<char>|
        #[trigger] db.contains_key(k) ==> (db[k] matches StoredValue::Stream(es) ==> ids_increasing(
            es,
        ))
}

/// The list held at `k`, if `k` holds a list.
pub open spec fn list_at(db: Map<Seq<char>, StoredValue>, k: Seq<char>) -> Option<Seq<Seq<char>>> {
    if db.contains_key(k) {
        match db[k] {
            StoredValue::List(l) => Some(l),
            _ => None,
        }
    } else {
        None
    }
}

/// `k` holds a value that is not a list.
pub open spec fn holds_other_than_list(db: Map<Seq<char>, StoredValue>, k: Seq<char>) -> bool {
    db.contains_key(k) && !(db[k] is List)
}

/// LPUSH (`front`) or RPUSH of `items` at `k`: the new keyspace and the reply.
pub open spec fn push_result(
    db: Map<Seq<char>, StoredValue>,
    k: Seq<char>,
    items: Seq<Seq<char>>,
    front: bool,
) -> (Map<Seq<char>, StoredValue>, Seq<char>) {
    if holds_other_than_list(db, k) {
        (db, wrong_type_reply())
    } else {
        let old = match list_at(db, k) {
            Some(l) => l,
            None => Seq::empty(),
        };
        let new = if front {
            items.reverse() + old
        } else {
            old + items
        };
        (db.insert(k, StoredValue::List(new)), integer_reply(new.len()))
    }
}

/// LPOP at `k`, with an optional count: the new keyspace and the reply.
pub open spec fn lpop_result(db: Map<Seq<char>, StoredValue>, k: Seq<char>, count: Option<isize>) -> (
    Map<Seq<char>, StoredValue>,
    Seq<char>,
) {
    match list_at(db, k) {
        None => (db, null_reply()),
        Some(l) => match count {
            None => if l.len() == 0 {
                (db, null_reply())
            } else {
                (db.insert(k, StoredValue::List(l.drop_first())), bulk_reply(l[0]))
            },
            Some(c) => if c > l.len() {
                (db, null_reply())
            } else {
                let n = if c < 0 {
                    0
                } else {
                    c as int
                };
                (
                    db.insert(k, StoredValue::List(l.subrange(n, l.len() as int))),
                    array_reply(l.subrange(0, n)),
                )
            },
        },
    }
}

/// Takes the first element of the list at `k`, where there is one.
pub open spec fn pop_front(db: Map<Seq<char>, StoredValue>, k: Seq<char>) -> (
    Map<Seq<char>, StoredValue>,
    Option<Seq<char>>,
) {
    match list_at(db, k) {
        Some(l) => if l.len() > 0 {
            (db.insert(k, StoredValue::List(l.drop_first())), Some(l[0]))
        } else {
            (db, None)
        },
        None => (db, None),
    }
}

/// The entries of the stream at `k`; none where `k` holds nothing.
pub open spec fn stream_at(db: Map<Seq<char>, StoredValue>, k: Seq<char>) -> Seq<EntryModel> {
    if db.contains_key(k) {
        match db[k] {
            StoredValue::Stream(es) => es,
            _ => Seq::empty(),
        }
    } else {
        Seq::empty()
    }
}

/// The id of the last entry of `es`, if any.
pub open spec fn last_entry_id(es: Seq<EntryModel>) -> Option<(u64, u64)> {
    if es.len() > 0 {
        Some((es.last().ms, es.last().seq))
    } else {
        None
    }
}

/// XADD of the raw id `raw` with `fields` at `k`: the new keyspace and the reply.
#[verifier::opaque]
pub open spec fn xadd_result(
    db: Map<Seq<char>, StoredValue>,
    k: Seq<char>,
    raw: Seq<char>,
    fields: Map<Seq<char>, Seq<char>>,
) -> (Map<Seq<char>, StoredValue>, Seq<char>) {
    if db.contains_key(k) && !(db[k] is Stream) {
        (db, wrong_type_reply())
    } else {
        let es = stream_at(db, k);
        let last = last_entry_id(es);
        match resolve_id(raw, last) {
            None => (db, bad_id_reply()),
            Some((ms, seq)) => match verdict(ms, seq, last) {
                None => (db, zero_id_reply()),
                Some(false) => (db, stale_id_reply()),
                Some(true) => {
                    let e = EntryModel { id: id_text(ms, seq), ms, seq, fields };
                    (db.insert(k, StoredValue::Stream(es.push(e))), bulk_reply(id_text(ms, seq)))
                },
            },
        }
    }
}

/// What the caller is to do after a reply.
pub enum Action {
    /// Nothing further.
    Nothing,
    /// Remove the key once the given time has passed, unless it was set
    /// again meanwhile: the last number is the write stamp to hand to
    /// `Keyspace::expire`.
    ExpireAfter(String, ExpiryUnit, u64, u64),
    /// Wait for the list at the key to receive an element, for at most the
    /// given milliseconds (`0` waits for ever); see `Keyspace::blpop_poll`.
    AwaitPush(String, u64),
}

pub enum ActionModel {
    Nothing,
    ExpireAfter(Seq<char>, ExpiryUnit, u64),
    AwaitPush(Seq<char>, u64),
}

impl View for Action {
    type V = ActionModel;

    open spec fn view(&self) -> ActionModel {
        match self {
            Action::Nothing => ActionModel::Nothing,
            Action::ExpireAfter(k, u, a, _) => ActionModel::ExpireAfter(k@, *u, *a),
            Action::AwaitPush(k, t) => ActionModel::AwaitPush(k@, *t),
        }
    }
}

/// A command's reply, and what is to follow it.
pub struct Reply {
    /// The bytes to send; empty where the action is to wait.
    pub response: String,
    pub action: Action,
}

/// The effect of command `c` on keyspace `db`: the new keyspace, the reply,
/// and what is to follow.
pub open spec fn execute(db: Map<Seq<char>, StoredValue>, c: CommandModel) -> (
    Map<Seq<char>, StoredValue>,
    Seq<char>,
    ActionModel,
) {
    match c {
        CommandModel::Ping => (db, simple_reply("PONG"@), ActionModel::Nothing),
        CommandModel::Echo(m) => (db, bulk_reply(m), ActionModel::Nothing),
        CommandModel::Store(k, v) => (
            db.insert(k, StoredValue::Str(v)),
            simple_reply("OK"@),
            ActionModel::Nothing,
        ),
        CommandModel::SetExpiry(k, v, u, a) => (
            db.insert(k, StoredValue::Str(v)),
            simple_reply("OK"@),
            ActionModel::ExpireAfter(k, u, a),
        ),
        CommandModel::Get(k) => (
            db,
            if db.contains_key(k) {
                render(db[k])
            } else {
                null_reply()
            },
            ActionModel::Nothing,
        ),
        CommandModel::Type(k) => (
            db,
            if db.contains_key(k) {
                simple_reply(kind_name(db[k]))
            } else {
                simple_reply("none"@)
            },
            ActionModel::Nothing,
        ),
        CommandModel::LPush(k, items) => {
            let (db2, r) = push_result(db, k, items, true);
            (db2, r, ActionModel::Nothing)
        },
        CommandModel::RPush(k, items) => {
            let (db2, r) = push_result(db, k, items, false);
            (db2, r, ActionModel::Nothing)
        },
        CommandModel::LRange(k, a, b) => (
            db,
            array_reply(
                match list_at(db, k) {
                    Some(l) => lrange(l, a as int, b as int),
                    None => Seq::empty(),
                },
            ),
            ActionModel::Nothing,
        ),
        CommandModel::LLen(k) => (
            db,
            integer_reply(
                match list_at(db, k) {
                    Some(l) => l.len(),
                    None => 0,
                },
            ),
            ActionModel::Nothing,
        ),
        CommandModel::LPop(k, c) => {
            let (db2, r) = lpop_result(db, k, c);
            (db2, r, ActionModel::Nothing)
        },
        CommandModel::BLPop(k, t) => match pop_front(db, k) {
            (db2, Some(e)) => (db2, array_reply(seq![k, e]), ActionModel::Nothing),
            (_, None) => (db, Seq::empty(), ActionModel::AwaitPush(k, t)),
        },
        CommandModel::XAdd(k, raw, fields) => {
            let (db2, r) = xadd_result(db, k, raw, fields);
            (db2, r, ActionModel::Nothing)
        },
        CommandModel::Unknown => (db, unknown_reply(), ActionModel::Nothing),
    }
}

/// The shared mapping from keys to stored values.
pub struct Keyspace {
    values: StrMap<RedisValue>,
    /// The write stamp of each key's last SET.
    stamps: StrMap<u64>,
    /// The stamp of the last SET.
    writes: u64,
}

/// The stamp that the SET after stamp `w` receives.
pub open spec fn next_stamp(w: u64) -> u64 {
    if w < u64::MAX {
        (w + 1) as u64
    } else {
        w
    }
}

/// The key that a command sets, for SET and SET with an expiry.
pub open spec fn set_key(c: CommandModel) -> Option<Seq<char>> {
    match c {
        CommandModel::Store(k, _) => Some(k),
        CommandModel::SetExpiry(k, _, _, _) => Some(k),
        _ => None,
    }
}

impl View for Keyspace {
    type V = Map<Seq<char>, StoredValue>;

    closed spec fn view(&self) -> Map<Seq<char>, StoredValue> {
        self.values@
    }
}

pub(crate) proof fn lemma_insert_ordered(db: Map<Seq<char>, StoredValue>, k: Seq<char>, v: StoredValue)
    requires
        streams_ordered(db),
        v matches StoredValue::Stream(es) ==> ids_increasing(es),
    ensures
        streams_ordered(db.insert(k, v)),
{
    let d = db.insert(k, v);
    assert forall|j: Seq<char>| #[trigger] d.contains_key(j) implies (d[j] matches StoredValue::Stream(
        es,
    ) ==> ids_increasing(es)) by {
        if j != k {
            assert(db.contains_key(j));
        }
    }
}

proof fn lemma_restore(db: Map<Seq<char>, StoredValue>, k: Seq<char>, v: StoredValue)
    requires
        db.contains_key(k),
        db[k] == v,
    ensures
        db.remove(k).insert(k, v) == db,
{
    assert(db.remove(k).insert(k, v) =~= db);
}

/// The strings of `items` in reverse order.
fn reversed(items: &Vec<String>) -> (r: Vec<String>)
    ensures
        r.deep_view() == items.deep_view().reverse(),
{
    let ghost src = items.deep_view();
    let mut out: Vec<String> = Vec::new();
    let mut i: usize = items.len();
    while i > 0
        invariant
            i <= items.len(),
            src == items.deep_view(),
            out.deep_view() == Seq::new(
                (items.len() - i) as nat,
                |j: int| src[items.len() - 1 - j],
            ),
        decreases i,
    {
        let ghost before = out.deep_view();
        out.push(items[i - 1].clone());
        proof {
            assert(out.deep_view() =~= before.push(src[i - 1]));
            assert(out.deep_view() =~= Seq::new(
                (items.len() - (i - 1)) as nat,
                |j: int| src[items.len() - 1 - j],
            ));
        }
        i = i - 1;
    }
    proof {
        assert(out.deep_view() =~= src.reverse());
    }
    out
}

/// Appends the strings of `other` to `v`.
fn append_all(v: &mut Vec<String>, other: Vec<String>)
    ensures
        final(v).deep_view() == old(v).deep_view() + other.deep_view(),
{
    let mut rest = other;
    v.append(&mut rest);
    proof {
        assert(final(v).deep_view() =~= old(v).deep_view() + other.deep_view());
    }
}

impl Keyspace {
    /// Well-formed: the maps are sound, every stream is in id order, and
    /// no stamp is past the last one given out.
    pub closed spec fn wf(&self) -> bool {
        &&& self.values.wf()
        &&& streams_ordered(self@)
        &&& self.stamps.wf()
        &&& forall|k: Seq<char>| #[trigger] self.stamps@.contains_key(k) ==> self.stamps@[k] <= self.writes
    }

    /// The write stamp of each key's last SET.
    pub closed spec fn stamps(&self) -> Map<Seq<char>, u64> {
        self.stamps@
    }

    /// The stamp of the last SET.
    pub closed spec fn writes(&self) -> u64 {
        self.writes
    }

    /// In a well-formed keyspace no key's stamp is past the last one given
    /// out, so the next SET's stamp differs from all of them unless the
    /// stamps have run out.
    pub proof fn lemma_stamps_bounded(&self)
        requires
            self.wf(),
        ensures
            forall|k: Seq<char>| #[trigger] self.stamps().contains_key(k) ==> self.stamps()[k] <= self.writes(),
    {
    }

    /// In a well-formed keyspace every stream holds strictly increasing
    /// ids, none of them `0-0`.
    pub proof fn lemma_streams_ordered(&self)
        requires
            self.wf(),
        ensures
            streams_ordered(self@),
    {
    }

    pub fn new() -> (r: Keyspace)
        ensures
            r.wf(),
            r@ == Map::<Seq<char>, StoredValue>::empty(),
            r.stamps() == Map::<Seq<char>, u64>::empty(),
            r.writes() == 0,
    {
        Keyspace { values: StrMap::new(), stamps: StrMap::new(), writes: 0 }
    }

    /// Holds `v` at `k`, replacing anything there.
    fn put(&mut self, k: String, v: RedisValue)
        requires
            old(self).wf(),
            v@ matches StoredValue::Stream(es) ==> ids_increasing(es),
        ensures
            final(self).wf(),
            final(self)@ == old(self)@.insert(k@, v@),
            final(self).stamps == old(self).stamps,
            final(self).writes == old(self).writes,
    {
        proof {
            lemma_insert_ordered(self@, k@, v@);
        }
        self.values.insert(k, v);
    }

    /// Takes out the value at `k`; the keyspace keeps its stream order.
    fn take(&mut self, k: &String) -> (r: Option<RedisValue>)
        requires
            old(self).wf(),
        ensures
            final(self).values.wf(),
            streams_ordered(old(self)@),
            final(self).stamps == old(self).stamps,
            final(self).writes == old(self).writes,
            final(self)@ == old(self)@.remove(k@),
            match r {
                Some(v) => old(self)@.contains_key(k@) && v@ == old(self)@[k@],
                None => !old(self)@.contains_key(k@),
            },
    {
        self.values.remove(k)
    }

    /// Gives `k` the next write stamp, which it returns.
    fn stamp(&mut self, k: String) -> (r: u64)
        requires
            old(self).wf(),
        ensures
            final(self).wf(),
            final(self)@ == old(self)@,
            r == next_stamp(old(self).writes()),
            final(self).writes() == r,
            final(self).stamps() == old(self).stamps().insert(k@, r),
    {
        if self.writes < u64::MAX {
            self.writes = self.writes + 1;
        }
        self.stamps.insert(k, self.writes);
        self.writes
    }

    /// SET: holds the string `v` at `k` and gives `k` a new stamp.
    fn set_value(&mut self, k: String, v: String) -> (r: u64)
        requires
            old(self).wf(),
        ensures
            final(self).wf(),
            final(self)@ == old(self)@.insert(k@, StoredValue::Str(v@)),
            r == next_stamp(old(self).writes()),
            final(self).writes() == r,
            final(self).stamps() == old(self).stamps().insert(k@, r),
    {
        let key = k.clone();
        self.put(k, RedisValue::String(v));
        self.stamp(key)
    }

    /// The expiry of a key set with stamp `stamp`: removes `k` and what it
    /// holds, unless `k` was set again since (its stamp differs) or is gone.
    pub fn expire(&mut self, k: &String, stamp: u64)
        requires
            old(self).wf(),
        ensures
            final(self).wf(),
            final(self).writes() == old(self).writes(),
            if old(self).stamps().contains_key(k@) && old(self).stamps()[k@] == stamp {
                &&& final(self)@ == old(self)@.remove(k@)
                &&& final(self).stamps() == old(self).stamps().remove(k@)
            } else {
                &&& final(self)@ == old(self)@
                &&& final(self).stamps() == old(self).stamps()
            },
    {
        let current = match self.stamps.get(k) {
            Some(s) => *s == stamp,
            None => false,
        };
        if current {
            let _ = self.values.remove(k);
            let _ = self.stamps.remove(k);
            proof {
                assert forall|j: Seq<char>| #[trigger] self@.contains_key(j) implies (
                self@[j] matches StoredValue::Stream(es) ==> ids_increasing(es)) by {
                    assert(old(self)@.contains_key(j));
                }
                assert forall|j: Seq<char>| #[trigger] self.stamps@.contains_key(j) implies self.stamps@[j]
                    <= self.writes by {
                    assert(old(self).stamps@.contains_key(j));
                }
            }
        }
    }

    /// LPUSH (`front`) or RPUSH of `items` at `k`.
    fn push(&mut self, k: String, items: Vec<String>, front: bool) -> (r: String)
        requires
            old(self).wf(),
        ensures
            final(self).wf(),
            final(self).stamps() == old(self).stamps(),
            final(self).writes() == old(self).writes(),
            (final(self)@, r@) == push_result(old(self)@, k@, items.deep_view(), front),
    {
        let old_list: Vec<String> = match self.take(&k) {
            Some(RedisValue::List(l)) => l,
            Some(other) => {
                proof {
                    lemma_restore(old(self)@, k@, other@);
                }
                self.put(k, other);
                return wrong_type();
            },
            None => Vec::new(),
        };
        let new_list = if front {
            let mut l = reversed(&items);
            append_all(&mut l, old_list);
            l
        } else {
            let mut l = old_list;
            append_all(&mut l, items);
            l
        };
        let n = new_list.len();
        proof {
            assert(self@.insert(k@, StoredValue::List(new_list.deep_view())) =~= old(self)@.insert(
                k@,
                StoredValue::List(new_list.deep_view()),
            ));
        }
        self.put(k, RedisValue::List(new_list));
        integer(n)
    }

    /// LPOP at `k`, with an optional count.
    fn lpop(&mut self, k: &String, count: Option<isize>) -> (r: String)
        requires
            old(self).wf(),
        ensures
            final(self).wf(),
            final(self).stamps() == old(self).stamps(),
            final(self).writes() == old(self).writes(),
            (final(self)@, r@) == lpop_result(old(self)@, k@, count),
    {
        let mut list: Vec<String> = match self.take(k) {
            Some(RedisValue::List(l)) => l,
            Some(other) => {
                proof {
                    lemma_restore(old(self)@, k@, other@);
                }
                self.put(k.clone(), other);
                return null();
            },
            None => {
                return null();
            },
        };
        let ghost l = list.deep_view();
        match count {
            None => {
                if list.len() == 0 {
                    proof {
                        lemma_restore(old(self)@, k@, StoredValue::List(l));
                    }
                    self.put(k.clone(), RedisValue::List(list));
                    null()
                } else {
                    let first = list.remove(0);
                    proof {
                        assert(list.deep_view() =~= l.drop_first());
                        assert(self@.insert(k@, StoredValue::List(l.drop_first())) =~= old(
                            self,
                        )@.insert(k@, StoredValue::List(l.drop_first())));
                    }
                    self.put(k.clone(), RedisValue::List(list));
                    bulk_string(first.as_str())
                }
            },
            Some(c) => {
                if c > 0 && c as usize > list.len() {
                    proof {
                        lemma_restore(old(self)@, k@, StoredValue::List(l));
                    }
                    self.put(k.clone(), RedisValue::List(list));
                    null()
                } else {
                    let n: usize = if c < 0 {
                        0
                    } else {
                        c as usize
                    };
                    let rest = list.split_off(n);
                    proof {
                        assert(list.deep_view() =~= l.subrange(0, n as int));
                        assert(rest.deep_view() =~= l.subrange(n as int, l.len() as int));
                        assert(self@.insert(k@, StoredValue::List(rest.deep_view())) =~= old(
                            self,
                        )@.insert(k@, StoredValue::List(rest.deep_view())));
                    }
                    self.put(k.clone(), RedisValue::List(rest));
                    bulk_array(&list)
                }
            },
        }
    }

    /// One attempt of a blocking pop: takes the first element of the list
    /// at `k` where there is one, and gives the reply `[k, element]`.
    pub fn blpop_poll(&mut self, k: &String) -> (r: Option<String>)
        requires
            old(self).wf(),
        ensures
            final(self).wf(),
            final(self).stamps() == old(self).stamps(),
            final(self).writes() == old(self).writes(),
            final(self)@ == pop_front(old(self)@, k@).0,
            r is Some <==> pop_front(old(self)@, k@).1 is Some,
            r matches Some(s) ==> s@ == array_reply(seq![k@, pop_front(old(self)@, k@).1->0]),
    {
        let mut list: Vec<String> = match self.take(k) {
            Some(RedisValue::List(l)) => l,
            Some(other) => {
                proof {
                    lemma_restore(old(self)@, k@, other@);
                }
                self.put(k.clone(), other);
                return None;
            },
            None => {
                return None;
            },
        };
        let ghost l = list.deep_view();
        if list.len() == 0 {
            proof {
                lemma_restore(old(self)@, k@, StoredValue::List(l));
            }
            self.put(k.clone(), RedisValue::List(list));
            return None;
        }
        let first = list.remove(0);
        proof {
            assert(list.deep_view() =~= l.drop_first());
            assert(self@.insert(k@, StoredValue::List(l.drop_first())) =~= old(self)@.insert(
                k@,
                StoredValue::List(l.drop_first()),
            ));
        }
        self.put(k.clone(), RedisValue::List(list));
        let mut pair: Vec<String> = Vec::new();
        pair.push(k.clone());
        pair.push(first);
        proof {
            assert(pair.deep_view() =~= seq![k@, l[0]]);
        }
        Some(bulk_array(&pair))
    }

    /// XADD of the raw id `id` with `fields` at `k`.
    fn xadd(&mut self, k: String, id: String, fields: StrMap<String>) -> (r: String)
        requires
            old(self).wf(),
        ensures
            final(self).wf(),
            final(self).stamps() == old(self).stamps(),
            final(self).writes() == old(self).writes(),
            (final(self)@, r@) == xadd_result(old(self)@, k@, id@, fields@),
    {
        reveal(xadd_result);
        let ghost es = stream_at(self@, k@);
        let last: Option<&StreamEntry> = match self.values.get(&k) {
            Some(RedisValue::Stream(entries)) => {
                proof {
                    assert(entries@.map_values(|e: StreamEntry| e@) == es);
                }
                if entries.len() > 0 {
                    Some(&entries[entries.len() - 1])
                } else {
                    None
                }
            },
            Some(_) => {
                return wrong_type();
            },
            None => None,
        };
        proof {
            assert(crate::value::last_id(last) == last_entry_id(es));
        }
        let entry = match StreamEntry::from(id, fields, last) {
            Some(e) => e,
            None => {
                return error("ERR Invalid stream ID specified as stream command argument");
            },
        };
        match StreamEntry::validate_entry_id(&entry, last) {
            None => {
                return error("ERR The ID specified in XADD must be greater than 0-0");
            },
            Some(false) => {
                return error(
                    "ERR The ID specified in XADD is equal or smaller than the target stream top item",
                );
            },
            Some(true) => {},
        }
        let reply = bulk_string(entry.id.as_str());
        self.append_entry(k, entry);
        reply
    }

    /// Appends `entry` to the stream at `k`, which holds a stream or nothing.
    fn append_entry(&mut self, k: String, entry: StreamEntry)
        requires
            old(self).wf(),
            !old(self)@.contains_key(k@) || old(self)@[k@] is Stream,
            !(entry.milliseconds_time == 0 && entry.sequence_number == 0),
            last_entry_id(stream_at(old(self)@, k@)) matches Some((ms, seq)) ==> crate::value::id_after(
                entry.milliseconds_time,
                entry.sequence_number,
                ms,
                seq,
            ),
        ensures
            final(self).wf(),
            final(self).stamps() == old(self).stamps(),
            final(self).writes() == old(self).writes(),
            final(self)@ == old(self)@.insert(
                k@,
                StoredValue::Stream(stream_at(old(self)@, k@).push(entry@)),
            ),
    {
        let ghost es = stream_at(self@, k@);
        proof {
            if self@.contains_key(k@) {
                assert(ids_increasing(es));
            }
        }
        let mut entries: Vec<StreamEntry> = match self.take(&k) {
            Some(RedisValue::Stream(v)) => v,
            _ => Vec::new(),
        };
        proof {
            assert(entries@.map_values(|x: StreamEntry| x@) =~= es);
        }
        let ghost e = entry@;
        entries.push(entry);
        proof {
            assert(entries@.map_values(|x: StreamEntry| x@) =~= es.push(e));
            assert(ids_increasing(es.push(e)));
            assert(self@.insert(k@, StoredValue::Stream(es.push(e))) =~= old(self)@.insert(
                k@,
                StoredValue::Stream(es.push(e)),
            ));
        }
        self.put(k, RedisValue::Stream(entries));
    }

    /// GET: the value at `k` rendered, or the null reply.
    fn get_reply(&self, k: &String) -> (r: String)
        requires
            self.wf(),
        ensures
            r@ == (if self@.contains_key(k@) {
                render(self@[k@])
            } else {
                null_reply()
            }),
    {
        match self.values.get(k) {
            Some(v) => v.get_response(),
            None => null(),
        }
    }

    /// TYPE: the name of the kind of value at `k`, or `none`.
    fn type_reply(&self, k: &String) -> (r: String)
        requires
            self.wf(),
        ensures
            r@ == (if self@.contains_key(k@) {
                simple_reply(kind_name(self@[k@]))
            } else {
                simple_reply("none"@)
            }),
    {
        match self.values.get(k) {
            Some(v) => v.get_type_response(),
            None => simple("none"),
        }
    }

    /// LRANGE: the selected elements of the list at `k`; none where `k`
    /// holds no list.
    fn lrange_reply(&self, k: &String, start: isize, stop: isize) -> (r: String)
        requires
            self.wf(),
        ensures
            r@ == array_reply(
                match list_at(self@, k@) {
                    Some(l) => lrange(l, start as int, stop as int),
                    None => Seq::empty(),
                },
            ),
    {
        match self.values.get(k) {
            Some(RedisValue::List(l)) => {
                let part = lrange_slice_vec(l, start, stop);
                bulk_array(&part)
            },
            _ => {
                let none: Vec<String> = Vec::new();
                proof {
                    assert(none.deep_view() =~= Seq::<Seq<char>>::empty());
                }
                bulk_array(&none)
            },
        }
    }

    /// LLEN: the length of the list at `k`; `0` where `k` holds no list.
    fn llen_reply(&self, k: &String) -> (r: String)
        requires
            self.wf(),
        ensures
            r@ == integer_reply(
                match list_at(self@, k@) {
                    Some(l) => l.len(),
                    None => 0,
                },
            ),
    {
        match self.values.get(k) {
            Some(RedisValue::List(l)) => integer(l.len()),
            _ => integer(0),
        }
    }
}

impl Command {
    /// Applies this command to `db`: the reply, and what is to follow it.
    pub fn get_return(self, db: &mut Keyspace) -> (r: Reply)
        requires
            old(db).wf(),
        ensures
            final(db).wf(),
            (final(db)@, r.response@, r.action@) == execute(old(db)@, self@),
            final(db).writes() == (if set_key(self@) is Some {
                next_stamp(old(db).writes())
            } else {
                old(db).writes()
            }),
            final(db).stamps() == (match set_key(self@) {
                Some(k) => old(db).stamps().insert(k, next_stamp(old(db).writes())),
                None => old(db).stamps(),
            }),
            r.action matches Action::ExpireAfter(_, _, _, s) ==> s == final(db).writes(),
    {
        let done = Action::Nothing;
        match self {
            Command::PING => Reply { response: simple("PONG"), action: done },
            Command::ECHO(msg) => Reply { response: bulk_string(msg.as_str()), action: done },
            Command::SET(k, v) => {
                let _ = db.set_value(k, v);
                Reply { response: simple("OK"), action: done }
            },
            Command::SetExpiry(k, v, unit, amount) => {
                let key = k.clone();
                let stamp = db.set_value(k, v);
                Reply {
                    response: simple("OK"),
                    action: Action::ExpireAfter(key, unit, amount, stamp),
                }
            },
            Command::GET(k) => Reply { response: db.get_reply(&k), action: done },
            Command::TYPE(k) => Reply { response: db.type_reply(&k), action: done },
            Command::LPUSH(k, items) => Reply { response: db.push(k, items, true), action: done },
            Command::RPUSH(k, items) => Reply { response: db.push(k, items, false), action: done },
            Command::LRANGE(k, start, stop) => Reply {
                response: db.lrange_reply(&k, start, stop),
                action: done,
            },
            Command::LLEN(k) => Reply { response: db.llen_reply(&k), action: done },
            Command::LPOP(k, count) => Reply { response: db.lpop(&k, count), action: done },
            Command::BLPOP(k, timeout) => match db.blpop_poll(&k) {
                Some(response) => Reply { response, action: done },
                None => Reply { response: String::new(), action: Action::AwaitPush(k, timeout) },
            },
            Command::XADD(k, id, fields) => Reply { response: db.xadd(k, id, fields), action: done },
            Command::UNKNOWN => Reply { response: error("ERR unknown command"), action: done },
        }
    }
}

/// Whether a blocking pop with a timeout of `timeout_ms` milliseconds
/// (`0` for none) has waited long enough after `elapsed_ms`.
pub fn blpop_timed_out(timeout_ms: u64, elapsed_ms: u64) -> (r: bool)
    ensures
        r == (timeout_ms > 0 && elapsed_ms >= timeout_ms),
{
    timeout_ms > 0 && elapsed_ms >= timeout_ms
}

/// The reply of a blocking pop whose time ran out.
pub fn blpop_timeout_response() -> (r: String)
    ensures
        r@ == null_array_reply(),
{
    null_array()
}

} // verus!
