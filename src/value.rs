//! Stored values, stream entries, and how each is rendered on the wire.

use crate::strmap::{flatten, StrMap};
use crate::text::{
    decimal, decimal_of, first_index, lemma_first_index, parse_u64, split_once_at, u64_of_text,
};
use crate::wire::{
    array_reply, bulk_array, bulk_reply, bulk_string, null, null_reply, simple, simple_reply,
};
use vstd::prelude::*;

verus! {

/// What a stream entry denotes.
pub struct EntryModel {
    pub id: Seq<char>,
    pub ms: u64,
    pub seq: u64,
    pub fields: Map<Seq<char>, Seq<char>>,
}

/// What a stored value denotes.
pub enum StoredValue {
    Str(Seq<char>),
    List(Seq<Seq<char>>),
    Hash(Seq<(Seq<char>, Seq<char>)>),
    Stream(Seq<EntryModel>),
}

/// One record of a stream, identified by `(milliseconds_time, sequence_number)`.
pub struct StreamEntry {
    pub id: String,
    pub milliseconds_time: u64,
    pub sequence_number: u64,
    pub fields: StrMap<String>,
}

impl View for StreamEntry {
    type V = EntryModel;

    open spec fn view(&self) -> EntryModel {
        EntryModel {
            id: self.id@,
            ms: self.milliseconds_time,
            seq: self.sequence_number,
            fields: self.fields@,
        }
    }
}

/// The value held at a key.
pub enum RedisValue {
    String(String),
    List(Vec<String>),
    Hash(StrMap<String>),
    Stream(Vec<StreamEntry>),
}

impl View for RedisValue {
    type V = StoredValue;

    open spec fn view(&self) -> StoredValue {
        match self {
            RedisValue::String(s) => StoredValue::Str(s@),
            RedisValue::List(l) => StoredValue::List(l.deep_view()),
            RedisValue::Hash(h) => StoredValue::Hash(h.pairs()),
            RedisValue::Stream(es) => StoredValue::Stream(es@.map_values(|e: StreamEntry| e@)),
        }
    }
}

/// `(ms, seq)` comes strictly after `(last_ms, last_seq)`.
pub open spec fn id_after(ms: u64, seq: u64, last_ms: u64, last_seq: u64) -> bool {
    ms > last_ms || (ms == last_ms && seq > last_seq)
}

/// The entries are in strictly increasing id order, and none has id `0-0`.
pub open spec fn ids_increasing(es: Seq<EntryModel>) -> bool {
    &&& forall|i: int| 0 <= i < es.len() ==> !(#[trigger] es[i].ms == 0 && es[i].seq == 0)
    &&& forall|i: int|
        0 < i < es.len() ==> id_after(
            #[trigger] es[i].ms,
            es[i].seq,
            es[i - 1].ms,
            es[i - 1].seq,
        )
}

/// The reply that shows a value.
pub open spec fn render(v: StoredValue) -> Seq<char> {
    match v {
        StoredValue::Str(s) => bulk_reply(s),
        StoredValue::List(items) => array_reply(items),
        StoredValue::Hash(pairs) => array_reply(flatten(pairs)),
        StoredValue::Stream(_) => simple_reply("stream"@),
    }
}

/// The name of a value's kind.
pub open spec fn kind_name(v: StoredValue) -> Seq<char> {
    match v {
        StoredValue::Str(_) => "string"@,
        StoredValue::List(_) => "list"@,
        StoredValue::Hash(_) => "hash"@,
        StoredValue::Stream(_) => "stream"@,
    }
}

/// The `(ms, seq)` that the raw id `raw` stands for, given the stream's last
/// id: `<ms>-<seq>`, or `<ms>-*` for the next free sequence number of `ms`.
/// `None` where the text is malformed or no sequence number is left.
#[verifier::opaque]
pub open spec fn resolve_id(raw: Seq<char>, last: Option<(u64, u64)>) -> Option<(u64, u64)> {
    if !raw.contains('-') {
        None
    } else {
        let i = first_index(raw, '-');
        let ms_text = raw.subrange(0, i);
        let seq_text = raw.subrange(i + 1, raw.len() as int);
        match u64_of_text(ms_text) {
            None => None,
            Some(ms) => if seq_text == seq!['*'] {
                match last {
                    Some((last_ms, last_seq)) if last_ms == ms => if last_seq < u64::MAX {
                        Some((ms, (last_seq + 1) as u64))
                    } else {
                        None
                    },
                    _ => if ms == 0 {
                        Some((ms, 1u64))
                    } else {
                        Some((ms, 0u64))
                    },
                }
            } else {
                match u64_of_text(seq_text) {
                    Some(seq) => Some((ms, seq)),
                    None => None,
                }
            },
        }
    }
}

/// The canonical text of an id: `<ms>-<seq>`.
pub open spec fn id_text(ms: u64, seq: u64) -> Seq<char> {
    decimal_of(ms as nat) + seq!['-'] + decimal_of(seq as nat)
}

/// Whether id `(ms, seq)` may follow a stream whose last id is `last`:
/// `None` for `0-0`, which is never accepted; `Some(false)` where it is not
/// after `last`; `Some(true)` where it may be appended.
pub open spec fn verdict(ms: u64, seq: u64, last: Option<(u64, u64)>) -> Option<bool> {
    if ms == 0 && seq == 0 {
        None
    } else {
        match last {
            Some((last_ms, last_seq)) => Some(id_after(ms, seq, last_ms, last_seq)),
            None => Some(true),
        }
    }
}

/// The last entry's id, if there is one.
pub open spec fn last_id(old: Option<&StreamEntry>) -> Option<(u64, u64)> {
    match old {
        Some(e) => Some((e.milliseconds_time, e.sequence_number)),
        None => None,
    }
}

impl StreamEntry {
    /// Whether `new` may follow `old` in a stream (see `verdict`).
    pub fn validate_entry_id(new: &StreamEntry, old: Option<&StreamEntry>) -> (r: Option<bool>)
        ensures
            r == verdict(new.milliseconds_time, new.sequence_number, last_id(old)),
    {
        if new.milliseconds_time == 0 && new.sequence_number == 0 {
            return None;
        }
        match old {
            Some(o) => {
                if o.milliseconds_time > new.milliseconds_time {
                    Some(false)
                } else if o.milliseconds_time == new.milliseconds_time {
                    Some(o.sequence_number < new.sequence_number)
                } else {
                    Some(true)
                }
            },
            None => Some(true),
        }
    }

    /// Builds the entry that the raw id `id` stands for after `old`, with
    /// its id written out in full; `None` where the id is malformed.
    pub fn from(id: String, fields: StrMap<String>, old: Option<&StreamEntry>) -> (r: Option<
        StreamEntry,
    >)
        ensures
            r is None <==> resolve_id(id@, last_id(old)) is None,
            r matches Some(e) ==> {
                &&& resolve_id(id@, last_id(old)) == Some((e.milliseconds_time, e.sequence_number))
                &&& e.id@ == id_text(e.milliseconds_time, e.sequence_number)
                &&& e.fields == fields
            },
    {
        reveal(resolve_id);
        let (ms_text, seq_text) = match split_once_at(id.as_str(), '-') {
            Some(parts) => parts,
            None => {
                return None;
            },
        };
        proof {
            lemma_first_index(id@, '-', ms_text@, seq_text@);
        }
        let ms = match parse_u64(ms_text) {
            Some(v) => v,
            None => {
                return None;
            },
        };
        let wildcard = seq_text.unicode_len() == 1 && seq_text.get_char(0) == '*';
        proof {
            if wildcard {
                assert(seq_text@ == seq!['*']);
            }
        }
        let seq = if wildcard {
            match old {
                Some(o) if o.milliseconds_time == ms => {
                    if o.sequence_number == u64::MAX {
                        return None;
                    }
                    o.sequence_number + 1
                },
                _ => if ms == 0 {
                    1
                } else {
                    0
                },
            }
        } else {
            match parse_u64(seq_text) {
                Some(v) => v,
                None => {
                    return None;
                },
            }
        };
        let mut text = decimal(ms);
        proof {
            reveal_strlit("-");
        }
        text.append("-");
        let seq_digits = decimal(seq);
        text.append(seq_digits.as_str());
        Some(StreamEntry { id: text, milliseconds_time: ms, sequence_number: seq, fields })
    }
}

impl RedisValue {
    pub fn from_string(value: String) -> (r: RedisValue)
        ensures
            r == RedisValue::String(value),
    {
        RedisValue::String(value)
    }

    pub fn from_list(list: Vec<String>) -> (r: RedisValue)
        ensures
            r == RedisValue::List(list),
    {
        RedisValue::List(list)
    }

    pub fn from_stream(entries: Vec<StreamEntry>) -> (r: Self)
        ensures
            r == RedisValue::Stream(entries),
    {
        RedisValue::Stream(entries)
    }

    /// The reply that shows this value.
    pub fn get_response(&self) -> (r: String)
        ensures
            r@ == render(self@),
    {
        match self {
            RedisValue::String(s) => bulk_string(s.as_str()),
            RedisValue::List(list) => bulk_array(list),
            RedisValue::Hash(hash) => {
                let flat = hash.flattened();
                bulk_array(&flat)
            },
            RedisValue::Stream(_) => simple("stream"),
        }
    }

    /// The reply that names this value's kind.
    pub fn get_type_response(&self) -> (r: String)
        ensures
            r@ == simple_reply(kind_name(self@)),
    {
        match self {
            RedisValue::String(_) => simple("string"),
            RedisValue::List(_) => simple("list"),
            RedisValue::Hash(_) => simple("hash"),
            RedisValue::Stream(_) => simple("stream"),
        }
    }

    /// The reply for a key that holds nothing.
    pub fn get_null_response() -> (r: String)
        ensures
            r@ == null_reply(),
    {
        null()
    }
}

} // verus!
