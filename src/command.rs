//! Requests as the transport decodes them, the commands they name, and the
//! list range rule.

use crate::seconds::{parse_seconds_millis, seconds_text_millis};
use crate::strmap::StrMap;
use crate::text::{
    eq_ignore_case, is_text, isize_of_text, parse_isize, parse_u64, same_ignoring_ascii_case,
    u64_of_text, upper_of, uppercase,
};
use vstd::prelude::*;

verus! {

/// One element of a request array: a bulk string, or anything else.
pub enum RequestArg {
    Bulk(String),
    Other,
}

impl View for RequestArg {
    type V = Option<Seq<char>>;

    open spec fn view(&self) -> Option<Seq<char>> {
        match self {
            RequestArg::Bulk(s) => Some(s@),
            RequestArg::Other => None,
        }
    }
}

/// A decoded request: an array, or any other value.
pub enum RequestValue {
    Array(Vec<RequestArg>),
    Other,
}

impl View for RequestValue {
    type V = Option<Seq<Option<Seq<char>>>>;

    open spec fn view(&self) -> Option<Seq<Option<Seq<char>>>> {
        match self {
            RequestValue::Array(items) => Some(items@.map_values(|a: RequestArg| a@)),
            RequestValue::Other => None,
        }
    }
}

/// The unit of a time-to-live.
#[derive(Clone, Copy, Debug, PartialEq, Eq, Structural)]
pub enum ExpiryUnit {
    Seconds,
    Milliseconds,
}

/// What a command denotes.
pub enum CommandModel {
    Ping,
    Echo(Seq<char>),
    Store(Seq<char>, Seq<char>),
    SetExpiry(Seq<char>, Seq<char>, ExpiryUnit, u64),
    Get(Seq<char>),
    Type(Seq<char>),
    LPush(Seq<char>, Seq<Seq<char>>),
    RPush(Seq<char>, Seq<Seq<char>>),
    LRange(Seq<char>, isize, isize),
    LLen(Seq<char>),
    LPop(Seq<char>, Option<isize>),
    BLPop(Seq<char>, u64),
    XAdd(Seq<char>, Seq<char>, Map<Seq<char>, Seq<char>>),
    Unknown,
}

/// A parsed command with its typed arguments.
pub enum Command {
    PING,
    ECHO(String),
    SET(String, String),
    SetExpiry(String, String, ExpiryUnit, u64),
    GET(String),
    TYPE(String),
    LPUSH(String, Vec<String>),
    RPUSH(String, Vec<String>),
    LRANGE(String, isize, isize),
    LLEN(String),
    LPOP(String, Option<isize>),
    /// The key and the timeout in milliseconds; `0` waits for ever.
    BLPOP(String, u64),
    XADD(String, String, StrMap<String>),
    UNKNOWN,
}

impl View for Command {
    type V = CommandModel;

    open spec fn view(&self) -> CommandModel {
        match self {
            Command::PING => CommandModel::Ping,
            Command::ECHO(m) => CommandModel::Echo(m@),
            Command::SET(k, v) => CommandModel::Store(k@, v@),
            Command::SetExpiry(k, v, u, a) => CommandModel::SetExpiry(k@, v@, *u, *a),
            Command::GET(k) => CommandModel::Get(k@),
            Command::TYPE(k) => CommandModel::Type(k@),
            Command::LPUSH(k, items) => CommandModel::LPush(k@, items.deep_view()),
            Command::RPUSH(k, items) => CommandModel::RPush(k@, items.deep_view()),
            Command::LRANGE(k, a, b) => CommandModel::LRange(k@, *a, *b),
            Command::LLEN(k) => CommandModel::LLen(k@),
            Command::LPOP(k, c) => CommandModel::LPop(k@, *c),
            Command::BLPOP(k, t) => CommandModel::BLPop(k@, *t),
            Command::XADD(k, id, f) => CommandModel::XAdd(k@, id@, f@),
            Command::UNKNOWN => CommandModel::Unknown,
        }
    }
}

/// The field/value words `w`, taken two by two, as a map; a later field
/// overrides an earlier one of the same name.
pub open spec fn pairs_map(w: Seq<Seq<char>>) -> Map<Seq<char>, Seq<char>>
    decreases w.len(),
{
    if w.len() < 2 {
        Map::empty()
    } else {
        pairs_map(w.subrange(0, w.len() - 2)).insert(w[w.len() - 2], w[w.len() - 1])
    }
}

/// The unit that a token names, in any letter case.
pub open spec fn unit_of(t: Seq<char>) -> Option<ExpiryUnit> {
    if same_ignoring_ascii_case(t, "EX"@) {
        Some(ExpiryUnit::Seconds)
    } else if same_ignoring_ascii_case(t, "PX"@) {
        Some(ExpiryUnit::Milliseconds)
    } else {
        None
    }
}

/// The command that the words `w` (name first) spell, where `name` is the
/// name in upper case; a wrong number of words or a malformed number gives
/// `Unknown`.
pub open spec fn parse_named(name: Seq<char>, w: Seq<Seq<char>>) -> CommandModel {
    let n = w.len();
    if name == "PING"@ && n == 1 {
        CommandModel::Ping
    } else if name == "ECHO"@ && n == 2 {
        CommandModel::Echo(w[1])
    } else if name == "SET"@ && n == 3 {
        CommandModel::Store(w[1], w[2])
    } else if name == "SET"@ && n == 5 {
        match (unit_of(w[3]), u64_of_text(w[4])) {
            (Some(u), Some(a)) => CommandModel::SetExpiry(w[1], w[2], u, a),
            _ => CommandModel::Unknown,
        }
    } else if name == "GET"@ && n == 2 {
        CommandModel::Get(w[1])
    } else if name == "TYPE"@ && n == 2 {
        CommandModel::Type(w[1])
    } else if name == "LPUSH"@ && n >= 3 {
        CommandModel::LPush(w[1], w.subrange(2, n as int))
    } else if name == "RPUSH"@ && n >= 3 {
        CommandModel::RPush(w[1], w.subrange(2, n as int))
    } else if name == "LRANGE"@ && n == 4 {
        match (isize_of_text(w[2]), isize_of_text(w[3])) {
            (Some(a), Some(b)) => CommandModel::LRange(w[1], a, b),
            _ => CommandModel::Unknown,
        }
    } else if name == "LLEN"@ && n == 2 {
        CommandModel::LLen(w[1])
    } else if name == "LPOP"@ && n == 2 {
        CommandModel::LPop(w[1], None)
    } else if name == "LPOP"@ && n == 3 {
        match isize_of_text(w[2]) {
            Some(c) => CommandModel::LPop(w[1], Some(c)),
            None => CommandModel::Unknown,
        }
    } else if name == "BLPOP"@ && n == 3 {
        match seconds_text_millis(w[2]) {
            Some(t) => CommandModel::BLPop(w[1], t),
            None => CommandModel::Unknown,
        }
    } else if name == "XADD"@ && n >= 5 && (n - 3) % 2 == 0 {
        CommandModel::XAdd(w[1], w[2], pairs_map(w.subrange(3, n as int)))
    } else {
        CommandModel::Unknown
    }
}

/// The command that the words `w` spell; the name is taken in upper case.
pub open spec fn parse_words(w: Seq<Seq<char>>) -> CommandModel {
    parse_named(upper_of(w[0]), w)
}

/// The command that a decoded request names: a non-empty array of bulk
/// strings is read by `parse_words`; anything else is `Unknown`.
pub open spec fn parse_request(v: Option<Seq<Option<Seq<char>>>>) -> CommandModel {
    match v {
        Some(items) => if items.len() > 0 && forall|i: int|
            0 <= i < items.len() ==> #[trigger] items[i] is Some {
            parse_words(items.map_values(|a: Option<Seq<char>>| a->0))
        } else {
            CommandModel::Unknown
        },
        None => CommandModel::Unknown,
    }
}

/// The elements of `s` from `start` to `stop` inclusive, where a negative
/// index counts from the end (`-1` is the last element), a start before
/// the beginning is taken as `0`, and a stop past the end as the last
/// element; empty where the start falls after the stop or past the end.
pub open spec fn lrange<T>(s: Seq<T>, start: int, stop: int) -> Seq<T> {
    let len = s.len() as int;
    let a = if start < 0 { len + start } else { start };
    let b = if stop < 0 { len + stop } else { stop };
    let a = if a < 0 { 0 } else { a };
    let b = if b >= len { len - 1 } else { b };
    if a > b || a >= len {
        Seq::empty()
    } else {
        s.subrange(a, b + 1)
    }
}

/// The elements of `list` that `LRANGE start stop` selects.
pub fn lrange_slice_vec(list: &Vec<String>, start: isize, stop: isize) -> (r: Vec<String>)
    ensures
        r.deep_view() == lrange(list.deep_view(), start as int, stop as int),
{
    let len = list.len() as i128;
    let mut a: i128 = if start < 0 { len + start as i128 } else { start as i128 };
    let mut b: i128 = if stop < 0 { len + stop as i128 } else { stop as i128 };
    if a < 0 {
        a = 0;
    }
    if b >= len {
        b = len - 1;
    }
    if a > b || a >= len {
        return Vec::new();
    }
    let mut out: Vec<String> = Vec::new();
    let mut i: usize = a as usize;
    let end: usize = (b + 1) as usize;
    while i < end
        invariant
            0 <= a as int <= i <= end <= list@.len(),
            out.deep_view() == list.deep_view().subrange(a as int, i as int),
        decreases end - i,
    {
        out.push(list[i].clone());
        proof {
            assert(list.deep_view().subrange(a as int, i + 1) == list.deep_view().subrange(
                a as int,
                i as int,
            ).push(list.deep_view()[i as int]));
        }
        i = i + 1;
    }
    out
}

/// The strings of `w` from `start` on.
fn words_from(w: &Vec<String>, start: usize) -> (r: Vec<String>)
    requires
        start <= w.len(),
    ensures
        r.deep_view() == w.deep_view().subrange(start as int, w.len() as int),
{
    let mut out: Vec<String> = Vec::new();
    let mut i: usize = start;
    while i < w.len()
        invariant
            start <= i <= w.len(),
            out.deep_view() == w.deep_view().subrange(start as int, i as int),
        decreases w.len() - i,
    {
        out.push(w[i].clone());
        proof {
            assert(w.deep_view().subrange(start as int, i + 1) == w.deep_view().subrange(
                start as int,
                i as int,
            ).push(w.deep_view()[i as int]));
        }
        i = i + 1;
    }
    out
}

/// The field/value strings of `w` from `start` on, as a map.
fn fields_from(w: &Vec<String>, start: usize) -> (r: StrMap<String>)
    requires
        start <= w.len(),
        (w.len() - start) % 2 == 0,
    ensures
        r.wf(),
        r@ == pairs_map(w.deep_view().subrange(start as int, w.len() as int)),
{
    let mut fields: StrMap<String> = StrMap::new();
    let mut i: usize = start;
    proof {
        assert(w.deep_view().subrange(start as int, start as int).len() == 0);
    }
    while w.len() - i >= 2
        invariant
            start <= i <= w.len(),
            (i - start) % 2 == 0,
            (w.len() - start) % 2 == 0,
            fields.wf(),
            fields@ == pairs_map(w.deep_view().subrange(start as int, i as int)),
        decreases w.len() - i,
    {
        fields.insert(w[i].clone(), w[i + 1].clone());
        proof {
            let sub = w.deep_view().subrange(start as int, i + 2);
            assert(sub.subrange(0, sub.len() - 2) == w.deep_view().subrange(start as int, i as int));
        }
        i = i + 2;
    }
    fields
}

/// The bulk strings of a request, or `None` where one element is not a bulk string.
fn bulk_words(items: &Vec<RequestArg>) -> (r: Option<Vec<String>>)
    ensures
        match r {
            Some(w) => (forall|i: int| 0 <= i < items@.len() ==> #[trigger] items@[i]@ is Some)
                && w.deep_view() == items@.map_values(|a: RequestArg| a@).map_values(
                |a: Option<Seq<char>>| a->0,
            ),
            None => exists|i: int| 0 <= i < items@.len() && #[trigger] items@[i]@ is None,
        },
{
    let mut out: Vec<String> = Vec::new();
    let mut i: usize = 0;
    while i < items.len()
        invariant
            i <= items@.len(),
            out@.len() == i,
            forall|j: int| 0 <= j < i ==> #[trigger] items@[j]@ is Some,
            forall|j: int| 0 <= j < i ==> #[trigger] out.deep_view()[j] == items@[j]@->0,
        decreases items@.len() - i,
    {
        match &items[i] {
            RequestArg::Bulk(s) => {
                let ghost before = out.deep_view();
                out.push(s.clone());
                proof {
                    assert(out.deep_view() =~= before.push(s@));
                }
            },
            RequestArg::Other => {
                proof {
                    assert(items@[i as int]@ is None);
                }
                return None;
            },
        }
        i = i + 1;
    }
    proof {
        assert(out.deep_view() =~= items@.map_values(|a: RequestArg| a@).map_values(
            |a: Option<Seq<char>>| a->0,
        ));
    }
    Some(out)
}

/// The unit that a token names, in any letter case.
fn expiry_unit(t: &String) -> (r: Option<ExpiryUnit>)
    ensures
        r == unit_of(t@),
{
    if eq_ignore_case(t.as_str(), "EX") {
        Some(ExpiryUnit::Seconds)
    } else if eq_ignore_case(t.as_str(), "PX") {
        Some(ExpiryUnit::Milliseconds)
    } else {
        None
    }
}

impl Command {
    /// The command that a decoded request names; never fails, but gives
    /// `UNKNOWN` for anything malformed.
    pub fn from_value(value: RequestValue) -> (r: Command)
        ensures
            r@ == parse_request(value@),
    {
        let items = match value {
            RequestValue::Array(items) => items,
            RequestValue::Other => {
                return Command::UNKNOWN;
            },
        };
        if items.len() == 0 {
            return Command::UNKNOWN;
        }
        let ghost args = items@.map_values(|a: RequestArg| a@);
        assert(value@ == Some(args));
        match bulk_words(&items) {
            Some(words) => {
                assert(forall|i: int| 0 <= i < args.len() ==> #[trigger] args[i] is Some);
                Command::from_words(&words)
            },
            None => {
                let ghost i = choose|i: int| 0 <= i < items@.len() && #[trigger] items@[i]@ is None;
                assert(args[i] is None);
                Command::UNKNOWN
            },
        }
    }

    /// The command that the words `w` (name first) spell.
    fn from_words(w: &Vec<String>) -> (r: Command)
        requires
            w.len() > 0,
        ensures
            r@ == parse_words(w.deep_view()),
    {
        let name = uppercase(w[0].as_str());
        Command::from_named(&name, w)
    }

    /// The command that the words `w` spell, given their name in upper case.
    pub fn from_named(name: &String, w: &Vec<String>) -> (r: Command)
        ensures
            r@ == parse_named(name@, w.deep_view()),
    {
        let n = w.len();
        if is_text(name, "PING") && n == 1 {
            Command::PING
        } else if is_text(name, "ECHO") && n == 2 {
            Command::ECHO(w[1].clone())
        } else if is_text(name, "SET") && n == 3 {
            Command::SET(w[1].clone(), w[2].clone())
        } else if is_text(name, "SET") && n == 5 {
            match (expiry_unit(&w[3]), parse_u64(w[4].as_str())) {
                (Some(u), Some(a)) => Command::SetExpiry(w[1].clone(), w[2].clone(), u, a),
                _ => Command::UNKNOWN,
            }
        } else if is_text(name, "GET") && n == 2 {
            Command::GET(w[1].clone())
        } else if is_text(name, "TYPE") && n == 2 {
            Command::TYPE(w[1].clone())
        } else if is_text(name, "LPUSH") && n >= 3 {
            Command::LPUSH(w[1].clone(), words_from(w, 2))
        } else if is_text(name, "RPUSH") && n >= 3 {
            Command::RPUSH(w[1].clone(), words_from(w, 2))
        } else if is_text(name, "LRANGE") && n == 4 {
            match (parse_isize(w[2].as_str()), parse_isize(w[3].as_str())) {
                (Some(a), Some(b)) => Command::LRANGE(w[1].clone(), a, b),
                _ => Command::UNKNOWN,
            }
        } else if is_text(name, "LLEN") && n == 2 {
            Command::LLEN(w[1].clone())
        } else if is_text(name, "LPOP") && n == 2 {
            Command::LPOP(w[1].clone(), None)
        } else if is_text(name, "LPOP") && n == 3 {
            match parse_isize(w[2].as_str()) {
                Some(c) => Command::LPOP(w[1].clone(), Some(c)),
                None => Command::UNKNOWN,
            }
        } else if is_text(name, "BLPOP") && n == 3 {
            match parse_seconds_millis(w[2].as_str()) {
                Some(t) => Command::BLPOP(w[1].clone(), t),
                None => Command::UNKNOWN,
            }
        } else if is_text(name, "XADD") && n >= 5 && (n - 3) % 2 == 0 {
            Command::XADD(w[1].clone(), w[2].clone(), fields_from(w, 3))
        } else {
            Command::UNKNOWN
        }
    }
}

} // verus!
