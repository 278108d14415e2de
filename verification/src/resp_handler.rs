//! Commands: PING, ECHO, GET, SET (with PX/EX expiry), RPUSH and LRANGE.
use vstd::prelude::*;
use vstd::string::*;
use vstd::utf8::*;

use crate::{Storage, StorageEntry, EntryModel, Bytes};
use crate::decimal::{digits_of, parse_unsigned, parse_signed, parse_u64, parse_i64, kind_message};
use crate::resp_parser::{RespError, ErrorModel};
use crate::resp_value::{Value, ValueModel, values_model, lemma_values_model, debug_text};
use crate::text::{ascii_chars, utf8_lossy, utf8_error_report, string_from_utf8, str_from_utf8, bytes_to_string_lossy, number_text};

verus! {

/// What a request is answered: a value, or a failure of the request itself.
pub enum Reply {
    Value(ValueModel),
    Failure(ErrorModel),
}

pub open spec fn reply_of(r: Result<Value, RespError>) -> Reply {
    match r {
        Ok(v) => Reply::Value(v@),
        Err(e) => Reply::Failure(e@),
    }
}

/// The contents of the store: each key with its entry.
pub type Db = Map<Seq<u8>, EntryModel>;

pub open spec fn lower(b: u8) -> u8 {
    if 65 <= b && b <= 90 {
        (b + 32) as u8
    } else {
        b
    }
}

/// The name equals the lower-case `word` when ASCII letters are compared
/// without regard to case.
pub open spec fn is_word(name: Seq<u8>, word: Seq<u8>) -> bool {
    name.len() == word.len() && forall|i: int| 0 <= i < name.len() ==> lower(#[trigger] name[i]) == word[i]
}

pub open spec fn ping_word() -> Seq<u8> {
    seq![112u8, 105, 110, 103]
}

pub open spec fn echo_word() -> Seq<u8> {
    seq![101u8, 99, 104, 111]
}

pub open spec fn get_word() -> Seq<u8> {
    seq![103u8, 101, 116]
}

pub open spec fn set_word() -> Seq<u8> {
    seq![115u8, 101, 116]
}

pub open spec fn rpush_word() -> Seq<u8> {
    seq![114u8, 112, 117, 115, 104]
}

pub open spec fn lrange_word() -> Seq<u8> {
    seq![108u8, 114, 97, 110, 103, 101]
}

pub open spec fn px_word() -> Seq<u8> {
    seq![112u8, 120]
}

pub open spec fn ex_word() -> Seq<u8> {
    seq![101u8, 120]
}

/// The text of the standard library's UTF-8 error from the two numbers it
/// carries.
pub open spec fn utf8_error_text(report: (usize, Option<usize>)) -> Seq<char> {
    match report.1 {
        Some(len) => "invalid utf-8 sequence of "@ + ascii_chars(digits_of(len as nat))
            + " bytes from index "@ + ascii_chars(digits_of(report.0 as nat)),
        None => "incomplete utf-8 byte sequence from index "@ + ascii_chars(
            digits_of(report.0 as nat),
        ),
    }
}

/// The text of a non-null bulk string argument, or the message that rejects
/// the argument.
pub open spec fn number_arg_text(v: ValueModel) -> Result<Seq<u8>, Seq<char>> {
    match v {
        ValueModel::BulkStr(Some(b)) => if valid_utf8(b) {
            Ok(b)
        } else {
            Err("BulkStr parsing error: "@ + utf8_error_text(utf8_error_report(b)))
        },
        _ => Err("Non-null BulkStr expected"@),
    }
}

/// A bulk string argument read as a `u64`, or the message that rejects it.
pub open spec fn u64_arg(v: ValueModel) -> Result<u64, Seq<char>> {
    match number_arg_text(v) {
        Ok(b) => match parse_unsigned(b, u64::MAX as nat) {
            Ok(n) => Ok(n as u64),
            Err(k) => Err("BulkStr parsing error: "@ + kind_message(k)),
        },
        Err(m) => Err(m),
    }
}

/// A bulk string argument read as an `i64`, or the message that rejects it.
pub open spec fn i64_arg(v: ValueModel) -> Result<i64, Seq<char>> {
    match number_arg_text(v) {
        Ok(b) => match parse_signed(b) {
            Ok(n) => Ok(n),
            Err(k) => Err("BulkStr parsing error: "@ + kind_message(k)),
        },
        Err(m) => Err(m),
    }
}

/// `now` plus `ns` nanoseconds, held at the largest time the clock can
/// show.
pub open spec fn deadline(now: u128, ns: nat) -> u128 {
    if now + ns > u128::MAX {
        u128::MAX
    } else {
        (now + ns) as u128
    }
}

/// The text of bytes with each bad UTF-8 sequence replaced by U+FFFD: the
/// decoded characters when the bytes are UTF-8.
pub open spec fn lossy_text(b: Seq<u8>) -> Seq<char> {
    if valid_utf8(b) {
        decode_utf8(b)
    } else {
        utf8_lossy(b)
    }
}

/// The expiry that SET's options ask for: nothing, `PX ms` or `EX s`
/// (letters in either case).
pub open spec fn set_expiry(opts: Seq<ValueModel>, now: u128) -> Result<Option<u128>, Seq<char>> {
    if opts.len() == 0 {
        Ok(None)
    } else {
        match opts[0] {
            ValueModel::BulkStr(Some(arg)) => if is_word(arg, px_word()) || is_word(arg, ex_word()) {
                if opts.len() < 2 {
                    Err("expiration time not provided"@)
                } else {
                    match u64_arg(opts[1]) {
                        Ok(t) => if is_word(arg, px_word()) {
                            Ok(Some(deadline(now, (t * 1_000_000) as nat)))
                        } else {
                            Ok(Some(deadline(now, (t * 1_000_000_000) as nat)))
                        },
                        Err(m) => Err(m),
                    }
                }
            } else {
                Err("Unknown optional command "@ + lossy_text(arg))
            },
            _ => Ok(None),
        }
    }
}

pub open spec fn is_expired(e: EntryModel, now: u128) -> bool {
    match e.expires_at {
        Some(t) => t <= now,
        None => false,
    }
}

/// GET: the value stored under the key; an expired entry is removed and
/// reads as null.
pub open spec fn get_reply(args: Seq<ValueModel>, db: Db, now: u128) -> (ValueModel, Db) {
    if args.len() == 0 {
        (ValueModel::Error("GET expects 1 argument, provided: 0"@), db)
    } else {
        match args[0] {
            ValueModel::BulkStr(Some(key)) => if db.contains_key(key) {
                if is_expired(db[key], now) {
                    (ValueModel::BulkStr(None), db.remove(key))
                } else {
                    (db[key].value, db)
                }
            } else {
                (ValueModel::BulkStr(None), db)
            },
            _ => (ValueModel::Error("GET key is expected to be non-null bulk string"@), db),
        }
    }
}

/// SET: stores the value under the key, with the expiry its options ask for.
pub open spec fn set_reply(args: Seq<ValueModel>, db: Db, now: u128) -> (ValueModel, Db) {
    if args.len() < 2 {
        (ValueModel::Error("SET expects at least 2 arguments"@), db)
    } else {
        match args[0] {
            ValueModel::BulkStr(Some(key)) => match set_expiry(args.subrange(2, args.len() as int), now) {
                Ok(exp) => (
                    ValueModel::Str("OK"@),
                    db.insert(key, EntryModel { value: args[1], expires_at: exp }),
                ),
                Err(m) => (ValueModel::Error(m), db),
            },
            _ => (ValueModel::Error("SET key is expected to be non-null bulk string"@), db),
        }
    }
}

/// RPUSH: appends the values to the list under the key (a new list when the
/// key is absent) and answers the list's length.
pub open spec fn rpush_reply(args: Seq<ValueModel>, db: Db) -> (ValueModel, Db) {
    if args.len() < 2 {
        (ValueModel::Error("USAGE: RPUSH <key> <vals...>"@), db)
    } else {
        match args[0] {
            ValueModel::BulkStr(Some(key)) => {
                let vals = args.subrange(1, args.len() as int);
                if db.contains_key(key) {
                    match db[key].value {
                        ValueModel::Arr(Some(items)) => (
                            ValueModel::Int((items + vals).len() as i64),
                            db.insert(
                                key,
                                EntryModel {
                                    value: ValueModel::Arr(Some(items + vals)),
                                    expires_at: db[key].expires_at,
                                },
                            ),
                        ),
                        other => (ValueModel::Error("WRONGTYPE for list: "@ + debug_text(other)), db),
                    }
                } else {
                    (
                        ValueModel::Int(vals.len() as i64),
                        db.insert(key, EntryModel { value: ValueModel::Arr(Some(vals)), expires_at: None }),
                    )
                }
            },
            _ => (ValueModel::Error("RPUSH key is expected to be non-null bulk string"@), db),
        }
    }
}

/// The list stored under the key, if the key holds a list.
pub open spec fn stored_list(db: Db, key: Seq<u8>) -> Option<Seq<ValueModel>> {
    if db.contains_key(key) {
        match db[key].value {
            ValueModel::Arr(Some(items)) => Some(items),
            _ => None,
        }
    } else {
        None
    }
}

/// LRANGE: the elements from `start` to `stop` (both included, `stop` cut to
/// the list's end) of the list under the key; empty when the range is empty
/// or the key holds no list.
pub open spec fn lrange_reply(args: Seq<ValueModel>, db: Db) -> ValueModel {
    if args.len() < 3 || !(args[0] matches ValueModel::BulkStr(Some(_))) {
        ValueModel::Error("USAGE: LRANGE <key> <start> <stop>"@)
    } else {
        let key = args[0]->BulkStr_0->Some_0;
        match i64_arg(args[1]) {
            Err(m) => ValueModel::Error(m),
            Ok(start) => match i64_arg(args[2]) {
                Err(m) => ValueModel::Error(m),
                Ok(stop) => match stored_list(db, key) {
                    Some(items) => if start >= items.len() || start > stop {
                        ValueModel::Arr(Some(Seq::empty()))
                    } else {
                        let last = if stop >= items.len() {
                            items.len() - 1
                        } else {
                            stop as int
                        };
                        ValueModel::Arr(Some(items.subrange(start as int, last + 1)))
                    },
                    None => ValueModel::Arr(Some(Seq::empty())),
                },
            },
        }
    }
}

/// The LRANGE requests that index the list before its start: a negative
/// `start` within a non-empty range of a stored list.
pub open spec fn lrange_out_of_bounds(args: Seq<ValueModel>, db: Db) -> bool {
    &&& args.len() >= 3
    &&& args[0] matches ValueModel::BulkStr(Some(key))
    &&& i64_arg(args[1]) matches Ok(start)
    &&& i64_arg(args[2]) matches Ok(stop)
    &&& stored_list(db, args[0]->BulkStr_0->Some_0) is Some
    &&& i64_arg(args[1])->Ok_0 < 0
    &&& i64_arg(args[1])->Ok_0 <= i64_arg(args[2])->Ok_0
}

/// ECHO: its bulk string argument.
pub open spec fn echo_reply(args: Seq<ValueModel>) -> ValueModel {
    if args.len() == 0 {
        ValueModel::Error("ECHO with no argument received"@)
    } else {
        match args[0] {
            ValueModel::BulkStr(_) => args[0],
            _ => ValueModel::Error("ECHO's argument should be a bulk string"@),
        }
    }
}

/// The answer to the command `name` (UTF-8 text) with its arguments.
pub open spec fn command_reply(name: Seq<u8>, args: Seq<ValueModel>, db: Db, now: u128) -> (ValueModel, Db) {
    if is_word(name, ping_word()) {
        (ValueModel::Str("PONG"@), db)
    } else if is_word(name, echo_word()) {
        (echo_reply(args), db)
    } else if is_word(name, get_word()) {
        get_reply(args, db, now)
    } else if is_word(name, set_word()) {
        set_reply(args, db, now)
    } else if is_word(name, rpush_word()) {
        rpush_reply(args, db)
    } else if is_word(name, lrange_word()) {
        (lrange_reply(args, db), db)
    } else {
        (ValueModel::Error("Unknown command: "@ + decode_utf8(name)), db)
    }
}

/// The answer to a request at time `now`, and the store after it.
pub open spec fn respond(req: ValueModel, db: Db, now: u128) -> (Reply, Db) {
    match req {
        ValueModel::Arr(Some(items)) => if items.len() == 0 {
            (Reply::Value(ValueModel::Error("request should be non-empty array"@)), db)
        } else {
            match items[0] {
                ValueModel::BulkStr(Some(name)) => if !valid_utf8(name) {
                    (Reply::Failure(crate::resp_parser::utf8_failure(name)), db)
                } else {
                    let (v, d) = command_reply(name, items.subrange(1, items.len() as int), db, now);
                    (Reply::Value(v), d)
                },
                _ => (
                    Reply::Value(
                        ValueModel::Error("request should be a non-null RESP array of bulk strings"@),
                    ),
                    db,
                ),
            }
        },
        _ => (
            Reply::Value(ValueModel::Error("request should be a non-null RESP array of bulk strings"@)),
            db,
        ),
    }
}

/// The requests whose handling would index a list out of bounds.
pub open spec fn request_out_of_bounds(req: ValueModel, db: Db) -> bool {
    &&& req matches ValueModel::Arr(Some(items))
    &&& items.len() > 0
    &&& items[0] matches ValueModel::BulkStr(Some(name))
    &&& valid_utf8(name)
    &&& is_word(name, lrange_word())
    &&& lrange_out_of_bounds(items.subrange(1, items.len() as int), db)
}

pub proof fn lemma_values_model_subrange(s: Seq<Value>, a: int, b: int)
    requires
        0 <= a <= b <= s.len(),
    ensures
        values_model(s.subrange(a, b)) == values_model(s).subrange(a, b),
{
    lemma_values_model(s);
    lemma_values_model(s.subrange(a, b));
    assert(values_model(s.subrange(a, b)) =~= values_model(s).subrange(a, b));
}

/// Whether `name` is `word` when ASCII letters are compared without regard
/// to case.
fn matches_word(name: &[u8], word: &[u8]) -> (r: bool)
    ensures
        r == is_word(name@, word@),
{
    if name.len() != word.len() {
        return false;
    }
    let mut i: usize = 0;
    while i < name.len()
        invariant
            name@.len() == word@.len(),
            i <= name@.len(),
            forall|j: int| 0 <= j < i ==> lower(#[trigger] name@[j]) == word@[j],
        decreases name@.len() - i,
    {
        let b = name[i];
        let l: u8 = if 65 <= b && b <= 90 {
            b + 32
        } else {
            b
        };
        if l != word[i] {
            return false;
        }
        i = i + 1;
    }
    true
}

fn error_value(msg: &str) -> (r: Value)
    ensures
        r@ == ValueModel::Error(msg@),
{
    Value::Error(msg.to_owned())
}

/// The UTF-8 error's text, as the standard library writes it.
fn utf8_error_message(report: (usize, Option<usize>)) -> (r: String)
    ensures
        r@ == utf8_error_text(report),
{
    let (up_to, len) = report;
    match len {
        Some(n) => {
            let mut t = "invalid utf-8 sequence of ".to_owned();
            let nt = number_text(n as u64);
            t.append(nt.as_str());
            t.append(" bytes from index ");
            let it = number_text(up_to as u64);
            t.append(it.as_str());
            t
        },
        None => {
            let mut t = "incomplete utf-8 byte sequence from index ".to_owned();
            let it = number_text(up_to as u64);
            t.append(it.as_str());
            t
        },
    }
}

/// The text of a bulk string argument that must hold a number.
fn number_arg(val: &Value) -> (r: Result<&[u8], String>)
    ensures
        match r {
            Ok(b) => number_arg_text(val@) == Ok::<Seq<u8>, Seq<char>>(b@),
            Err(m) => number_arg_text(val@) == Err::<Seq<u8>, Seq<char>>(m@),
        },
{
    match val {
        Value::BulkStr(Some(b)) => match str_from_utf8(b.as_slice()) {
            Ok(_) => Ok(b.as_slice()),
            Err(report) => {
                let mut m = "BulkStr parsing error: ".to_owned();
                let t = utf8_error_message(report);
                m.append(t.as_str());
                Err(m)
            },
        },
        _ => Err("Non-null BulkStr expected".to_owned()),
    }
}

fn parse_error_message(k: crate::decimal::IntErrorKind) -> (r: String)
    ensures
        r@ == "BulkStr parsing error: "@ + kind_message(k),
{
    let mut m = "BulkStr parsing error: ".to_owned();
    m.append(k.message());
    m
}

/// A bulk string argument read as a `u64`.
fn convert_bulk_str_u64(val: &Value) -> (r: Result<u64, String>)
    ensures
        match r {
            Ok(n) => u64_arg(val@) == Ok::<u64, Seq<char>>(n),
            Err(m) => u64_arg(val@) == Err::<u64, Seq<char>>(m@),
        },
{
    match number_arg(val) {
        Ok(b) => match parse_u64(b) {
            Ok(n) => Ok(n),
            Err(k) => Err(parse_error_message(k)),
        },
        Err(m) => Err(m),
    }
}

/// A bulk string argument read as an `i64`.
fn convert_bulk_str_i64(val: &Value) -> (r: Result<i64, String>)
    ensures
        match r {
            Ok(n) => i64_arg(val@) == Ok::<i64, Seq<char>>(n),
            Err(m) => i64_arg(val@) == Err::<i64, Seq<char>>(m@),
        },
{
    match number_arg(val) {
        Ok(b) => match parse_i64(b) {
            Ok(n) => Ok(n),
            Err(k) => Err(parse_error_message(k)),
        },
        Err(m) => Err(m),
    }
}

fn deadline_after(now: u128, ns: u128) -> (r: u128)
    ensures
        r == deadline(now, ns as nat),
{
    if ns > u128::MAX - now {
        u128::MAX
    } else {
        now + ns
    }
}

/// The expiry that SET's options (the arguments from index 2 on) ask for.
fn extract_set_opt_args(args: &Vec<Value>, now: u128) -> (r: Result<Option<u128>, String>)
    requires
        args@.len() >= 2,
    ensures
        match r {
            Ok(e) => set_expiry(values_model(args@).subrange(2, args@.len() as int), now) == Ok::<Option<u128>, Seq<char>>(e),
            Err(m) => set_expiry(values_model(args@).subrange(2, args@.len() as int), now) == Err::<Option<u128>, Seq<char>>(m@),
        },
{
    let ghost opts = values_model(args@).subrange(2, args@.len() as int);
    proof {
        lemma_values_model(args@);
    }
    if args.len() < 3 {
        return Ok(None);
    }
    assert(opts[0] == args@[2]@);
    match &args[2] {
        Value::BulkStr(Some(arg)) => {
            let px: [u8; 2] = [112, 120];
            let ex: [u8; 2] = [101, 120];
            assert(px@ =~= px_word());
            assert(ex@ =~= ex_word());
            let is_px = matches_word(arg.as_slice(), &px);
            let is_ex = matches_word(arg.as_slice(), &ex);
            if is_px || is_ex {
                if args.len() < 4 {
                    return Err("expiration time not provided".to_owned());
                }
                assert(opts[1] == args@[3]@);
                match convert_bulk_str_u64(&args[3]) {
                    Ok(t) => {
                        if is_px {
                            Ok(Some(deadline_after(now, (t as u128) * 1_000_000)))
                        } else {
                            Ok(Some(deadline_after(now, (t as u128) * 1_000_000_000)))
                        }
                    },
                    Err(m) => Err(m),
                }
            } else {
                let mut m = "Unknown optional command ".to_owned();
                let t = bytes_to_string_lossy(arg.as_slice());
                m.append(t.as_str());
                Err(m)
            }
        },
        _ => Ok(None),
    }
}

/// GET: the stored value; an expired entry is removed and reads as null.
fn handle_get_request(args: &Vec<Value>, storage: &mut Storage, now: u128) -> (r: Value)
    ensures
        (r@, final(storage)@) == get_reply(values_model(args@), old(storage)@, now),
{
    proof {
        lemma_values_model(args@);
    }
    if args.len() == 0 {
        return error_value("GET expects 1 argument, provided: 0");
    }
    match &args[0] {
        Value::BulkStr(Some(key)) => {
            let (expired, found) = match storage.get(key.as_slice()) {
                Some(e) => {
                    let expired = match e.expires_at() {
                        Some(t) => t <= now,
                        None => false,
                    };
                    if expired {
                        (true, None)
                    } else {
                        (false, Some(e.value().clone()))
                    }
                },
                None => (false, None),
            };
            if expired {
                storage.remove(key.as_slice());
                Value::BulkStr(None)
            } else {
                match found {
                    Some(v) => v,
                    None => Value::BulkStr(None),
                }
            }
        },
        _ => error_value("GET key is expected to be non-null bulk string"),
    }
}

/// SET: stores the value under the key, with the expiry that the options ask
/// for.
fn handle_set_request(args: &Vec<Value>, storage: &mut Storage, now: u128) -> (r: Value)
    ensures
        (r@, final(storage)@) == set_reply(values_model(args@), old(storage)@, now),
{
    proof {
        lemma_values_model(args@);
    }
    if args.len() < 2 {
        return error_value("SET expects at least 2 arguments");
    }
    match &args[0] {
        Value::BulkStr(Some(key)) => {
            let opt_args = match extract_set_opt_args(args, now) {
                Ok(e) => e,
                Err(msg) => return Value::Error(msg),
            };
            let k = vstd::slice::slice_to_vec(key.as_slice());
            let v = args[1].clone();
            storage.insert(k, StorageEntry::new(v, opt_args));
            Value::Str("OK".to_owned())
        },
        _ => error_value("SET key is expected to be non-null bulk string"),
    }
}

/// What RPUSH finds under its key.
enum ListSlot {
    List,
    Other(String),
    Absent,
}

/// RPUSH: appends the values to the list under the key and answers its new
/// length.
fn handle_rpush_request(args: Vec<Value>, storage: &mut Storage) -> (r: Value)
    ensures
        (r@, final(storage)@) == rpush_reply(values_model(args@), old(storage)@),
{
    proof {
        lemma_values_model(args@);
    }
    if args.len() < 2 {
        return error_value("USAGE: RPUSH <key> <vals...>");
    }
    let key: Bytes = match &args[0] {
        Value::BulkStr(Some(key)) => vstd::slice::slice_to_vec(key.as_slice()),
        _ => return error_value("RPUSH key is expected to be non-null bulk string"),
    };
    let ghost all = args@;
    let mut args = args;
    let vals = args.split_off(1);
    proof {
        lemma_values_model_subrange(all, 1, all.len() as int);
    }
    let slot = match storage.get(key.as_slice()) {
        Some(e) => match e.value() {
            Value::Arr(Some(_)) => ListSlot::List,
            other => {
                let mut m = "WRONGTYPE for list: ".to_owned();
                let d = other.debug_text();
                m.append(d.as_str());
                ListSlot::Other(m)
            },
        },
        None => ListSlot::Absent,
    };
    match slot {
        ListSlot::List => {
            let n = storage.append_to_list(key.as_slice(), vals);
            Value::Int(n as i64)
        },
        ListSlot::Other(m) => Value::Error(m),
        ListSlot::Absent => {
            let n = vals.len();
            storage.insert(key, StorageEntry::new(Value::Arr(Some(vals)), None));
            Value::Int(n as i64)
        },
    }
}

/// LRANGE: the elements of the list under the key from `start` to `stop`.
fn handle_lrange_request(args: &Vec<Value>, storage: &Storage) -> (r: Value)
    requires
        !lrange_out_of_bounds(values_model(args@), storage@),
    ensures
        r@ == lrange_reply(values_model(args@), storage@),
{
    proof {
        lemma_values_model(args@);
    }
    if args.len() < 3 {
        return error_value("USAGE: LRANGE <key> <start> <stop>");
    }
    let key = match &args[0] {
        Value::BulkStr(Some(key)) => key,
        _ => return error_value("USAGE: LRANGE <key> <start> <stop>"),
    };
    let start: i64 = match convert_bulk_str_i64(&args[1]) {
        Ok(idx) => idx,
        Err(msg) => return Value::Error(msg),
    };
    let stop: i64 = match convert_bulk_str_i64(&args[2]) {
        Ok(idx) => idx,
        Err(msg) => return Value::Error(msg),
    };
    match storage.get(key.as_slice()) {
        Some(e) => match e.value() {
            Value::Arr(Some(arr)) => {
                proof {
                    lemma_values_model(arr@);
                }
                let len = arr.len();
                if (start as i128) >= (len as i128) || start > stop {
                    return Value::Arr(Some(Vec::new()));
                }
                let last: usize = if (stop as i128) >= (len as i128) {
                    len - 1
                } else {
                    stop as usize
                };
                let first = start as usize;
                let mut out: Vec<Value> = Vec::new();
                let mut i = first;
                while i <= last
                    invariant
                        first <= i <= last + 1,
                        last < arr@.len(),
                        len == arr@.len(),
                        values_model(arr@).len() == arr@.len(),
                        forall|j: int| 0 <= j < arr@.len() ==> #[trigger] values_model(arr@)[j] == arr@[j]@,
                        values_model(out@) == values_model(arr@).subrange(first as int, i as int),
                    decreases last + 1 - i,
                {
                    let c = arr[i].clone();
                    proof {
                        crate::resp_value::lemma_values_model_push(out@, c);
                    }
                    out.push(c);
                    assert(values_model(out@) =~= values_model(arr@).subrange(first as int, i + 1));
                    i = i + 1;
                }
                Value::Arr(Some(out))
            },
            _ => Value::Arr(Some(Vec::new())),
        },
        None => Value::Arr(Some(Vec::new())),
    }
}

/// ECHO: its bulk string argument.
fn handle_echo_request(args: &Vec<Value>) -> (r: Value)
    ensures
        r@ == echo_reply(values_model(args@)),
{
    proof {
        lemma_values_model(args@);
    }
    if args.len() == 0 {
        return error_value("ECHO with no argument received");
    }
    match &args[0] {
        Value::BulkStr(_) => args[0].clone(),
        _ => error_value("ECHO's argument should be a bulk string"),
    }
}

/// Answers the command `name` with its arguments.
fn handle_command(name: &[u8], text: &String, args: Vec<Value>, storage: &mut Storage, now: u128) -> (r: Value)
    requires
        valid_utf8(name@),
        text@ == decode_utf8(name@),
        !(is_word(name@, lrange_word()) && lrange_out_of_bounds(values_model(args@), old(storage)@)),
    ensures
        (r@, final(storage)@) == command_reply(name@, values_model(args@), old(storage)@, now),
{
    let ping: [u8; 4] = [112, 105, 110, 103];
    let echo: [u8; 4] = [101, 99, 104, 111];
    let get: [u8; 3] = [103, 101, 116];
    let set: [u8; 3] = [115, 101, 116];
    let rpush: [u8; 5] = [114, 112, 117, 115, 104];
    let lrange: [u8; 6] = [108, 114, 97, 110, 103, 101];
    assert(ping@ =~= ping_word());
    assert(echo@ =~= echo_word());
    assert(get@ =~= get_word());
    assert(set@ =~= set_word());
    assert(rpush@ =~= rpush_word());
    assert(lrange@ =~= lrange_word());
    if matches_word(name, &ping) {
        Value::Str("PONG".to_owned())
    } else if matches_word(name, &echo) {
        handle_echo_request(&args)
    } else if matches_word(name, &get) {
        handle_get_request(&args, storage, now)
    } else if matches_word(name, &set) {
        handle_set_request(&args, storage, now)
    } else if matches_word(name, &rpush) {
        handle_rpush_request(args, storage)
    } else if matches_word(name, &lrange) {
        handle_lrange_request(&args, storage)
    } else {
        let mut m = "Unknown command: ".to_owned();
        m.append(text.as_str());
        Value::Error(m)
    }
}

/// Answers a request at time `now` (nanoseconds on the store's clock).
pub fn handle_request_at(request: Value, storage: &mut Storage, now: u128) -> (r: Result<Value, RespError>)
    requires
        !request_out_of_bounds(request@, old(storage)@),
    ensures
        reply_of(r) == respond(request@, old(storage)@, now).0,
        final(storage)@ == respond(request@, old(storage)@, now).1,
{
    let not_array = "request should be a non-null RESP array of bulk strings";
    match request {
        Value::Arr(Some(arr)) => {
            if arr.len() == 0 {
                return Ok(error_value("request should be non-empty array"));
            }
            let ghost all = arr@;
            proof {
                lemma_values_model(all);
                lemma_values_model_subrange(all, 1, all.len() as int);
            }
            let mut arr = arr;
            let args = arr.split_off(1);
            match arr.pop() {
                Some(Value::BulkStr(Some(name))) => {
                    let ghost bytes = name@;
                    match string_from_utf8(name) {
                        Ok(text) => {
                            let name_bytes = text.as_str().as_bytes();
                            proof {
                                decode_utf8_encode_utf8(bytes);
                            }
                            Ok(handle_command(name_bytes, &text, args, storage, now))
                        },
                        Err(e) => Err(RespError::FromUtf8(e)),
                    }
                },
                _ => Ok(error_value(not_array)),
            }
        },
        _ => Ok(error_value(not_array)),
    }
}

/// Answers a request, reading the store's clock for the current time.
pub fn handle_request(request: Value, storage: &mut Storage) -> (r: Result<Value, RespError>)
    requires
        !request_out_of_bounds(request@, old(storage)@),
    ensures
        exists|now: u128|
            reply_of(r) == #[trigger] respond(request@, old(storage)@, now).0 && final(storage)@
                == respond(request@, old(storage)@, now).1,
{
    let now = storage.now();
    handle_request_at(request, storage, now)
}

/// Whether handling the request would index a list out of bounds.
pub fn request_out_of_range(request: &Value, storage: &Storage) -> (r: bool)
    ensures
        r == request_out_of_bounds(request@, storage@),
{
    match request {
        Value::Arr(Some(items)) => {
            proof {
                lemma_values_model(items@);
            }
            if items.len() < 4 {
                return false;
            }
            proof {
                lemma_values_model_subrange(items@, 1, items@.len() as int);
            }
            let name = match &items[0] {
                Value::BulkStr(Some(name)) => name,
                _ => return false,
            };
            let lrange: [u8; 6] = [108, 114, 97, 110, 103, 101];
            assert(lrange@ =~= lrange_word());
            if !matches_word(name.as_slice(), &lrange) {
                return false;
            }
            if str_from_utf8(name.as_slice()).is_err() {
                return false;
            }
            let key = match &items[1] {
                Value::BulkStr(Some(key)) => key,
                _ => return false,
            };
            let start = match convert_bulk_str_i64(&items[2]) {
                Ok(n) => n,
                Err(_) => return false,
            };
            let stop = match convert_bulk_str_i64(&items[3]) {
                Ok(n) => n,
                Err(_) => return false,
            };
            let is_list = match storage.get(key.as_slice()) {
                Some(e) => match e.value() {
                    Value::Arr(Some(_)) => true,
                    _ => false,
                },
                None => false,
            };
            is_list && start < 0 && start <= stop
        },
        _ => false,
    }
}

} // verus!
