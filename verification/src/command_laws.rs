//! What a sequence of commands does to the store, stated over the model of
//! the request handler.
use vstd::prelude::*;
use vstd::utf8::*;

use crate::EntryModel;
use crate::decimal::{digits_of, lemma_parse_digits, lemma_parse_signed_digits};
use crate::resp_handler::{
    Db, Reply, respond, is_word, lower, ping_word, echo_word, get_word, set_word,
    rpush_word, lrange_word, px_word, ex_word, stored_list, u64_arg, i64_arg, set_expiry, deadline, get_reply,
    set_reply,
};
use crate::resp_value::ValueModel;
use crate::text::{is_ascii_bytes, lemma_ascii_utf8, lemma_digits_ascii};

verus! {

pub open spec fn bulk(b: Seq<u8>) -> ValueModel {
    ValueModel::BulkStr(Some(b))
}

/// A request made of the command word and its arguments.
pub open spec fn request(word: Seq<u8>, args: Seq<ValueModel>) -> ValueModel {
    ValueModel::Arr(Some(seq![bulk(word)] + args))
}

proof fn lemma_word_text(w: Seq<u8>)
    requires
        forall|i: int| 0 <= i < w.len() ==> 97 <= #[trigger] w[i] <= 122,
    ensures
        valid_utf8(w),
        is_word(w, w),
{
    assert(is_ascii_bytes(w)) by {
        assert forall|i: int| 0 <= i < w.len() implies #[trigger] w[i] < 128 by {
            assert(97 <= w[i] <= 122);
        }
    }
    lemma_ascii_utf8(w);
    assert forall|i: int| 0 <= i < w.len() implies lower(#[trigger] w[i]) == w[i] by {
        assert(97 <= w[i] <= 122);
    }
}

proof fn lemma_words()
    ensures
        valid_utf8(set_word()),
        valid_utf8(get_word()),
        valid_utf8(rpush_word()),
        valid_utf8(lrange_word()),
        is_word(set_word(), set_word()),
        is_word(get_word(), get_word()),
        is_word(rpush_word(), rpush_word()),
        is_word(lrange_word(), lrange_word()),
        is_word(px_word(), px_word()),
        !is_word(set_word(), ping_word()),
        !is_word(set_word(), echo_word()),
        !is_word(set_word(), get_word()),
        !is_word(get_word(), ping_word()),
        !is_word(get_word(), echo_word()),
        !is_word(rpush_word(), ping_word()),
        !is_word(rpush_word(), echo_word()),
        !is_word(rpush_word(), get_word()),
        !is_word(rpush_word(), set_word()),
        !is_word(lrange_word(), ping_word()),
        !is_word(lrange_word(), echo_word()),
        !is_word(lrange_word(), get_word()),
        !is_word(lrange_word(), set_word()),
        !is_word(lrange_word(), rpush_word()),
        !is_word(px_word(), seq![101u8, 120]),
{
    lemma_word_text(set_word());
    lemma_word_text(get_word());
    lemma_word_text(rpush_word());
    lemma_word_text(lrange_word());
    lemma_word_text(px_word());
    assert(lower(set_word()[0]) != get_word()[0]);
    assert(lower(px_word()[0]) != seq![101u8, 120][0]);
}

/// The argument list of a request, after the command word.
proof fn lemma_args(word: Seq<u8>, args: Seq<ValueModel>)
    ensures
        (seq![bulk(word)] + args)[0] == bulk(word),
        (seq![bulk(word)] + args).subrange(1, args.len() as int + 1) == args,
        (seq![bulk(word)] + args).len() == args.len() + 1,
{
    assert((seq![bulk(word)] + args).subrange(1, args.len() as int + 1) =~= args);
}

/// GET after SET: SET answers OK and stores the value without expiry; a GET
/// of the key at any later time answers the value and leaves the store as
/// it is. This holds of the whole request and of the two command handlers
/// on their arguments.
pub proof fn law_get_after_set(db: Db, key: Seq<u8>, val: ValueModel, t1: u128, t2: u128)
    ensures
        set_reply(seq![bulk(key), val], db, t1) == (
            ValueModel::Str("OK"@),
            db.insert(key, EntryModel { value: val, expires_at: None }),
        ),
        get_reply(seq![bulk(key)], db.insert(key, EntryModel { value: val, expires_at: None }), t2)
            == (val, db.insert(key, EntryModel { value: val, expires_at: None })),
        respond(request(set_word(), seq![bulk(key), val]), db, t1) == (
            Reply::Value(ValueModel::Str("OK"@)),
            db.insert(key, EntryModel { value: val, expires_at: None }),
        ),
        respond(
            request(get_word(), seq![bulk(key)]),
            db.insert(key, EntryModel { value: val, expires_at: None }),
            t2,
        ) == (Reply::Value(val), db.insert(key, EntryModel { value: val, expires_at: None })),
{
    lemma_words();
    lemma_args(set_word(), seq![bulk(key), val]);
    lemma_args(get_word(), seq![bulk(key)]);
    let args = seq![bulk(key), val];
    assert(args.subrange(2, 2) =~= Seq::<ValueModel>::empty());
    assert(set_expiry(args.subrange(2, args.len() as int), t1) == Ok::<Option<u128>, Seq<char>>(None));
    assert(set_reply(args, db, t1) == (
        ValueModel::Str("OK"@),
        db.insert(key, EntryModel { value: val, expires_at: None }),
    ));
}

/// SET with `PX ms`: the value reads back until the deadline `ms`
/// milliseconds after the SET (times in nanoseconds, held at the clock's largest time), and from
/// the deadline on a GET answers null and removes the key.
pub proof fn law_px_expiry(db: Db, key: Seq<u8>, val: ValueModel, ms: u64, t1: u128, t2: u128)
    ensures
        ({
            let stored = db.insert(
                key,
                EntryModel { value: val, expires_at: Some(deadline(t1, (ms * 1_000_000) as nat)) },
            );
            &&& respond(
                request(set_word(), seq![bulk(key), val, bulk(px_word()), bulk(digits_of(ms as nat))]),
                db,
                t1,
            ) == (Reply::Value(ValueModel::Str("OK"@)), stored)
            &&& t2 < deadline(t1, (ms * 1_000_000) as nat) ==> respond(request(get_word(), seq![bulk(key)]), stored, t2)
                == (Reply::Value(val), stored)
            &&& t2 >= deadline(t1, (ms * 1_000_000) as nat) ==> respond(
                request(get_word(), seq![bulk(key)]),
                stored,
                t2,
            ) == (Reply::Value(ValueModel::BulkStr(None)), stored.remove(key))
        }),
{
    lemma_words();
    let args = seq![bulk(key), val, bulk(px_word()), bulk(digits_of(ms as nat))];
    lemma_args(set_word(), args);
    lemma_args(get_word(), seq![bulk(key)]);
    lemma_digits_ascii(ms as nat);
    lemma_ascii_utf8(digits_of(ms as nat));
    lemma_parse_digits(ms as nat, u64::MAX as nat);
    assert(u64_arg(bulk(digits_of(ms as nat))) == Ok::<u64, Seq<char>>(ms));
    let opts = args.subrange(2, args.len() as int);
    assert(opts =~= seq![bulk(px_word()), bulk(digits_of(ms as nat))]);
    assert(set_expiry(opts, t1) == Ok::<Option<u128>, Seq<char>>(Some(deadline(t1, (ms * 1_000_000) as nat))));
}

/// RPUSH onto a key that holds a list (or nothing): the values are
/// appended, the answer is the new length, the expiry is kept, and a GET
/// while the entry has not expired answers the whole list.
pub proof fn law_rpush_appends(db: Db, key: Seq<u8>, vals: Seq<ValueModel>, t1: u128, t2: u128)
    requires
        vals.len() > 0,
        !db.contains_key(key) || stored_list(db, key) is Some,
    ensures
        ({
            let items = if db.contains_key(key) {
                stored_list(db, key)->Some_0
            } else {
                Seq::empty()
            };
            let expiry = if db.contains_key(key) {
                db[key].expires_at
            } else {
                None
            };
            let after = db.insert(
                key,
                EntryModel { value: ValueModel::Arr(Some(items + vals)), expires_at: expiry },
            );
            &&& respond(request(rpush_word(), seq![bulk(key)] + vals), db, t1) == (
                Reply::Value(ValueModel::Int((items + vals).len() as i64)),
                after,
            )
            &&& (expiry matches Some(t) ==> t2 < t) ==> respond(
                request(get_word(), seq![bulk(key)]),
                after,
                t2,
            ) == (Reply::Value(ValueModel::Arr(Some(items + vals))), after)
        }),
{
    lemma_words();
    let args = seq![bulk(key)] + vals;
    lemma_args(rpush_word(), args);
    lemma_args(get_word(), seq![bulk(key)]);
    assert(args[0] == bulk(key));
    assert(args.subrange(1, args.len() as int) =~= vals);
    if !db.contains_key(key) {
        assert(Seq::<ValueModel>::empty() + vals =~= vals);
    }
}

/// RPUSH onto a key that holds something other than a list answers an
/// error and leaves the store as it is.
pub proof fn law_rpush_wrong_type(db: Db, key: Seq<u8>, vals: Seq<ValueModel>, now: u128)
    requires
        vals.len() > 0,
        db.contains_key(key),
        stored_list(db, key) is None,
    ensures
        respond(request(rpush_word(), seq![bulk(key)] + vals), db, now).0 matches Reply::Value(
            ValueModel::Error(_),
        ),
        respond(request(rpush_word(), seq![bulk(key)] + vals), db, now).1 == db,
{
    lemma_words();
    let args = seq![bulk(key)] + vals;
    lemma_args(rpush_word(), args);
    assert(args[0] == bulk(key));
}

proof fn lemma_index_arg(n: i64)
    requires
        n >= 0,
    ensures
        i64_arg(bulk(digits_of(n as nat))) == Ok::<i64, Seq<char>>(n),
{
    lemma_digits_ascii(n as nat);
    lemma_ascii_utf8(digits_of(n as nat));
    lemma_parse_signed_digits(n);
}

/// LRANGE from 0 to a stop at or past the end of a stored list answers the
/// whole list and leaves the store as it is.
pub proof fn law_lrange_whole_list(db: Db, key: Seq<u8>, stop: i64, now: u128)
    requires
        stored_list(db, key) is Some,
        stop >= 0,
        stop + 1 >= stored_list(db, key)->Some_0.len(),
    ensures
        respond(
            request(lrange_word(), seq![bulk(key), bulk(digits_of(0)), bulk(digits_of(stop as nat))]),
            db,
            now,
        ) == (Reply::Value(ValueModel::Arr(Some(stored_list(db, key)->Some_0))), db),
{
    lemma_words();
    let args = seq![bulk(key), bulk(digits_of(0)), bulk(digits_of(stop as nat))];
    lemma_args(lrange_word(), args);
    lemma_index_arg(0);
    lemma_index_arg(stop);
    let items = stored_list(db, key)->Some_0;
    assert(items.subrange(0, items.len() as int) =~= items);
    if items.len() == 0 {
        assert(items =~= Seq::<ValueModel>::empty());
    }
}

/// The command word of a request, when its first element is a non-null
/// bulk string.
pub open spec fn command_name(req: ValueModel) -> Option<Seq<u8>> {
    match req {
        ValueModel::Arr(Some(items)) => if items.len() > 0 {
            match items[0] {
                ValueModel::BulkStr(Some(name)) => Some(name),
                _ => None,
            }
        } else {
            None
        },
        _ => None,
    }
}

/// Only GET, SET and RPUSH change the store: every other request, well
/// formed or not, leaves it as it is.
pub proof fn law_other_requests_keep_store(req: ValueModel, db: Db, now: u128)
    requires
        match command_name(req) {
            Some(name) => !is_word(name, get_word()) && !is_word(name, set_word()) && !is_word(
                name,
                rpush_word(),
            ),
            None => true,
        },
    ensures
        respond(req, db, now).1 == db,
{
}

/// GET never adds or changes an entry: every key it leaves was there before,
/// with the same entry.
pub proof fn law_get_only_removes(args: Seq<ValueModel>, db: Db, now: u128)
    ensures
        forall|k: Seq<u8>| #[trigger] get_reply(args, db, now).1.contains_key(k) ==> db.contains_key(k)
            && get_reply(args, db, now).1[k] == db[k],
{
}

/// The name with each ASCII capital letter made small.
pub open spec fn ascii_lowercase(name: Seq<u8>) -> Seq<u8> {
    Seq::new(
        name.len(),
        |i: int|
            if 65 <= name[i] <= 90 {
                (name[i] + 32) as u8
            } else {
                name[i]
            },
    )
}

/// The words of the commands that the handler knows.
pub open spec fn is_command_word(w: Seq<u8>) -> bool {
    w == ping_word() || w == echo_word() || w == get_word() || w == set_word() || w
        == rpush_word() || w == lrange_word()
}

proof fn lemma_is_word_lowercase(name: Seq<u8>, w: Seq<u8>)
    ensures
        is_word(name, w) == (ascii_lowercase(name) == w),
{
    if is_word(name, w) {
        assert(ascii_lowercase(name) =~= w);
    }
    if ascii_lowercase(name) == w {
        assert forall|i: int| 0 <= i < name.len() implies lower(#[trigger] name[i]) == w[i] by {
            assert(ascii_lowercase(name)[i] == lower(name[i]));
        }
    }
}

/// Command names are matched without regard to ASCII case: two requests
/// with the same arguments, whose UTF-8 names lower-case alike to a known
/// command, get the same answer and leave the store alike.
pub proof fn law_command_names_ignore_case(
    n1: Seq<u8>,
    n2: Seq<u8>,
    args: Seq<ValueModel>,
    db: Db,
    now: u128,
)
    requires
        valid_utf8(n1),
        valid_utf8(n2),
        ascii_lowercase(n1) == ascii_lowercase(n2),
        is_command_word(ascii_lowercase(n1)),
    ensures
        respond(request(n1, args), db, now) == respond(request(n2, args), db, now),
{
    lemma_args(n1, args);
    lemma_args(n2, args);
    lemma_is_word_lowercase(n1, ping_word());
    lemma_is_word_lowercase(n2, ping_word());
    lemma_is_word_lowercase(n1, echo_word());
    lemma_is_word_lowercase(n2, echo_word());
    lemma_is_word_lowercase(n1, get_word());
    lemma_is_word_lowercase(n2, get_word());
    lemma_is_word_lowercase(n1, set_word());
    lemma_is_word_lowercase(n2, set_word());
    lemma_is_word_lowercase(n1, rpush_word());
    lemma_is_word_lowercase(n2, rpush_word());
    lemma_is_word_lowercase(n1, lrange_word());
    lemma_is_word_lowercase(n2, lrange_word());
}

/// A name that lower-cases to a word of small ASCII letters is ASCII, so
/// UTF-8, and is that word in the handler's comparison.
proof fn lemma_word_name(name: Seq<u8>, w: Seq<u8>)
    requires
        ascii_lowercase(name) == w,
        forall|i: int| 0 <= i < w.len() ==> 97 <= #[trigger] w[i] <= 122,
    ensures
        valid_utf8(name),
        is_word(name, w),
{
    assert(is_ascii_bytes(name)) by {
        assert forall|i: int| 0 <= i < name.len() implies #[trigger] name[i] < 128 by {
            assert(ascii_lowercase(name)[i] == w[i]);
            assert(97 <= w[i] <= 122);
        }
    }
    lemma_ascii_utf8(name);
    lemma_is_word_lowercase(name, w);
}

/// PING answers PONG whatever follows it, in any letter case, and leaves the
/// store as it is.
pub proof fn law_ping_answers_pong(name: Seq<u8>, args: Seq<ValueModel>, db: Db, now: u128)
    requires
        ascii_lowercase(name) == seq![112u8, 105u8, 110u8, 103u8],
    ensures
        respond(request(name, args), db, now) == (Reply::Value(ValueModel::Str("PONG"@)), db),
{
    lemma_word_name(name, seq![112u8, 105u8, 110u8, 103u8]);
    lemma_args(name, args);
    assert(ping_word() =~= seq![112u8, 105u8, 110u8, 103u8]);
}

/// ECHO answers its first argument itself when it is a bulk string, null or
/// not, in any letter case, and leaves the store as it is.
pub proof fn law_echo_returns_argument(
    name: Seq<u8>,
    arg: ValueModel,
    rest: Seq<ValueModel>,
    db: Db,
    now: u128,
)
    requires
        ascii_lowercase(name) == seq![101u8, 99u8, 104u8, 111u8],
        arg is BulkStr,
    ensures
        respond(request(name, seq![arg] + rest), db, now) == (Reply::Value(arg), db),
{
    let w = seq![101u8, 99u8, 104u8, 111u8];
    lemma_word_name(name, w);
    lemma_args(name, seq![arg] + rest);
    assert(echo_word() =~= w);
    lemma_is_word_lowercase(name, ping_word());
    assert(w[0] != ping_word()[0]);
    assert((seq![arg] + rest)[0] == arg);
}

/// SET with an expiry option in any letter case: `px n` keeps the value
/// until `n` milliseconds after `now`, `ex n` until `n` seconds after it
/// (times in nanoseconds, held at the clock's largest time); SET answers OK.
pub proof fn law_set_expiry_any_case(
    db: Db,
    key: Seq<u8>,
    val: ValueModel,
    opt: Seq<u8>,
    n: u64,
    now: u128,
)
    requires
        ascii_lowercase(opt) == seq![112u8, 120u8] || ascii_lowercase(opt) == seq![101u8, 120u8],
    ensures
        ({
            let unit: nat = if ascii_lowercase(opt) == seq![112u8, 120u8] {
                1_000_000
            } else {
                1_000_000_000
            };
            let end: u128 = if now + n * unit > u128::MAX {
                u128::MAX
            } else {
                (now + n * unit) as u128
            };
            respond(
                request(set_word(), seq![bulk(key), val, bulk(opt), bulk(digits_of(n as nat))]),
                db,
                now,
            ) == (
                Reply::Value(ValueModel::Str("OK"@)),
                db.insert(key, EntryModel { value: val, expires_at: Some(end) }),
            )
        }),
{
    lemma_words();
    let args = seq![bulk(key), val, bulk(opt), bulk(digits_of(n as nat))];
    lemma_args(set_word(), args);
    lemma_digits_ascii(n as nat);
    lemma_ascii_utf8(digits_of(n as nat));
    lemma_parse_digits(n as nat, u64::MAX as nat);
    assert(u64_arg(bulk(digits_of(n as nat))) == Ok::<u64, Seq<char>>(n));
    let opts = args.subrange(2, args.len() as int);
    assert(opts =~= seq![bulk(opt), bulk(digits_of(n as nat))]);
    assert(px_word() =~= seq![112u8, 120u8]);
    assert(ex_word() =~= seq![101u8, 120u8]);
    lemma_is_word_lowercase(opt, px_word());
    lemma_is_word_lowercase(opt, ex_word());
    assert(px_word()[0] != ex_word()[0]);
}

/// LRANGE on a stored list with `0 <= start` and `0 <= stop` answers the
/// elements from `start` to `stop`, both included, with `stop` cut to the
/// list's last index: `min(stop, len - 1) - start + 1` of them, the `i`-th
/// being the list's element `start + i`; none when `start > stop` or
/// `start` is past the end. The store is left as it is.
pub proof fn law_lrange_range(
    db: Db,
    key: Seq<u8>,
    items: Seq<ValueModel>,
    start: i64,
    stop: i64,
    now: u128,
)
    requires
        db.contains_key(key),
        db[key].value == ValueModel::Arr(Some(items)),
        0 <= start,
        0 <= stop,
    ensures
        ({
            let (reply, after) = respond(
                request(
                    seq![108u8, 114u8, 97u8, 110u8, 103u8, 101u8],
                    seq![bulk(key), bulk(digits_of(start as nat)), bulk(digits_of(stop as nat))],
                ),
                db,
                now,
            );
            let last: int = if stop < items.len() {
                stop as int
            } else {
                items.len() - 1
            };
            &&& after == db
            &&& reply matches Reply::Value(ValueModel::Arr(Some(r)))
            &&& reply->Value_0->Arr_0->Some_0.len() == if start <= last {
                last - start + 1
            } else {
                0
            }
            &&& forall|i: int|
                0 <= i < reply->Value_0->Arr_0->Some_0.len() ==> #[trigger] reply->Value_0->Arr_0->Some_0[i]
                    == items[start + i]
        }),
{
    lemma_words();
    assert(lrange_word() =~= seq![108u8, 114u8, 97u8, 110u8, 103u8, 101u8]);
    let args = seq![bulk(key), bulk(digits_of(start as nat)), bulk(digits_of(stop as nat))];
    lemma_args(lrange_word(), args);
    lemma_index_arg(start);
    lemma_index_arg(stop);
    assert(stored_list(db, key) == Some(items));
}

} // verus!
