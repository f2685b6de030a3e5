//! The commands on hashes: hget, hset, hgetall and hmget.

use vstd::prelude::*;
use vstd::slice::slice_to_vec;
use vstd::string::StringSliceAdditionalSpecFns;
use crate::cmd::{
    extract_args, names_view, parsed, strings_view, take_texts, text_args, validate_command,
    validation, CommandArgs, CommandError, CommandModel, Fault, HGet, HGetAll, HMGet, HSet, NArgs,
};

use crate::backend::{hash_of, Backend};
use crate::cmd::reply::{flattened, is_listing, lemma_listing_unique, lookup};
use crate::cmd::{resp_ok, CommandExecutor};
use crate::resp::array::RespArray;
use crate::resp::bulk_string::BulkString;
use crate::resp::frame::{pairs_value, RespFrame};
use crate::resp::grammar::insert_pair;
use crate::resp::map::{kept, lemma_insert_pair_keeps, RespMap};
use crate::resp::model::keys_ascend;
use crate::resp::null::RespNull;
use crate::resp::frame::items_value;
use crate::resp::model::Value;

verus! {

impl CommandArgs for HGet {
    open spec fn arity() -> NArgs {
        NArgs::Equal(2)
    }

    fn expect_args() -> (r: NArgs) {
        NArgs::Equal(2)
    }
}

/// What a request says as an hget command: the name `hget`, a key and a field.
pub open spec fn hget_of(items: Seq<Value>) -> Result<CommandModel, Fault> {
    match validation(NArgs::Equal(2), items, seq!["hget"@]) {
        Some(fault) => Err(fault),
        None => match text_args(items.subrange(1, 3), "Invalid key or field"@) {
            Err(fault) => Err(fault),
            Ok(texts) => Ok(CommandModel::HGet { key: texts[0], field: texts[1] }),
        },
    }
}

impl TryFrom<RespArray> for HGet {
    type Error = CommandError;

    fn try_from(value: RespArray) -> (r: Result<Self, CommandError>)
        ensures
            parsed(r, hget_of(value@)),
    {
        let names: [&'static str; 1] = ["hget"];
        assert(names_view(names@) =~= seq!["hget"@]);
        match validate_command::<HGet>(&value, names.as_slice()) {
            Ok(_) => {},
            Err(e) => {
                return Err(e);
            },
        }
        let mut args = match extract_args(value, 1) {
            Ok(args) => args,
            Err(e) => {
                return Err(e);
            },
        };
        assert(items_value(args).len() == args.len());
        assert(value@.skip(1).subrange(0, 2) =~= value@.subrange(1, 3));
        let mut texts = match take_texts(&args, 0, 2, "Invalid key or field") {
            Ok(texts) => texts,
            Err(e) => {
                return Err(e);
            },
        };
        assert(strings_view(texts).len() == 2);
        assert(strings_view(texts)[0] == texts[0]@);
        assert(strings_view(texts)[1] == texts[1]@);
        let field = texts.remove(1);
        let key = texts.remove(0);
        Ok(HGet { key, field })
    }
}

impl vstd::std_specs::convert::TryFromSpecImpl<RespArray> for HGet {
    open spec fn obeys_try_from_spec() -> bool {
        false
    }

    open spec fn try_from_spec(v: RespArray) -> Result<Self, Self::Error> {
        arbitrary()
    }
}

impl CommandArgs for HSet {
    open spec fn arity() -> NArgs {
        NArgs::Equal(3)
    }

    fn expect_args() -> (r: NArgs) {
        NArgs::Equal(3)
    }
}

/// What a request says as an hset command: the name `hset`, a key, a field and a frame.
pub open spec fn hset_of(items: Seq<Value>) -> Result<CommandModel, Fault> {
    match validation(NArgs::Equal(3), items, seq!["hset"@]) {
        Some(fault) => Err(fault),
        None => match text_args(items.subrange(1, 3), "Invalid key or field or value"@) {
            Err(fault) => Err(fault),
            Ok(texts) => Ok(CommandModel::HSet { key: texts[0], field: texts[1], value: items[3] }),
        },
    }
}

impl TryFrom<RespArray> for HSet {
    type Error = CommandError;

    fn try_from(value: RespArray) -> (r: Result<Self, CommandError>)
        ensures
            parsed(r, hset_of(value@)),
    {
        let names: [&'static str; 1] = ["hset"];
        assert(names_view(names@) =~= seq!["hset"@]);
        match validate_command::<HSet>(&value, names.as_slice()) {
            Ok(_) => {},
            Err(e) => {
                return Err(e);
            },
        }
        let mut args = match extract_args(value, 1) {
            Ok(args) => args,
            Err(e) => {
                return Err(e);
            },
        };
        assert(items_value(args).len() == args.len());
        assert(value@.skip(1).subrange(0, 2) =~= value@.subrange(1, 3));
        let mut texts = match take_texts(&args, 0, 2, "Invalid key or field or value") {
            Ok(texts) => texts,
            Err(e) => {
                return Err(e);
            },
        };
        assert(strings_view(texts).len() == 2);
        assert(strings_view(texts)[0] == texts[0]@);
        assert(strings_view(texts)[1] == texts[1]@);
        assert(items_value(args)[2] == args[2]@);
        let field = texts.remove(1);
        let key = texts.remove(0);
        let value = args.remove(2);
        Ok(HSet { key, field, value })
    }
}

impl vstd::std_specs::convert::TryFromSpecImpl<RespArray> for HSet {
    open spec fn obeys_try_from_spec() -> bool {
        false
    }

    open spec fn try_from_spec(v: RespArray) -> Result<Self, Self::Error> {
        arbitrary()
    }
}

impl CommandArgs for HGetAll {
    open spec fn arity() -> NArgs {
        NArgs::Equal(1)
    }

    fn expect_args() -> (r: NArgs) {
        NArgs::Equal(1)
    }
}

/// What a request says as an hgetall command: the name `hgetall` and a key.
pub open spec fn hgetall_of(items: Seq<Value>) -> Result<CommandModel, Fault> {
    match validation(NArgs::Equal(1), items, seq!["hgetall"@]) {
        Some(fault) => Err(fault),
        None => match text_args(items.subrange(1, 2), "Invalid key"@) {
            Err(fault) => Err(fault),
            Ok(texts) => Ok(CommandModel::HGetAll { key: texts[0] }),
        },
    }
}

impl TryFrom<RespArray> for HGetAll {
    type Error = CommandError;

    fn try_from(value: RespArray) -> (r: Result<Self, CommandError>)
        ensures
            parsed(r, hgetall_of(value@)),
    {
        let names: [&'static str; 1] = ["hgetall"];
        assert(names_view(names@) =~= seq!["hgetall"@]);
        match validate_command::<HGetAll>(&value, names.as_slice()) {
            Ok(_) => {},
            Err(e) => {
                return Err(e);
            },
        }
        let mut args = match extract_args(value, 1) {
            Ok(args) => args,
            Err(e) => {
                return Err(e);
            },
        };
        assert(items_value(args).len() == args.len());
        assert(value@.skip(1).subrange(0, 1) =~= value@.subrange(1, 2));
        let mut texts = match take_texts(&args, 0, 1, "Invalid key") {
            Ok(texts) => texts,
            Err(e) => {
                return Err(e);
            },
        };
        assert(strings_view(texts).len() == 1);
        assert(strings_view(texts)[0] == texts[0]@);
        let key = texts.remove(0);
        Ok(HGetAll { key })
    }
}

impl vstd::std_specs::convert::TryFromSpecImpl<RespArray> for HGetAll {
    open spec fn obeys_try_from_spec() -> bool {
        false
    }

    open spec fn try_from_spec(v: RespArray) -> Result<Self, Self::Error> {
        arbitrary()
    }
}

impl CommandArgs for HMGet {
    open spec fn arity() -> NArgs {
        NArgs::GreaterAndEqual(2)
    }

    fn expect_args() -> (r: NArgs) {
        NArgs::GreaterAndEqual(2)
    }
}

/// What a request says as an hmget command: the name `hmget`, a key and one field or more.
pub open spec fn hmget_of(items: Seq<Value>) -> Result<CommandModel, Fault> {
    match validation(NArgs::GreaterAndEqual(2), items, seq!["hmget"@]) {
        Some(fault) => Err(fault),
        None => match text_args(items.skip(1), "Invalid key or fields"@) {
            Err(fault) => Err(fault),
            Ok(texts) => Ok(CommandModel::HMGet { key: texts[0], fields: texts.skip(1) }),
        },
    }
}

impl TryFrom<RespArray> for HMGet {
    type Error = CommandError;

    fn try_from(value: RespArray) -> (r: Result<Self, CommandError>)
        ensures
            parsed(r, hmget_of(value@)),
    {
        let names: [&'static str; 1] = ["hmget"];
        assert(names_view(names@) =~= seq!["hmget"@]);
        match validate_command::<HMGet>(&value, names.as_slice()) {
            Ok(_) => {},
            Err(e) => {
                return Err(e);
            },
        }
        let mut args = match extract_args(value, 1) {
            Ok(args) => args,
            Err(e) => {
                return Err(e);
            },
        };
        assert(items_value(args).len() == args.len());
        assert(value@.skip(1).subrange(0, value@.len() - 1) =~= value@.skip(1));
        let mut texts = match take_texts(&args, 0, args.len(), "Invalid key or fields") {
            Ok(texts) => texts,
            Err(e) => {
                return Err(e);
            },
        };
        assert(strings_view(texts).len() >= 2);
        assert(strings_view(texts)[0] == texts[0]@);
        let ghost all = strings_view(texts);
        let key = texts.remove(0);
        assert(strings_view(texts) =~= all.skip(1));
        Ok(HMGet { key, fields: texts })
    }
}

impl vstd::std_specs::convert::TryFromSpecImpl<RespArray> for HMGet {
    open spec fn obeys_try_from_spec() -> bool {
        false
    }

    open spec fn try_from_spec(v: RespArray) -> Result<Self, Self::Error> {
        arbitrary()
    }
}

impl CommandExecutor for HGet {
    fn execute(&self, backend: &mut Backend) -> (reply: RespFrame) {
        match backend.hget(self.key.as_str(), self.field.clone()) {
            Some(value) => value,
            None => RespFrame::Null(RespNull),
        }
    }
}

impl CommandExecutor for HSet {
    fn execute(&self, backend: &mut Backend) -> (reply: RespFrame) {
        backend.hset(self.key.clone(), self.field.clone(), self.value.duplicate());
        resp_ok()
    }
}

/// The pair is one of the pairs from place `from` on.
pub open spec fn listed(pairs: Seq<(Seq<char>, Value)>, from: int, p: (Seq<char>, Value)) -> bool {
    exists|k: int| from <= k < pairs.len() && #[trigger] pairs[k] == p
}

/// No key comes twice among the pairs.
pub open spec fn distinct_keys(pairs: Seq<(Seq<char>, Value)>) -> bool {
    forall|i: int, j: int|
        0 <= i < j < pairs.len() ==> (#[trigger] pairs[i]).0 != (#[trigger] pairs[j]).0
}

/// Puts the entries of a hash in the order of their fields.
pub(crate) fn sort_entries(entries: Vec<(String, RespFrame)>) -> (sorted: RespMap)
    requires
        distinct_keys(pairs_value(entries)),
    ensures
        keys_ascend(sorted@),
        forall|p: (Seq<char>, Value)| #[trigger]
            sorted@.contains(p) <==> listed(pairs_value(entries), 0, p),
{
    let ghost all = pairs_value(entries);
    let mut rest = entries;
    let mut sorted = RespMap::new();
    assert forall|p: (Seq<char>, Value)| #[trigger] sorted@.contains(p) <==> listed(
        all,
        rest.len() as int,
        p,
    ) by {}
    while rest.len() > 0
        invariant
            rest.len() <= all.len(),
            distinct_keys(all),
            forall|k: int| 0 <= k < rest.len() ==> #[trigger] all[k] == (rest[k].0@, rest[k].1@),
            keys_ascend(sorted@),
            forall|p: (Seq<char>, Value)| #[trigger]
                sorted@.contains(p) <==> listed(all, rest.len() as int, p),
        decreases rest.len(),
    {
        let ghost n = rest.len() as int;
        let ghost before = sorted@;
        let ghost held = rest@;
        match rest.pop() {
            Some(entry) => {
                let (key, value) = entry;
                let ghost e = (key@, value@);
                assert(held[n - 1] == entry);
                assert(all[n - 1] == e);
                proof {
                    lemma_insert_pair_keeps(before, e.0, e.1);
                }
                sorted.insert(key, value);
                assert forall|k: int| 0 <= k < rest.len() implies #[trigger] all[k] == (
                    rest[k].0@,
                    rest[k].1@,
                ) by {
                    assert(rest[k] == held[k]);
                }
                assert forall|p: (Seq<char>, Value)| #[trigger] sorted@.contains(p) <==> listed(
                    all,
                    n - 1,
                    p,
                ) by {
                    assert(sorted@ == insert_pair(before, e.0, e.1));
                    assert(insert_pair(before, e.0, e.1).contains(p) <==> kept(before, e.0, e.1, p));
                    assert(sorted@.contains(p) <==> p == e || (before.contains(p) && p.0 != e.0));
                    assert(before.contains(p) <==> listed(all, n, p));
                    if sorted@.contains(p) {
                        if p != e {
                            assert(before.contains(p));
                            assert(listed(all, n, p));
                            let k = choose|k: int| n <= k < all.len() && #[trigger] all[k] == p;
                            assert(all[k] == p);
                            assert(listed(all, n - 1, p));
                        } else {
                            assert(all[n - 1] == p);
                            assert(listed(all, n - 1, p));
                        }
                    }
                    if listed(all, n - 1, p) {
                        let k = choose|k: int| n - 1 <= k < all.len() && #[trigger] all[k] == p;
                        if k == n - 1 {
                            assert(p == e);
                            assert(sorted@.contains(p));
                        } else {
                            assert(all[k] == p);
                            assert(listed(all, n, p));
                            assert(before.contains(p));
                            assert(all[n - 1].0 != all[k].0);
                            assert(sorted@.contains(p));
                        }
                    }
                }
            },
            None => {},
        }
    }
    sorted
}

/// The pairs as one vector: each field as a bulk string, then its frame.
pub fn flatten(sorted: &RespMap) -> (flat: Vec<RespFrame>)
    ensures
        crate::resp::frame::items_value(flat) == flattened(sorted@),
{
    let mut flat: Vec<RespFrame> = Vec::new();
    let mut i: usize = 0;
    while i < sorted.0.len()
        invariant
            i <= sorted.0.len(),
            flat.len() == 2 * i,
            sorted@.len() == sorted.0.len(),
            forall|k: int|
                0 <= k < 2 * i ==> (#[trigger] flat[k])@ == flattened(sorted@)[k],
        decreases sorted.0.len() - i,
    {
        let field = RespFrame::BulkString(
            BulkString(Some(slice_to_vec(sorted.0[i].0.as_str().as_bytes()))),
        );
        let value = sorted.0[i].1.duplicate();
        assert(sorted@[i as int] == (sorted.0[i as int].0@, sorted.0[i as int].1@));
        assert(field@ == flattened(sorted@)[2 * i]);
        assert(value@ == flattened(sorted@)[2 * i + 1]);
        flat.push(field);
        flat.push(value);
        i += 1;
    }
    assert(crate::resp::frame::items_value(flat) =~= flattened(sorted@));
    flat
}

impl CommandExecutor for HGetAll {
    fn execute(&self, backend: &mut Backend) -> (reply: RespFrame) {
        let entries = match backend.hgetall(self.key.as_str()) {
            Some(entries) => entries,
            None => {
                let none = RespArray(Vec::new());
                assert(none@ =~= Seq::<Value>::empty());
                return RespFrame::Array(none);
            },
        };
        let ghost hash = backend@.hashes[self.key@];
        let ghost all = pairs_value(entries);
        assert(distinct_keys(all)) by {
            assert forall|i: int, j: int| 0 <= i < j < all.len() implies (#[trigger] all[i]).0 != (
            #[trigger] all[j]).0 by {
                assert(entries[i].0@ != entries[j].0@);
            }
        }
        let total: usize = entries.len();
        let sorted = sort_entries(entries);
        proof {
            assert forall|i: int| 0 <= i < sorted@.len() implies hash.contains_key(
                (#[trigger] sorted@[i]).0,
            ) && hash[sorted@[i].0] == sorted@[i].1 by {
                let p = sorted@[i];
                assert(sorted@.contains(p));
                assert(listed(all, 0, p));
                let k = choose|k: int| 0 <= k < all.len() && #[trigger] all[k] == p;
                assert(all[k] == (entries[k].0@, entries[k].1@));
                assert(hash.contains_key(entries[k].0@));
            }
            assert forall|field: Seq<char>| #[trigger] hash.contains_key(field) implies exists|
                i: int,
            |
                0 <= i < sorted@.len() && (#[trigger] sorted@[i]).0 == field by {
                let k = choose|k: int| 0 <= k < entries.len() && (#[trigger] entries[k]).0@ == field;
                let p = all[k];
                assert(listed(all, 0, p));
                assert(sorted@.contains(p));
                let i = choose|i: int| 0 <= i < sorted@.len() && sorted@[i] == p;
                assert(sorted@[i].0 == field);
            }
            assert(is_listing(hash, sorted@));
            lemma_listing_unique(hash, sorted@, sorted@);
        }
        RespFrame::Array(RespArray(flatten(&sorted)))
    }
}

impl CommandExecutor for HMGet {
    fn execute(&self, backend: &mut Backend) -> (reply: RespFrame) {
        let mut found: Vec<RespFrame> = Vec::new();
        let mut i: usize = 0;
        let ghost hash = hash_of(backend@, self.key@);
        while i < self.fields.len()
            invariant
                i <= self.fields.len(),
                found.len() == i,
                backend@ == old(backend)@,
                hash == hash_of(backend@, self.key@),
                forall|k: int| 0 <= k < i ==> (#[trigger] found[k])@ == lookup(hash, self.fields[k]@),
            decreases self.fields.len() - i,
        {
            let value = match backend.hget(self.key.as_str(), self.fields[i].clone()) {
                Some(value) => value,
                None => RespFrame::Null(RespNull),
            };
            found.push(value);
            i += 1;
        }
        let reply = RespFrame::Array(RespArray(found));
        assert(reply@ =~= reply_of_hmget(hash, crate::cmd::strings_view(self.fields))) by {
            assert(crate::resp::frame::items_value(found) =~= Seq::new(
                self.fields.len() as nat,
                |i: int| lookup(hash, crate::cmd::strings_view(self.fields)[i]),
            ));
        }
        reply
    }
}

/// The reply to an hmget: the value of each field that was asked for, in the order asked.
pub open spec fn reply_of_hmget(hash: Map<Seq<char>, Value>, fields: Seq<Seq<char>>) -> Value {
    Value::Array(Seq::new(fields.len(), |i: int| lookup(hash, fields[i])))
}

} // verus!
