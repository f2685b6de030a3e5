//! The commands on sets: sadd, sismember and smembers.

use vstd::prelude::*;
use crate::backend::{has_member, Backend};
use crate::cmd::{
    extract_args, names_view, parsed, strings_view, take_texts, text_args, validate_command,
    validation, CommandArgs, CommandError, CommandExecutor, CommandModel, Fault, NArgs, SAdd,
    Sismember, SMembers,
};
use crate::resp::array::RespArray;
use crate::resp::frame::{duplicate_items, items_value, push_frame, RespFrame};
use crate::resp::model::{wire, Value};
use crate::resp::simple_error::SimpleError;

verus! {

impl CommandArgs for SAdd {
    open spec fn arity() -> NArgs {
        NArgs::GreaterAndEqual(2)
    }

    fn expect_args() -> (r: NArgs) {
        NArgs::GreaterAndEqual(2)
    }
}

/// What a request says as an sadd command: the name `sadd`, a key and one frame or more.
pub open spec fn sadd_of(items: Seq<Value>) -> Result<CommandModel, Fault> {
    match validation(NArgs::GreaterAndEqual(2), items, seq!["sadd"@]) {
        Some(fault) => Err(fault),
        None => match text_args(items.subrange(1, 2), "Invalid key or values"@) {
            Err(fault) => Err(fault),
            Ok(texts) => Ok(CommandModel::SAdd { key: texts[0], values: items.skip(2) }),
        },
    }
}

impl TryFrom<RespArray> for SAdd {
    type Error = CommandError;

    fn try_from(value: RespArray) -> (r: Result<Self, CommandError>)
        ensures
            parsed(r, sadd_of(value@)),
    {
        let names: [&'static str; 1] = ["sadd"];
        assert(names_view(names@) =~= seq!["sadd"@]);
        match validate_command::<SAdd>(&value, names.as_slice()) {
            Ok(_) => {},
            Err(e) => {
                return Err(e);
            },
        }
        let mut args = match extract_args(value, 1) {
            Ok(args) => args,
            Err(e) => {
                return Err(e);
            },
        };
        assert(items_value(args).len() == args.len());
        assert(value@.skip(1).subrange(0, 1) =~= value@.subrange(1, 2));
        let mut texts = match take_texts(&args, 0, 1, "Invalid key or values") {
            Ok(texts) => texts,
            Err(e) => {
                return Err(e);
            },
        };
        assert(strings_view(texts).len() == 1);
        assert(strings_view(texts)[0] == texts[0]@);
        let key = texts.remove(0);
        let ghost all = items_value(args);
        let values = args.split_off(1);
        assert(items_value(values) =~= all.skip(1));
        assert(all.skip(1) =~= value@.skip(2));
        Ok(SAdd { key, values })
    }
}

impl vstd::std_specs::convert::TryFromSpecImpl<RespArray> for SAdd {
    open spec fn obeys_try_from_spec() -> bool {
        false
    }

    open spec fn try_from_spec(v: RespArray) -> Result<Self, Self::Error> {
        arbitrary()
    }
}

impl CommandArgs for Sismember {
    open spec fn arity() -> NArgs {
        NArgs::Equal(2)
    }

    fn expect_args() -> (r: NArgs) {
        NArgs::Equal(2)
    }
}

/// What a request says as a sismember command: the name `sismember`, a key and a frame.
pub open spec fn sismember_of(items: Seq<Value>) -> Result<CommandModel, Fault> {
    match validation(NArgs::Equal(2), items, seq!["sismember"@]) {
        Some(fault) => Err(fault),
        None => match text_args(items.subrange(1, 2), "Invalid key or value"@) {
            Err(fault) => Err(fault),
            Ok(texts) => Ok(CommandModel::Sismember { key: texts[0], value: items[2] }),
        },
    }
}

impl TryFrom<RespArray> for Sismember {
    type Error = CommandError;

    fn try_from(value: RespArray) -> (r: Result<Self, CommandError>)
        ensures
            parsed(r, sismember_of(value@)),
    {
        let names: [&'static str; 1] = ["sismember"];
        assert(names_view(names@) =~= seq!["sismember"@]);
        match validate_command::<Sismember>(&value, names.as_slice()) {
            Ok(_) => {},
            Err(e) => {
                return Err(e);
            },
        }
        let mut args = match extract_args(value, 1) {
            Ok(args) => args,
            Err(e) => {
                return Err(e);
            },
        };
        assert(items_value(args).len() == args.len());
        assert(value@.skip(1).subrange(0, 1) =~= value@.subrange(1, 2));
        let mut texts = match take_texts(&args, 0, 1, "Invalid key or value") {
            Ok(texts) => texts,
            Err(e) => {
                return Err(e);
            },
        };
        assert(strings_view(texts).len() == 1);
        assert(strings_view(texts)[0] == texts[0]@);
        assert(items_value(args)[1] == args[1]@);
        let key = texts.remove(0);
        let value = args.remove(1);
        Ok(Sismember { key, value })
    }
}

impl vstd::std_specs::convert::TryFromSpecImpl<RespArray> for Sismember {
    open spec fn obeys_try_from_spec() -> bool {
        false
    }

    open spec fn try_from_spec(v: RespArray) -> Result<Self, Self::Error> {
        arbitrary()
    }
}

impl CommandArgs for SMembers {
    open spec fn arity() -> NArgs {
        NArgs::Equal(1)
    }

    fn expect_args() -> (r: NArgs) {
        NArgs::Equal(1)
    }
}

/// What a request says as an smembers command: the name `smembers` and a key.
pub open spec fn smembers_of(items: Seq<Value>) -> Result<CommandModel, Fault> {
    match validation(NArgs::Equal(1), items, seq!["smembers"@]) {
        Some(fault) => Err(fault),
        None => match text_args(items.subrange(1, 2), "Invalid key"@) {
            Err(fault) => Err(fault),
            Ok(texts) => Ok(CommandModel::SMembers { key: texts[0] }),
        },
    }
}

impl TryFrom<RespArray> for SMembers {
    type Error = CommandError;

    fn try_from(value: RespArray) -> (r: Result<Self, CommandError>)
        ensures
            parsed(r, smembers_of(value@)),
    {
        let names: [&'static str; 1] = ["smembers"];
        assert(names_view(names@) =~= seq!["smembers"@]);
        match validate_command::<SMembers>(&value, names.as_slice()) {
            Ok(_) => {},
            Err(e) => {
                return Err(e);
            },
        }
        let mut args = match extract_args(value, 1) {
            Ok(args) => args,
            Err(e) => {
                return Err(e);
            },
        };
        assert(items_value(args).len() == args.len());
        assert(value@.skip(1).subrange(0, 1) =~= value@.subrange(1, 2));
        let mut texts = match take_texts(&args, 0, 1, "Invalid key") {
            Ok(texts) => texts,
            Err(e) => {
                return Err(e);
            },
        };
        assert(strings_view(texts).len() == 1);
        assert(strings_view(texts)[0] == texts[0]@);
        let key = texts.remove(0);
        Ok(SMembers { key })
    }
}

impl vstd::std_specs::convert::TryFromSpecImpl<RespArray> for SMembers {
    open spec fn obeys_try_from_spec() -> bool {
        false
    }

    open spec fn try_from_spec(v: RespArray) -> Result<Self, Self::Error> {
        arbitrary()
    }
}

impl CommandExecutor for SAdd {
    fn execute(&self, backend: &mut Backend) -> (reply: RespFrame) {
        match backend.sadd(self.key.clone(), duplicate_items(&self.values)) {
            Ok(added) => {
                if added as u64 > i64::MAX as u64 {
                    RespFrame::Integer(i64::MAX)
                } else {
                    RespFrame::Integer(added as i64)
                }
            },
            Err(e) => RespFrame::Error(SimpleError(e.to_text())),
        }
    }
}

impl CommandExecutor for Sismember {
    fn execute(&self, backend: &mut Backend) -> (reply: RespFrame) {
        let list = match backend.smembers(self.key.as_str()) {
            Some(list) => list,
            None => {
                return RespFrame::Integer(0);
            },
        };
        let mut encoded: Vec<u8> = Vec::new();
        push_frame(&self.value, &mut encoded);
        assert(encoded@ =~= wire(self.value@));
        if has_member(&list, encoded.as_slice()) {
            RespFrame::Integer(1)
        } else {
            RespFrame::Integer(0)
        }
    }
}

impl CommandExecutor for SMembers {
    fn execute(&self, backend: &mut Backend) -> (reply: RespFrame) {
        match backend.smembers(self.key.as_str()) {
            Some(list) => RespFrame::Array(RespArray(list)),
            None => {
                let none = RespArray(Vec::new());
                assert(none@ =~= Seq::<Value>::empty());
                RespFrame::Array(none)
            },
        }
    }
}

} // verus!
