//! The commands on plain keys: get and set.

use vstd::prelude::*;
use crate::backend::Backend;
use crate::cmd::{
    extract_args, names_view, parsed, resp_ok, strings_view, take_texts, text_args,
    validate_command, validation, CommandArgs, CommandError, CommandExecutor, CommandModel, Fault,
    Get, NArgs, SetCmd,
};
use crate::resp::array::RespArray;
use crate::resp::frame::{items_value, RespFrame};
use crate::resp::model::Value;
use crate::resp::null::RespNull;

verus! {

impl CommandArgs for Get {
    open spec fn arity() -> NArgs {
        NArgs::Equal(1)
    }

    fn expect_args() -> (r: NArgs) {
        NArgs::Equal(1)
    }
}

/// What a request says as a get command: the name `get` and a key.
pub open spec fn get_of(items: Seq<Value>) -> Result<CommandModel, Fault> {
    match validation(NArgs::Equal(1), items, seq!["get"@]) {
        Some(fault) => Err(fault),
        None => match text_args(items.subrange(1, 2), "Invalid key"@) {
            Err(fault) => Err(fault),
            Ok(texts) => Ok(CommandModel::Get { key: texts[0] }),
        },
    }
}

impl TryFrom<RespArray> for Get {
    type Error = CommandError;

    fn try_from(value: RespArray) -> (r: Result<Self, CommandError>)
        ensures
            parsed(r, get_of(value@)),
    {
        let names: [&'static str; 1] = ["get"];
        assert(names_view(names@) =~= seq!["get"@]);
        match validate_command::<Get>(&value, names.as_slice()) {
            Ok(_) => {},
            Err(e) => {
                return Err(e);
            },
        }
        let mut args = match extract_args(value, 1) {
            Ok(args) => args,
            Err(e) => {
                return Err(e);
            },
        };
        assert(items_value(args).len() == args.len());
        assert(value@.skip(1).subrange(0, 1) =~= value@.subrange(1, 2));
        let mut texts = match take_texts(&args, 0, 1, "Invalid key") {
            Ok(texts) => texts,
            Err(e) => {
                return Err(e);
            },
        };
        assert(strings_view(texts).len() == 1);
        assert(strings_view(texts)[0] == texts[0]@);
        let key = texts.remove(0);
        Ok(Get { key })
    }
}

impl vstd::std_specs::convert::TryFromSpecImpl<RespArray> for Get {
    open spec fn obeys_try_from_spec() -> bool {
        false
    }

    open spec fn try_from_spec(v: RespArray) -> Result<Self, Self::Error> {
        arbitrary()
    }
}

impl CommandArgs for SetCmd {
    open spec fn arity() -> NArgs {
        NArgs::Equal(2)
    }

    fn expect_args() -> (r: NArgs) {
        NArgs::Equal(2)
    }
}

/// What a request says as a set command: the name `set`, a key and a frame.
pub open spec fn set_of(items: Seq<Value>) -> Result<CommandModel, Fault> {
    match validation(NArgs::Equal(2), items, seq!["set"@]) {
        Some(fault) => Err(fault),
        None => match text_args(items.subrange(1, 2), "Invalid key or value"@) {
            Err(fault) => Err(fault),
            Ok(texts) => Ok(CommandModel::SetCmd { key: texts[0], value: items[2] }),
        },
    }
}

impl TryFrom<RespArray> for SetCmd {
    type Error = CommandError;

    fn try_from(value: RespArray) -> (r: Result<Self, CommandError>)
        ensures
            parsed(r, set_of(value@)),
    {
        let names: [&'static str; 1] = ["set"];
        assert(names_view(names@) =~= seq!["set"@]);
        match validate_command::<SetCmd>(&value, names.as_slice()) {
            Ok(_) => {},
            Err(e) => {
                return Err(e);
            },
        }
        let mut args = match extract_args(value, 1) {
            Ok(args) => args,
            Err(e) => {
                return Err(e);
            },
        };
        assert(items_value(args).len() == args.len());
        assert(value@.skip(1).subrange(0, 1) =~= value@.subrange(1, 2));
        let mut texts = match take_texts(&args, 0, 1, "Invalid key or value") {
            Ok(texts) => texts,
            Err(e) => {
                return Err(e);
            },
        };
        assert(strings_view(texts).len() == 1);
        assert(strings_view(texts)[0] == texts[0]@);
        assert(items_value(args)[1] == args[1]@);
        let key = texts.remove(0);
        let value = args.remove(1);
        Ok(SetCmd { key, value })
    }
}

impl vstd::std_specs::convert::TryFromSpecImpl<RespArray> for SetCmd {
    open spec fn obeys_try_from_spec() -> bool {
        false
    }

    open spec fn try_from_spec(v: RespArray) -> Result<Self, Self::Error> {
        arbitrary()
    }
}

impl CommandExecutor for Get {
    fn execute(&self, backend: &mut Backend) -> (reply: RespFrame) {
        match backend.get(self.key.as_str()) {
            Some(value) => value,
            None => RespFrame::Null(RespNull),
        }
    }
}

impl CommandExecutor for SetCmd {
    fn execute(&self, backend: &mut Backend) -> (reply: RespFrame) {
        backend.set(self.key.clone(), self.value.duplicate());
        resp_ok()
    }
}

} // verus!
