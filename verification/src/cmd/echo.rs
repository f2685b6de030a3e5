//! The echo command.

use vstd::prelude::*;
use vstd::slice::slice_to_vec;
use vstd::string::StringSliceAdditionalSpecFns;
use crate::backend::Backend;
use crate::cmd::{
    extract_args, names_view, parsed, strings_view, take_texts, text_args, validate_command,
    validation, CommandArgs, CommandError, CommandExecutor, CommandModel, Echo, Fault, NArgs,
};
use crate::resp::array::RespArray;
use crate::resp::bulk_string::BulkString;
use crate::resp::frame::{items_value, RespFrame};
use crate::resp::model::Value;

verus! {

impl CommandArgs for Echo {
    open spec fn arity() -> NArgs {
        NArgs::Equal(1)
    }

    fn expect_args() -> (r: NArgs) {
        NArgs::Equal(1)
    }
}

/// What a request says as an echo command: the name `echo` and one text.
pub open spec fn echo_of(items: Seq<Value>) -> Result<CommandModel, Fault> {
    match validation(NArgs::Equal(1), items, seq!["echo"@]) {
        Some(fault) => Err(fault),
        None => match text_args(items.subrange(1, 2), "Invalid key"@) {
            Err(fault) => Err(fault),
            Ok(texts) => Ok(CommandModel::Echo { message: texts[0] }),
        },
    }
}

impl TryFrom<RespArray> for Echo {
    type Error = CommandError;

    fn try_from(value: RespArray) -> (r: Result<Self, CommandError>)
        ensures
            parsed(r, echo_of(value@)),
    {
        let names: [&'static str; 1] = ["echo"];
        assert(names_view(names@) =~= seq!["echo"@]);
        match validate_command::<Echo>(&value, names.as_slice()) {
            Ok(_) => {},
            Err(e) => {
                return Err(e);
            },
        }
        let mut args = match extract_args(value, 1) {
            Ok(args) => args,
            Err(e) => {
                return Err(e);
            },
        };
        assert(items_value(args).len() == args.len());
        assert(value@.skip(1).subrange(0, 1) =~= value@.subrange(1, 2));
        let mut texts = match take_texts(&args, 0, 1, "Invalid key") {
            Ok(texts) => texts,
            Err(e) => {
                return Err(e);
            },
        };
        assert(strings_view(texts).len() == 1);
        assert(strings_view(texts)[0] == texts[0]@);
        let message = texts.remove(0);
        Ok(Echo { message })
    }
}

impl vstd::std_specs::convert::TryFromSpecImpl<RespArray> for Echo {
    open spec fn obeys_try_from_spec() -> bool {
        false
    }

    open spec fn try_from_spec(v: RespArray) -> Result<Self, Self::Error> {
        arbitrary()
    }
}

impl CommandExecutor for Echo {
    fn execute(&self, backend: &mut Backend) -> (reply: RespFrame) {
        RespFrame::BulkString(BulkString(Some(slice_to_vec(self.message.as_str().as_bytes()))))
    }
}

} // verus!
