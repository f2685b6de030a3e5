//! The commands: what a request frame asks for, and how it is checked.

pub mod echo;
pub mod hmap;
pub mod map;
pub mod reply;
pub mod smap;

use vstd::prelude::*;
use vstd::string::{StringExecFns, StringSliceAdditionalSpecFns};
use vstd::utf8::{decode_utf8, encode_utf8, valid_utf8};
use std::string::FromUtf8Error;
use crate::backend::Backend;
use crate::cmd::reply::{ok_reply, reply_of, store_after};
use crate::resp::RespError;
use crate::resp::array::RespArray;
use crate::resp::decimal::nat_digits;
use crate::resp::frame::{items_value, RespFrame};
use crate::resp::grammar::Failure;
use crate::resp::model::Value;
use crate::resp::simple_string::SimpleString;
use crate::resp::text::{
    as_chars, decimal_string, lower, lower_text, text_from_utf8, utf8_error_words,
};

verus! {

/// Why a request is no command, as a mathematical value.
pub enum Fault {
    /// The request frame itself is malformed; the words say how.
    InvalidCommand(Seq<char>),
    /// An argument is missing, too many, or of the wrong kind; the words say which.
    InvalidArgument(Seq<char>),
    /// Reading a frame failed.
    Resp(Failure),
    /// A key or a field is not UTF-8.
    Utf8,
}

/// Why a request is no command.
#[derive(Debug)]
pub enum CommandError {
    /// The request frame itself is malformed.
    InvalidCommand(String),
    /// An argument is missing, too many, or of the wrong kind.
    InvalidArgument(String),
    /// Reading a frame failed.
    RespError(RespError),
    /// A key or a field is not UTF-8.
    FromUtf8Error(FromUtf8Error),
}

impl View for CommandError {
    type V = Fault;

    open spec fn view(&self) -> Fault {
        match self {
            CommandError::InvalidCommand(words) => Fault::InvalidCommand(words@),
            CommandError::InvalidArgument(words) => Fault::InvalidArgument(words@),
            CommandError::RespError(e) => Fault::Resp(e@),
            CommandError::FromUtf8Error(_) => Fault::Utf8,
        }
    }
}

/// The words of a fault, as they are shown to a reader. Of bytes that are
/// not UTF-8 they are the opening words only: the rest says where the bytes
/// went wrong.
pub open spec fn fault_words(fault: Fault) -> Seq<char> {
    match fault {
        Fault::InvalidCommand(words) => "Invalid command: "@ + words,
        Fault::InvalidArgument(words) => "Invalid argument: "@ + words,
        Fault::Resp(_) => Seq::empty(),
        Fault::Utf8 => "FromUtf8 error: "@,
    }
}

impl CommandError {
    /// The words of the error, as they are shown to a reader.
    pub open spec fn text(&self) -> Seq<char> {
        match self {
            CommandError::RespError(e) => e.text(),
            _ => fault_words(self@),
        }
    }

    /// The words of the error, as they are shown to a reader. For bytes that
    /// are not UTF-8 the standard library's words follow the opening words.
    pub fn to_text(&self) -> (r: String)
        ensures
            !(self is FromUtf8Error) ==> r@ == self.text(),
            self is FromUtf8Error ==> self.text().is_prefix_of(r@),
    {
        match self {
            CommandError::InvalidCommand(words) => String::from_str("Invalid command: ").concat(
                words.as_str(),
            ),
            CommandError::InvalidArgument(words) => String::from_str("Invalid argument: ").concat(
                words.as_str(),
            ),
            CommandError::RespError(e) => e.to_text(),
            CommandError::FromUtf8Error(e) => {
                let words = utf8_error_words(e);
                let r = String::from_str("FromUtf8 error: ").concat(words.as_str());
                assert(r@.subrange(0, "FromUtf8 error: "@.len() as int) =~= "FromUtf8 error: "@);
                r
            },
        }
    }
}

impl From<RespError> for CommandError {
    fn from(e: RespError) -> (r: Self)
        ensures
            r == CommandError::RespError(e),
    {
        CommandError::RespError(e)
    }
}

impl vstd::std_specs::convert::FromSpecImpl<RespError> for CommandError {
    open spec fn obeys_from_spec() -> bool {
        true
    }

    open spec fn from_spec(v: RespError) -> Self {
        CommandError::RespError(v)
    }
}

impl From<FromUtf8Error> for CommandError {
    fn from(e: FromUtf8Error) -> (r: Self)
        ensures
            r == CommandError::FromUtf8Error(e),
    {
        CommandError::FromUtf8Error(e)
    }
}

impl vstd::std_specs::convert::FromSpecImpl<FromUtf8Error> for CommandError {
    open spec fn obeys_from_spec() -> bool {
        true
    }

    open spec fn from_spec(v: FromUtf8Error) -> Self {
        CommandError::FromUtf8Error(v)
    }
}

/// How many arguments a command takes behind its name.
#[derive(Debug, Clone, Copy, PartialEq, Eq)]
pub enum NArgs {
    /// Exactly so many.
    Equal(usize),
    /// So many or more.
    GreaterAndEqual(usize),
}

/// A command that knows how many arguments it takes.
pub trait CommandArgs {
    /// The number of arguments that the command takes.
    spec fn arity() -> NArgs;

    /// The number of arguments that the command takes.
    fn expect_args() -> (r: NArgs)
        ensures
            r == Self::arity(),
    ;
}

/// A command that can be run against the store.
pub trait CommandExecutor: View<V = CommandModel> {
    /// Runs the command: replies with a frame and leaves the store as the
    /// command asks.
    fn execute(&self, backend: &mut Backend) -> (reply: RespFrame)
        ensures
            reply@ == reply_of(self@, old(backend)@),
            final(backend)@ == store_after(self@, old(backend)@),
    ;
}

/// The acknowledgment: the simple string `OK`.
pub fn resp_ok() -> (r: RespFrame)
    ensures
        r@ == ok_reply(),
{
    RespFrame::SimpleString(SimpleString(String::from_str("OK")))
}

/// A request of `len` frames, the name among them, has the right number of arguments.
pub open spec fn arity_met(args: NArgs, len: nat) -> bool {
    match args {
        NArgs::Equal(n) => len == n + 1,
        NArgs::GreaterAndEqual(n) => len >= n + 1,
    }
}

/// The names of a command, with a blank between each two.
pub open spec fn joined(names: Seq<Seq<char>>) -> Seq<char>
    decreases names.len(),
{
    if names.len() == 0 {
        Seq::empty()
    } else if names.len() == 1 {
        names[0]
    } else {
        joined(names.drop_last()) + " "@ + names.last()
    }
}

/// The words for a request with the wrong number of arguments: they name
/// the command and the number it takes.
pub open spec fn arity_words(args: NArgs, names: Seq<Seq<char>>) -> Seq<char> {
    match args {
        NArgs::Equal(n) => joined(names) + " command must have exactly "@ + as_chars(
            nat_digits(n as nat),
        ) + " argument"@,
        NArgs::GreaterAndEqual(n) => joined(names) + " command must have at least "@ + as_chars(
            nat_digits(n as nat),
        ) + " argument"@,
    }
}

/// The first fault among the name tokens of a request, from token `i` on:
/// each must be a bulk string that spells the name in any mix of cases.
pub open spec fn name_fault(items: Seq<Value>, names: Seq<Seq<char>>, i: int) -> Option<Fault>
    decreases names.len() - i,
{
    if i < 0 || i >= names.len() {
        None
    } else if i >= items.len() {
        Some(Fault::InvalidArgument("command name must be a BulkString"@))
    } else {
        match items[i] {
            Value::BulkString(Some(bytes)) => if lower_text(bytes) == encode_utf8(names[i]) {
                name_fault(items, names, i + 1)
            } else {
                Some(Fault::InvalidArgument("Invalid command: expected "@ + names[i]))
            },
            _ => Some(Fault::InvalidArgument("command name must be a BulkString"@)),
        }
    }
}

/// The fault of a request against a command's names and number of
/// arguments, if it has one: the number is looked at first, then the names.
pub open spec fn validation(args: NArgs, items: Seq<Value>, names: Seq<Seq<char>>) -> Option<Fault> {
    if !arity_met(args, items.len()) {
        Some(Fault::InvalidArgument(arity_words(args, names)))
    } else {
        name_fault(items, names, 0)
    }
}

/// The texts of name tokens.
pub open spec fn names_view(names: Seq<&'static str>) -> Seq<Seq<char>> {
    Seq::new(names.len(), |i: int| names[i]@)
}

/// Joins the names of a command with a blank between each two.
pub fn join_names(names: &[&'static str]) -> (r: String)
    ensures
        r@ == joined(names_view(names@)),
{
    let ghost texts = names_view(names@);
    let mut out = String::new();
    let mut i: usize = 0;
    assert(texts.take(0) =~= Seq::<Seq<char>>::empty());
    while i < names.len()
        invariant
            i <= names@.len(),
            texts == names_view(names@),
            out@ == joined(texts.take(i as int)),
        decreases names@.len() - i,
    {
        if i > 0 {
            out.append(" ");
        }
        out.append(names[i]);
        proof {
            let next = texts.take(i + 1);
            assert(next.drop_last() =~= texts.take(i as int));
            assert(next.last() == names@[i as int]@);
            if i == 0 {
                assert(out@ =~= names@[0]@);
            }
        }
        i += 1;
    }
    assert(texts.take(names@.len() as int) =~= texts);
    out
}

/// Tells whether `bytes` spells `name` in any mix of cases.
pub fn spells_name(bytes: &[u8], name: &[u8]) -> (r: bool)
    ensures
        r == (lower_text(bytes@) == name@),
{
    if bytes.len() != name.len() {
        return false;
    }
    let mut i: usize = 0;
    while i < bytes.len()
        invariant
            i <= bytes@.len(),
            bytes@.len() == name@.len(),
            forall|k: int| 0 <= k < i ==> lower(bytes@[k]) == name@[k],
        decreases bytes@.len() - i,
    {
        let b: u8 = bytes[i];
        let folded: u8 = if b >= 65u8 && b <= 90u8 {
            b + 32u8
        } else {
            b
        };
        if folded != name[i] {
            assert(lower_text(bytes@)[i as int] != name@[i as int]);
            return false;
        }
        i += 1;
    }
    assert(lower_text(bytes@) =~= name@);
    true
}

/// Checks a request against a command: the number of its arguments first,
/// then its name tokens, which may come in any mix of cases.
pub fn validate_command<T: CommandArgs>(value: &RespArray, names: &[&'static str]) -> (r: Result<
    (),
    CommandError,
>)
    ensures
        match r {
            Ok(_) => validation(T::arity(), value@, names_view(names@)) is None,
            Err(e) => validation(T::arity(), value@, names_view(names@)) == Some(e@),
        },
{
    let args = T::expect_args();
    let ghost items = value@;
    let ghost texts = names_view(names@);
    let held: usize = value.0.len();
    match args {
        NArgs::Equal(n_args) => {
            if n_args == usize::MAX || held != n_args + 1 {
                let mut words = join_names(names);
                words.append(" command must have exactly ");
                words.append(decimal_string(n_args).as_str());
                words.append(" argument");
                return Err(CommandError::InvalidArgument(words));
            }
        },
        NArgs::GreaterAndEqual(n_args) => {
            if n_args == usize::MAX || held < n_args + 1 {
                let mut words = join_names(names);
                words.append(" command must have at least ");
                words.append(decimal_string(n_args).as_str());
                words.append(" argument");
                return Err(CommandError::InvalidArgument(words));
            }
        },
    }
    let mut i: usize = 0;
    while i < names.len()
        invariant
            i <= names@.len(),
            items == value@,
            texts == names_view(names@),
            held == value.0.len(),
            arity_met(T::arity(), items.len()),
            validation(T::arity(), items, texts) == name_fault(items, texts, i as int),
        decreases names@.len() - i,
    {
        if i >= held {
            return Err(
                CommandError::InvalidArgument(String::from_str("command name must be a BulkString")),
            );
        }
        assert(items[i as int] == value.0[i as int]@);
        match &value.0[i] {
            RespFrame::BulkString(b) => match &b.0 {
                Some(bytes) => {
                    if !spells_name(bytes.as_slice(), names[i].as_bytes()) {
                        let mut words = String::from_str("Invalid command: expected ");
                        words.append(names[i]);
                        return Err(CommandError::InvalidArgument(words));
                    }
                },
                None => {
                    return Err(
                        CommandError::InvalidArgument(
                            String::from_str("command name must be a BulkString"),
                        ),
                    );
                },
            },
            _ => {
                return Err(
                    CommandError::InvalidArgument(
                        String::from_str("command name must be a BulkString"),
                    ),
                );
            },
        }
        i += 1;
    }
    Ok(())
}

/// The frames of a request from index `start` on: its arguments, where
/// `start` is the number of its name tokens.
pub fn extract_args(value: RespArray, start: usize) -> (r: Result<Vec<RespFrame>, CommandError>)
    ensures
        r is Ok,
        start <= value@.len() ==> items_value(r->Ok_0) == value@.skip(start as int),
        start > value@.len() ==> items_value(r->Ok_0) == Seq::<Value>::empty(),
{
    let mut items = value.0;
    if start > items.len() {
        let none: Vec<RespFrame> = Vec::new();
        assert(items_value(none) =~= Seq::<Value>::empty());
        return Ok(none);
    }
    let rest = items.split_off(start);
    assert(items_value(rest) =~= value@.skip(start as int));
    Ok(rest)
}

/// A command as a mathematical value: what is asked for, with its arguments.
pub enum CommandModel {
    Echo { message: Seq<char> },
    Get { key: Seq<char> },
    SetCmd { key: Seq<char>, value: Value },
    HGet { key: Seq<char>, field: Seq<char> },
    HSet { key: Seq<char>, field: Seq<char>, value: Value },
    HGetAll { key: Seq<char> },
    HMGet { key: Seq<char>, fields: Seq<Seq<char>> },
    SAdd { key: Seq<char>, values: Seq<Value> },
    Sismember { key: Seq<char>, value: Value },
    SMembers { key: Seq<char> },
    Unrecognized,
}

/// Echo: replies with its message.
#[derive(Debug)]
pub struct Echo {
    pub message: String,
}

/// Get: reads the value of a key.
#[derive(Debug)]
pub struct Get {
    pub key: String,
}

/// Set: writes the value of a key.
#[derive(Debug)]
pub struct SetCmd {
    pub key: String,
    pub value: RespFrame,
}

/// HGet: reads a field of a hash.
#[derive(Debug)]
pub struct HGet {
    pub key: String,
    pub field: String,
}

/// HSet: writes a field of a hash.
#[derive(Debug)]
pub struct HSet {
    pub key: String,
    pub field: String,
    pub value: RespFrame,
}

/// HGetAll: reads all fields of a hash, in the order of their names.
#[derive(Debug)]
pub struct HGetAll {
    pub key: String,
}

/// HMGet: reads some fields of a hash.
#[derive(Debug)]
pub struct HMGet {
    pub key: String,
    pub fields: Vec<String>,
}

/// SAdd: adds members to a set.
#[derive(Debug)]
pub struct SAdd {
    pub key: String,
    pub values: Vec<RespFrame>,
}

/// Sismember: asks whether a value is a member of a set.
#[derive(Debug)]
pub struct Sismember {
    pub key: String,
    pub value: RespFrame,
}

/// SMembers: reads all members of a set.
#[derive(Debug)]
pub struct SMembers {
    pub key: String,
}

/// A request whose name is that of no command. It is acknowledged and does nothing.
#[derive(Debug)]
pub struct Unrecognized;

/// A command, one variant for each that the server knows.
#[derive(Debug)]
pub enum Command {
    Echo(Echo),
    Get(Get),
    SetCmd(SetCmd),
    HGet(HGet),
    HSet(HSet),
    HGetAll(HGetAll),
    HMGet(HMGet),
    SAdd(SAdd),
    Sismember(Sismember),
    SMembers(SMembers),
    Unrecognized(Unrecognized),
}

/// The texts of a vector of strings, in order.
pub open spec fn strings_view(texts: Vec<String>) -> Seq<Seq<char>> {
    Seq::new(texts.len() as nat, |i: int| texts[i]@)
}

impl View for Echo {
    type V = CommandModel;

    open spec fn view(&self) -> CommandModel {
        CommandModel::Echo { message: self.message@ }
    }
}

impl View for Get {
    type V = CommandModel;

    open spec fn view(&self) -> CommandModel {
        CommandModel::Get { key: self.key@ }
    }
}

impl View for SetCmd {
    type V = CommandModel;

    open spec fn view(&self) -> CommandModel {
        CommandModel::SetCmd { key: self.key@, value: self.value@ }
    }
}

impl View for HGet {
    type V = CommandModel;

    open spec fn view(&self) -> CommandModel {
        CommandModel::HGet { key: self.key@, field: self.field@ }
    }
}

impl View for HSet {
    type V = CommandModel;

    open spec fn view(&self) -> CommandModel {
        CommandModel::HSet { key: self.key@, field: self.field@, value: self.value@ }
    }
}

impl View for HGetAll {
    type V = CommandModel;

    open spec fn view(&self) -> CommandModel {
        CommandModel::HGetAll { key: self.key@ }
    }
}

impl View for HMGet {
    type V = CommandModel;

    open spec fn view(&self) -> CommandModel {
        CommandModel::HMGet { key: self.key@, fields: strings_view(self.fields) }
    }
}

impl View for SAdd {
    type V = CommandModel;

    open spec fn view(&self) -> CommandModel {
        CommandModel::SAdd { key: self.key@, values: items_value(self.values) }
    }
}

impl View for Sismember {
    type V = CommandModel;

    open spec fn view(&self) -> CommandModel {
        CommandModel::Sismember { key: self.key@, value: self.value@ }
    }
}

impl View for SMembers {
    type V = CommandModel;

    open spec fn view(&self) -> CommandModel {
        CommandModel::SMembers { key: self.key@ }
    }
}

impl View for Unrecognized {
    type V = CommandModel;

    open spec fn view(&self) -> CommandModel {
        CommandModel::Unrecognized
    }
}

impl View for Command {
    type V = CommandModel;

    open spec fn view(&self) -> CommandModel {
        match self {
            Command::Echo(c) => c@,
            Command::Get(c) => c@,
            Command::SetCmd(c) => c@,
            Command::HGet(c) => c@,
            Command::HSet(c) => c@,
            Command::HGetAll(c) => c@,
            Command::HMGet(c) => c@,
            Command::SAdd(c) => c@,
            Command::Sismember(c) => c@,
            Command::SMembers(c) => c@,
            Command::Unrecognized(c) => c@,
        }
    }
}

/// A command that was made of a request agrees with what the request says.
pub open spec fn parsed<T: View<V = CommandModel>>(
    r: Result<T, CommandError>,
    m: Result<CommandModel, Fault>,
) -> bool {
    match r {
        Ok(cmd) => m == Ok::<CommandModel, Fault>(cmd@),
        Err(e) => m == Err::<CommandModel, Fault>(e@),
    }
}

/// The bytes of a frame that is a bulk string and not the absent one.
pub open spec fn bulk_bytes(v: Value) -> Option<Seq<u8>> {
    match v {
        Value::BulkString(Some(bytes)) => Some(bytes),
        _ => None,
    }
}

/// Every frame is a bulk string with bytes.
pub open spec fn all_bulk(items: Seq<Value>) -> bool {
    forall|i: int| 0 <= i < items.len() ==> bulk_bytes(#[trigger] items[i]) is Some
}

/// The bytes of every bulk string among the frames are UTF-8.
pub open spec fn all_utf8(items: Seq<Value>) -> bool {
    forall|i: int|
        0 <= i < items.len() && bulk_bytes(#[trigger] items[i]) is Some ==> valid_utf8(
            bulk_bytes(items[i])->0,
        )
}

/// The texts that the bulk strings spell, in order.
pub open spec fn texts_of(items: Seq<Value>) -> Seq<Seq<char>> {
    Seq::new(items.len(), |i: int| decode_utf8(bulk_bytes(items[i])->0))
}

/// The texts of arguments that must be text: each must be a bulk string,
/// else the fault carries `words`; and each must be UTF-8.
pub open spec fn text_args(items: Seq<Value>, words: Seq<char>) -> Result<Seq<Seq<char>>, Fault> {
    if !all_bulk(items) {
        Err(Fault::InvalidArgument(words))
    } else if !all_utf8(items) {
        Err(Fault::Utf8)
    } else {
        Ok(texts_of(items))
    }
}

/// Reads the frames `from` to `to` of `frames` as texts.
pub(crate) fn take_texts(frames: &Vec<RespFrame>, from: usize, to: usize, words: &str) -> (r: Result<
    Vec<String>,
    CommandError,
>)
    requires
        from <= to <= frames.len(),
    ensures
        match r {
            Ok(texts) => text_args(items_value(*frames).subrange(from as int, to as int), words@)
                == Ok::<Seq<Seq<char>>, Fault>(strings_view(texts)),
            Err(e) => text_args(items_value(*frames).subrange(from as int, to as int), words@)
                == Err::<Seq<Seq<char>>, Fault>(e@),
        },
{
    let ghost items = items_value(*frames).subrange(from as int, to as int);
    let mut i: usize = from;
    while i < to
        invariant
            from <= i <= to <= frames.len(),
            items == items_value(*frames).subrange(from as int, to as int),
            forall|k: int| 0 <= k < i - from ==> bulk_bytes(#[trigger] items[k]) is Some,
        decreases to - i,
    {
        assert(items[i - from] == frames[i as int]@);
        let is_text: bool = match &frames[i] {
            RespFrame::BulkString(b) => b.0.is_some(),
            _ => false,
        };
        if !is_text {
            return Err(CommandError::InvalidArgument(String::from_str(words)));
        }
        i += 1;
    }
    let mut texts: Vec<String> = Vec::new();
    let mut i: usize = from;
    while i < to
        invariant
            from <= i <= to <= frames.len(),
            items == items_value(*frames).subrange(from as int, to as int),
            all_bulk(items),
            texts.len() == i - from,
            forall|k: int|
                0 <= k < i - from ==> valid_utf8(bulk_bytes(#[trigger] items[k])->0) && texts[k]@
                    == decode_utf8(bulk_bytes(items[k])->0),
        decreases to - i,
    {
        assert(items[i - from] == frames[i as int]@);
        let bytes: Vec<u8> = match &frames[i] {
            RespFrame::BulkString(b) => match &b.0 {
                Some(bytes) => bytes.clone(),
                None => Vec::new(),
            },
            _ => Vec::new(),
        };
        match text_from_utf8(bytes) {
            Ok(text) => {
                texts.push(text);
            },
            Err(e) => {
                return Err(CommandError::FromUtf8Error(e));
            },
        }
        i += 1;
    }
    assert(strings_view(texts) =~= texts_of(items));
    Ok(texts)
}

/// The name that a request opens with, folded to lower case: the bytes of
/// its first frame if that is a bulk string, none for the absent one.
pub open spec fn command_word(first: Value) -> Option<Seq<u8>> {
    match first {
        Value::BulkString(Some(bytes)) => Some(lower_text(bytes)),
        Value::BulkString(None) => Some(Seq::empty()),
        _ => None,
    }
}

/// The place of a command name, in lower case, in the list of the commands,
/// counted from one; zero for a name that is that of no command.
pub open spec fn word_index(word: Seq<u8>) -> int {
    if word == encode_utf8("echo"@) {
        1
    } else if word == encode_utf8("get"@) {
        2
    } else if word == encode_utf8("set"@) {
        3
    } else if word == encode_utf8("hget"@) {
        4
    } else if word == encode_utf8("hset"@) {
        5
    } else if word == encode_utf8("hgetall"@) {
        6
    } else if word == encode_utf8("hmget"@) {
        7
    } else if word == encode_utf8("sadd"@) {
        8
    } else if word == encode_utf8("sismember"@) {
        9
    } else if word == encode_utf8("smembers"@) {
        10
    } else {
        0
    }
}

/// What a request says as a command. Its first frame must be a bulk string;
/// a name that is that of no command gives the command that does nothing.
pub open spec fn command_of(items: Seq<Value>) -> Result<CommandModel, Fault> {
    if items.len() == 0 || command_word(items[0]) is None {
        Err(Fault::InvalidCommand("Command must have a BulkString as the first argument"@))
    } else {
        let index = word_index(command_word(items[0])->0);
        if index == 1 {
            crate::cmd::echo::echo_of(items)
        } else if index == 2 {
            crate::cmd::map::get_of(items)
        } else if index == 3 {
            crate::cmd::map::set_of(items)
        } else if index == 4 {
            crate::cmd::hmap::hget_of(items)
        } else if index == 5 {
            crate::cmd::hmap::hset_of(items)
        } else if index == 6 {
            crate::cmd::hmap::hgetall_of(items)
        } else if index == 7 {
            crate::cmd::hmap::hmget_of(items)
        } else if index == 8 {
            crate::cmd::smap::sadd_of(items)
        } else if index == 9 {
            crate::cmd::smap::sismember_of(items)
        } else if index == 10 {
            crate::cmd::smap::smembers_of(items)
        } else {
            Ok(CommandModel::Unrecognized)
        }
    }
}

/// What a frame says as a command: it must be an array, and then it says
/// what its frames say.
pub open spec fn command_of_frame(v: Value) -> Result<CommandModel, Fault> {
    match v {
        Value::Array(items) => command_of(items),
        _ => Err(Fault::InvalidCommand("Command must be an array"@)),
    }
}

/// Tells which command the name of a request is, in any mix of cases.
pub fn command_index(name: &[u8]) -> (r: u8)
    ensures
        r as int == word_index(lower_text(name@)),
{
    if spells_name(name, "echo".as_bytes()) {
        1
    } else if spells_name(name, "get".as_bytes()) {
        2
    } else if spells_name(name, "set".as_bytes()) {
        3
    } else if spells_name(name, "hget".as_bytes()) {
        4
    } else if spells_name(name, "hset".as_bytes()) {
        5
    } else if spells_name(name, "hgetall".as_bytes()) {
        6
    } else if spells_name(name, "hmget".as_bytes()) {
        7
    } else if spells_name(name, "sadd".as_bytes()) {
        8
    } else if spells_name(name, "sismember".as_bytes()) {
        9
    } else if spells_name(name, "smembers".as_bytes()) {
        10
    } else {
        0
    }
}

impl TryFrom<RespArray> for Command {
    type Error = CommandError;

    fn try_from(v: RespArray) -> (r: Result<Self, CommandError>)
        ensures
            parsed(r, command_of(v@)),
    {
        if v.0.len() == 0 {
            return Err(
                CommandError::InvalidCommand(
                    String::from_str("Command must have a BulkString as the first argument"),
                ),
            );
        }
        assert(v@[0] == v.0[0]@);
        let index: u8 = match &v.0[0] {
            RespFrame::BulkString(name) => match &name.0 {
                Some(bytes) => command_index(bytes.as_slice()),
                None => {
                    let nothing: [u8; 0] = [];
                    assert(lower_text(nothing@) =~= Seq::<u8>::empty());
                    command_index(nothing.as_slice())
                },
            },
            _ => {
                return Err(
                    CommandError::InvalidCommand(
                        String::from_str("Command must have a BulkString as the first argument"),
                    ),
                );
            },
        };
        if index == 1 {
            match Echo::try_from(v) {
                Ok(c) => Ok(Command::Echo(c)),
                Err(e) => Err(e),
            }
        } else if index == 2 {
            match Get::try_from(v) {
                Ok(c) => Ok(Command::Get(c)),
                Err(e) => Err(e),
            }
        } else if index == 3 {
            match SetCmd::try_from(v) {
                Ok(c) => Ok(Command::SetCmd(c)),
                Err(e) => Err(e),
            }
        } else if index == 4 {
            match HGet::try_from(v) {
                Ok(c) => Ok(Command::HGet(c)),
                Err(e) => Err(e),
            }
        } else if index == 5 {
            match HSet::try_from(v) {
                Ok(c) => Ok(Command::HSet(c)),
                Err(e) => Err(e),
            }
        } else if index == 6 {
            match HGetAll::try_from(v) {
                Ok(c) => Ok(Command::HGetAll(c)),
                Err(e) => Err(e),
            }
        } else if index == 7 {
            match HMGet::try_from(v) {
                Ok(c) => Ok(Command::HMGet(c)),
                Err(e) => Err(e),
            }
        } else if index == 8 {
            match SAdd::try_from(v) {
                Ok(c) => Ok(Command::SAdd(c)),
                Err(e) => Err(e),
            }
        } else if index == 9 {
            match Sismember::try_from(v) {
                Ok(c) => Ok(Command::Sismember(c)),
                Err(e) => Err(e),
            }
        } else if index == 10 {
            match SMembers::try_from(v) {
                Ok(c) => Ok(Command::SMembers(c)),
                Err(e) => Err(e),
            }
        } else {
            Ok(Command::Unrecognized(Unrecognized))
        }
    }
}

impl vstd::std_specs::convert::TryFromSpecImpl<RespArray> for Command {
    open spec fn obeys_try_from_spec() -> bool {
        false
    }

    open spec fn try_from_spec(v: RespArray) -> Result<Self, Self::Error> {
        arbitrary()
    }
}

impl TryFrom<RespFrame> for Command {
    type Error = CommandError;

    fn try_from(v: RespFrame) -> (r: Result<Self, CommandError>)
        ensures
            parsed(r, command_of_frame(v@)),
    {
        match v {
            RespFrame::Array(array) => Command::try_from(array),
            _ => Err(CommandError::InvalidCommand(String::from_str("Command must be an array"))),
        }
    }
}

impl vstd::std_specs::convert::TryFromSpecImpl<RespFrame> for Command {
    open spec fn obeys_try_from_spec() -> bool {
        false
    }

    open spec fn try_from_spec(v: RespFrame) -> Result<Self, Self::Error> {
        arbitrary()
    }
}

impl CommandExecutor for Unrecognized {
    fn execute(&self, backend: &mut Backend) -> (reply: RespFrame) {
        resp_ok()
    }
}

impl CommandArgs for Unrecognized {
    open spec fn arity() -> NArgs {
        NArgs::Equal(0)
    }

    fn expect_args() -> (r: NArgs) {
        NArgs::Equal(0)
    }
}

/// The key that a command reads or writes, if it has one.
pub open spec fn key_of(cmd: CommandModel) -> Option<Seq<char>> {
    match cmd {
        CommandModel::Echo { message } => None,
        CommandModel::Get { key } => Some(key),
        CommandModel::SetCmd { key, value } => Some(key),
        CommandModel::HGet { key, field } => Some(key),
        CommandModel::HSet { key, field, value } => Some(key),
        CommandModel::HGetAll { key } => Some(key),
        CommandModel::HMGet { key, fields } => Some(key),
        CommandModel::SAdd { key, values } => Some(key),
        CommandModel::Sismember { key, value } => Some(key),
        CommandModel::SMembers { key } => Some(key),
        CommandModel::Unrecognized => None,
    }
}

impl Command {
    /// The key that the command reads or writes, if it has one.
    pub fn key(&self) -> (r: Option<&str>)
        ensures
            match r {
                Some(key) => key_of(self@) == Some(key@),
                None => key_of(self@) is None,
            },
    {
        match self {
            Command::Echo(_) => None,
            Command::Get(c) => Some(c.key.as_str()),
            Command::SetCmd(c) => Some(c.key.as_str()),
            Command::HGet(c) => Some(c.key.as_str()),
            Command::HSet(c) => Some(c.key.as_str()),
            Command::HGetAll(c) => Some(c.key.as_str()),
            Command::HMGet(c) => Some(c.key.as_str()),
            Command::SAdd(c) => Some(c.key.as_str()),
            Command::Sismember(c) => Some(c.key.as_str()),
            Command::SMembers(c) => Some(c.key.as_str()),
            Command::Unrecognized(_) => None,
        }
    }
}

impl CommandExecutor for Command {
    fn execute(&self, backend: &mut Backend) -> (reply: RespFrame) {
        match self {
            Command::Echo(c) => c.execute(backend),
            Command::Get(c) => c.execute(backend),
            Command::SetCmd(c) => c.execute(backend),
            Command::HGet(c) => c.execute(backend),
            Command::HSet(c) => c.execute(backend),
            Command::HGetAll(c) => c.execute(backend),
            Command::HMGet(c) => c.execute(backend),
            Command::SAdd(c) => c.execute(backend),
            Command::Sismember(c) => c.execute(backend),
            Command::SMembers(c) => c.execute(backend),
            Command::Unrecognized(c) => c.execute(backend),
        }
    }
}

/// The names of a request are at fault for what they are, never for how
/// they were read.
pub proof fn lemma_name_fault(items: Seq<Value>, names: Seq<Seq<char>>, i: int)
    ensures
        name_fault(items, names, i) is Some ==> name_fault(items, names, i)->0 is InvalidArgument,
    decreases names.len() - i,
{
    if 0 <= i < names.len() && i < items.len() {
        lemma_name_fault(items, names, i + 1);
    }
}

/// A request that is no command is at fault for its shape, its arguments
/// or its text, never for how it was read.
pub proof fn lemma_command_fault(v: Value)
    ensures
        command_of_frame(v) is Err ==> !(command_of_frame(v)->Err_0 is Resp),
{
    if let Value::Array(items) = v {
        lemma_name_fault(items, seq!["echo"@], 0);
        lemma_name_fault(items, seq!["get"@], 0);
        lemma_name_fault(items, seq!["set"@], 0);
        lemma_name_fault(items, seq!["hget"@], 0);
        lemma_name_fault(items, seq!["hset"@], 0);
        lemma_name_fault(items, seq!["hgetall"@], 0);
        lemma_name_fault(items, seq!["hmget"@], 0);
        lemma_name_fault(items, seq!["sadd"@], 0);
        lemma_name_fault(items, seq!["sismember"@], 0);
        lemma_name_fault(items, seq!["smembers"@], 0);
    }
}

} // verus!
