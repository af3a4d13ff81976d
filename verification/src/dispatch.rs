//! The command dispatcher.
//!
//! A request is an array of bulk strings. Its elements are read from the
//! front as a queue: a command word, then the arguments that the word calls
//! for, then the next command word, and so on until the queue is empty. Each
//! command is carried out against the store and answered with one reply.
//!
//! A word that names no command ends the request: what is left of the queue
//! is dropped, without a reply and without a fault. An element that is no
//! bulk string, or an argument that is missing or unusable, is a protocol
//! violation: it ends the request too, and the connection with it.
//!
//! [`next_command`] and [`run`] say what the next command is and what it
//! does, [`step_from`] what one step on the queue comes to, and
//! [`drain_from`] what the whole queue does. The executable functions
//! [`read_command`], [`execute`], [`step`] and [`drain`] compute exactly
//! these.
//!
//! A server that reads its clock for every command, and sends each reply
//! before it carries out the next command, calls [`step`] in a loop.
//! [`drain`] is that loop at one instant, with the replies collected.

use vstd::prelude::*;
use vstd::slice::slice_to_vec;
use crate::decimal::{number_up_to, parse_u128};
use crate::parser::{lemma_array_view, views, RespType, Value};
use crate::reply::{Reply, ReplyView};
use crate::store::{after_get, after_set, lookup, Entries, Store};
use crate::text::{reads_as, upper_text};

verus! {

/// The command word `PING`.
pub const PING: [u8; 4] = [0x50, 0x49, 0x4e, 0x47];

/// The command word `ECHO`.
pub const ECHO: [u8; 4] = [0x45, 0x43, 0x48, 0x4f];

/// The command word `SET`.
pub const SET: [u8; 3] = [0x53, 0x45, 0x54];

/// The command word `GET`.
pub const GET: [u8; 3] = [0x47, 0x45, 0x54];

/// The option word `PX`, which gives `SET` a time to live in milliseconds.
pub const PX: [u8; 2] = [0x50, 0x58];

/// The status text that answers `PING`.
pub const PONG: [u8; 4] = [0x50, 0x4f, 0x4e, 0x47];

/// The status text that answers `SET`.
pub const OK: [u8; 2] = [0x4f, 0x4b];

/// A command with its arguments.
#[derive(PartialEq, Eq, Debug)]
pub enum Command {
    Ping,
    Echo(Vec<u8>),
    /// `ttl` is the time to live in milliseconds, counted from the instant
    /// at which the command is carried out; absent, the entry never expires.
    SetValue { key: Vec<u8>, value: Vec<u8>, ttl: Option<u128> },
    GetValue(Vec<u8>),
}

/// The mathematical content of a [`Command`].
pub enum CommandView {
    Ping,
    Echo(Seq<u8>),
    SetValue { key: Seq<u8>, value: Seq<u8>, ttl: Option<u128> },
    GetValue(Seq<u8>),
}

impl View for Command {
    type V = CommandView;

    open spec fn view(&self) -> CommandView {
        match self {
            Command::Ping => CommandView::Ping,
            Command::Echo(value) => CommandView::Echo(value@),
            Command::SetValue { key, value, ttl } => CommandView::SetValue {
                key: key@,
                value: value@,
                ttl: *ttl,
            },
            Command::GetValue(key) => CommandView::GetValue(key@),
        }
    }
}

/// How a request breaks the protocol.
#[derive(PartialEq, Eq, Clone, Copy, Debug)]
pub enum ProtocolError {
    /// The request is not an array.
    NotAnArray,
    /// A command word or an argument is not a bulk string.
    NotABulkString,
    /// The queue ends before the arguments that a command calls for.
    MissingArgument,
    /// The argument of `PX` is not a number of milliseconds that fits in
    /// 128 bits, or the instant that it leads to does not.
    InvalidExpiry,
}

/// What stands at the front of the queue.
#[derive(PartialEq, Eq, Debug)]
pub enum Next {
    /// A command, and the number of elements that it and its arguments
    /// take up.
    Command(Command, usize),
    /// A word that names no command.
    Unknown,
    Violation(ProtocolError),
}

/// The mathematical content of a [`Next`].
pub enum NextView {
    Command(CommandView, nat),
    Unknown,
    Violation(ProtocolError),
}

impl View for Next {
    type V = NextView;

    open spec fn view(&self) -> NextView {
        match self {
            Next::Command(command, used) => NextView::Command(command@, *used as nat),
            Next::Unknown => NextView::Unknown,
            Next::Violation(e) => NextView::Violation(*e),
        }
    }
}

/// How the work on a request ended.
#[derive(PartialEq, Eq, Clone, Copy, Debug)]
pub enum Ending {
    /// Every command in the queue was carried out.
    Drained,
    /// A word that names no command was met; what followed was dropped.
    Unrecognized,
    /// The request broke the protocol; the connection is to be closed.
    Violation(ProtocolError),
}

/// What one step on the queue comes to.
#[derive(PartialEq, Eq, Debug)]
pub enum Step {
    /// A command was carried out: its reply, and the index at which the
    /// next command begins.
    Replied(Reply, usize),
    /// Nothing was carried out, and the work on the queue is over.
    Ended(Ending),
}

/// The mathematical content of a [`Step`].
pub enum StepView {
    Replied(ReplyView, int),
    Ended(Ending),
}

impl View for Step {
    type V = StepView;

    open spec fn view(&self) -> StepView {
        match self {
            Step::Replied(reply, next) => StepView::Replied(reply@, *next as int),
            Step::Ended(ending) => StepView::Ended(*ending),
        }
    }
}

/// The replies to a request, in the order of its commands, and how the work
/// on it ended.
#[derive(PartialEq, Eq, Debug)]
pub struct Outcome {
    pub replies: Vec<Reply>,
    pub ending: Ending,
}

/// The contents of each reply in `replies`, in order.
pub open spec fn reply_views(replies: Seq<Reply>) -> Seq<ReplyView> {
    Seq::new(replies.len(), |i: int| replies[i]@)
}

/// The bulk string at index `at` of the queue, or why there is none.
pub open spec fn argument(queue: Seq<Value>, at: int) -> Result<Seq<u8>, ProtocolError> {
    if at < 0 || at >= queue.len() {
        Err(ProtocolError::MissingArgument)
    } else {
        match queue[at] {
            Value::Bulk(content) => Ok(content),
            Value::List(_) => Err(ProtocolError::NotABulkString),
        }
    }
}

/// Whether the element at index `at` of the queue is the option word `PX`,
/// in whatever letter case.
pub open spec fn is_px(queue: Seq<Value>, at: int) -> bool {
    argument(queue, at) matches Ok(word) && upper_text(word) == PX@
}

/// The `SET` command whose word is at index `at`. It takes a key and a
/// value. If `PX` follows them, it takes that word and the number behind it
/// too; anything else that follows is left in the queue.
pub open spec fn next_set(queue: Seq<Value>, at: int) -> NextView {
    match argument(queue, at + 1) {
        Err(e) => NextView::Violation(e),
        Ok(key) => match argument(queue, at + 2) {
            Err(e) => NextView::Violation(e),
            Ok(value) => if is_px(queue, at + 3) {
                match argument(queue, at + 4) {
                    Err(e) => NextView::Violation(e),
                    Ok(text) => match number_up_to(text, u128::MAX as nat) {
                        Some(ms) => NextView::Command(
                            CommandView::SetValue { key, value, ttl: Some(ms as u128) },
                            5,
                        ),
                        None => NextView::Violation(ProtocolError::InvalidExpiry),
                    },
                }
            } else {
                NextView::Command(CommandView::SetValue { key, value, ttl: None }, 3)
            },
        },
    }
}

/// The command whose word is at index `at` of the queue. The word is
/// matched in whatever letter case.
pub open spec fn next_command(queue: Seq<Value>, at: int) -> NextView {
    match argument(queue, at) {
        Err(e) => NextView::Violation(e),
        Ok(name) => {
            let word = upper_text(name);
            if word == PING@ {
                NextView::Command(CommandView::Ping, 1)
            } else if word == ECHO@ {
                match argument(queue, at + 1) {
                    Ok(value) => NextView::Command(CommandView::Echo(value), 2),
                    Err(e) => NextView::Violation(e),
                }
            } else if word == SET@ {
                next_set(queue, at)
            } else if word == GET@ {
                match argument(queue, at + 1) {
                    Ok(key) => NextView::Command(CommandView::GetValue(key), 2),
                    Err(e) => NextView::Violation(e),
                }
            } else {
                NextView::Unknown
            }
        },
    }
}

/// What a command does at the instant `now` to a store that holds
/// `entries`: the reply and the entries afterwards.
///
/// `SET` with a time to live fails if the instant of expiry, `now` plus the
/// time to live, does not fit in 128 bits; nothing else fails.
pub open spec fn run(command: CommandView, entries: Entries, now: u128) -> Result<
    (ReplyView, Entries),
    ProtocolError,
> {
    match command {
        CommandView::Ping => Ok((ReplyView::Status(PONG@), entries)),
        CommandView::Echo(value) => Ok((ReplyView::Bulk(value), entries)),
        CommandView::SetValue { key, value, ttl } => match ttl {
            None => Ok((ReplyView::Status(OK@), after_set(entries, key, value, None))),
            Some(ms) => if now + ms <= u128::MAX {
                Ok(
                    (
                        ReplyView::Status(OK@),
                        after_set(entries, key, value, Some((now + ms) as u128)),
                    ),
                )
            } else {
                Err(ProtocolError::InvalidExpiry)
            },
        },
        CommandView::GetValue(key) => Ok(
            (
                match lookup(entries, key, now) {
                    Some(value) => ReplyView::Bulk(value),
                    None => ReplyView::Null,
                },
                after_get(entries, key, now),
            ),
        ),
    }
}

/// What one step on the queue at index `at` comes to, at the instant `now`
/// and against a store that holds `entries`, and the entries afterwards.
///
/// Past the end of the queue the work is over: the queue is drained. At a
/// word that names no command, and at a violation, it is over as well.
/// Otherwise the command at `at` is carried out; if it fails, that is a
/// violation. Only a command that was carried out changes the entries.
pub open spec fn step_from(queue: Seq<Value>, at: int, entries: Entries, now: u128) -> (
    StepView,
    Entries,
) {
    if at < 0 || at >= queue.len() {
        (StepView::Ended(Ending::Drained), entries)
    } else {
        match next_command(queue, at) {
            NextView::Unknown => (StepView::Ended(Ending::Unrecognized), entries),
            NextView::Violation(e) => (StepView::Ended(Ending::Violation(e)), entries),
            NextView::Command(command, used) => match run(command, entries, now) {
                Err(e) => (StepView::Ended(Ending::Violation(e)), entries),
                Ok((reply, left)) => (StepView::Replied(reply, at + used), left),
            },
        }
    }
}

/// What the queue does from index `at` on, step after step, all at the
/// instant `now`: the replies in order, how the work ended, and the entries
/// afterwards.
pub open spec fn drain_from(queue: Seq<Value>, at: int, entries: Entries, now: u128) -> (
    Seq<ReplyView>,
    Ending,
    Entries,
)
    decreases queue.len() - at,
{
    let (step, left) = step_from(queue, at, entries, now);
    match step {
        StepView::Ended(ending) => (Seq::empty(), ending, left),
        StepView::Replied(reply, next) => {
            let (more, ending, last) = drain_from(queue, next, left, now);
            (seq![reply] + more, ending, last)
        },
    }
}

/// What a request does: an array is drained from its first element; any
/// other value is a violation.
pub open spec fn answer(request: Value, entries: Entries, now: u128) -> (
    Seq<ReplyView>,
    Ending,
    Entries,
) {
    match request {
        Value::List(queue) => drain_from(queue, 0, entries, now),
        Value::Bulk(_) => (
            Seq::empty(),
            Ending::Violation(ProtocolError::NotAnArray),
            entries,
        ),
    }
}

/// A value set with a time to live is there until the time is up, and gone
/// from then on.
///
/// After `SET key value PX ms` at the instant `now`, a `GET key` at any
/// instant before `now + ms` returns the value and leaves the store as it
/// is. A `GET key` at `now + ms` or after returns null and takes the entry
/// out, so that the key is absent and a further `GET key`, at whatever
/// instant, returns null as well. This holds whenever `now + ms` fits in
/// 128 bits, which is when the `SET` succeeds.
pub proof fn lemma_ttl_bounds_visibility(
    entries: Entries,
    key: Seq<u8>,
    value: Seq<u8>,
    ms: u128,
    now: u128,
    at: u128,
    later: u128,
)
    requires
        now + ms <= u128::MAX,
    ensures
        ({
            let set = run(CommandView::SetValue { key, value, ttl: Some(ms) }, entries, now);
            let stored = set->Ok_0.1;
            let get = run(CommandView::GetValue(key), stored, at);
            let left = get->Ok_0.1;
            &&& set is Ok
            &&& set->Ok_0.0 == ReplyView::Status(OK@)
            &&& get is Ok
            &&& at < now + ms ==> get->Ok_0.0 == ReplyView::Bulk(value) && left == stored
            &&& at >= now + ms ==> {
                &&& get->Ok_0.0 == ReplyView::Null
                &&& !left.contains_key(key)
                &&& left == stored.remove(key)
                &&& run(CommandView::GetValue(key), left, later) == Ok::<
                    (ReplyView, Entries),
                    ProtocolError,
                >((ReplyView::Null, left))
            }
        }),
{
}

/// A `SET` without `PX` makes the key permanent, whatever time to live an
/// earlier `SET` gave it.
///
/// After `SET key first PX ms` at the instant `now` and `SET key second` at
/// the instant `then`, a `GET key` at any instant returns `second` and
/// leaves the store as it is.
pub proof fn lemma_plain_set_clears_ttl(
    entries: Entries,
    key: Seq<u8>,
    first: Seq<u8>,
    ms: u128,
    now: u128,
    second: Seq<u8>,
    then: u128,
    at: u128,
)
    requires
        now + ms <= u128::MAX,
    ensures
        ({
            let timed = run(
                CommandView::SetValue { key, value: first, ttl: Some(ms) },
                entries,
                now,
            )->Ok_0.1;
            let plain = run(CommandView::SetValue { key, value: second, ttl: None }, timed, then);
            let stored = plain->Ok_0.1;
            &&& plain is Ok
            &&& run(CommandView::GetValue(key), stored, at) == Ok::<
                (ReplyView, Entries),
                ProtocolError,
            >((ReplyView::Bulk(second), stored))
        }),
{
}

/// A `GET` for a key that the store does not hold returns null and changes
/// nothing.
pub proof fn lemma_get_absent_key(entries: Entries, key: Seq<u8>, now: u128)
    requires
        !entries.contains_key(key),
    ensures
        run(CommandView::GetValue(key), entries, now) == Ok::<(ReplyView, Entries), ProtocolError>(
            (ReplyView::Null, entries),
        ),
{
}

/// The result for a queue of which the first commands have given `done`
/// and `rest` is the result for what follows them.
spec fn after_replies(done: Seq<ReplyView>, rest: (Seq<ReplyView>, Ending, Entries)) -> (
    Seq<ReplyView>,
    Ending,
    Entries,
) {
    (done + rest.0, rest.1, rest.2)
}

/// Draining a queue one command at a time: once the command at `at` has
/// run, what is left is the queue behind it, against the entries that the
/// command left.
proof fn lemma_drain_step(
    queue: Seq<Value>,
    at: int,
    entries: Entries,
    now: u128,
    done: Seq<ReplyView>,
    reply: ReplyView,
    next: int,
    left: Entries,
)
    requires
        step_from(queue, at, entries, now) == (StepView::Replied(reply, next), left),
    ensures
        after_replies(done, drain_from(queue, at, entries, now)) == after_replies(
            done.push(reply),
            drain_from(queue, next, left, now),
        ),
{
    let rest = drain_from(queue, next, left, now);
    assert(done + (seq![reply] + rest.0) =~= done.push(reply) + rest.0);
}

/// Copies a byte string.
fn copy_of(bytes: &Vec<u8>) -> (copy: Vec<u8>)
    ensures
        copy@ == bytes@,
{
    slice_to_vec(bytes.as_slice())
}

/// The bulk string at index `at` of the queue.
fn argument_at(queue: &Vec<RespType>, at: usize) -> (r: Result<&Vec<u8>, ProtocolError>)
    ensures
        match r {
            Ok(content) => {
                &&& argument(views(queue@), at as int) == Ok::<Seq<u8>, ProtocolError>(content@)
                &&& at < queue.len()
            },
            Err(e) => argument(views(queue@), at as int) == Err::<Seq<u8>, ProtocolError>(e),
        },
{
    if at >= queue.len() {
        return Err(ProtocolError::MissingArgument);
    }
    match &queue[at] {
        RespType::BulkString(content) => Ok(content),
        RespType::Array(_) => Err(ProtocolError::NotABulkString),
    }
}

/// Reads the `SET` command whose word is at index `at` of the queue.
fn read_set(queue: &Vec<RespType>, at: usize) -> (next: Next)
    requires
        at < queue.len(),
    ensures
        next@ == next_set(views(queue@), at as int),
        next matches Next::Command(_, used) ==> 1 <= used && at + used <= queue.len(),
{
    let key = match argument_at(queue, at + 1) {
        Ok(key) => key,
        Err(e) => {
            return Next::Violation(e);
        },
    };
    let value = match argument_at(queue, at + 2) {
        Ok(value) => value,
        Err(e) => {
            return Next::Violation(e);
        },
    };
    let with_ttl = match argument_at(queue, at + 3) {
        Ok(word) => reads_as(word.as_slice(), &PX),
        Err(_) => false,
    };
    if !with_ttl {
        return Next::Command(
            Command::SetValue { key: copy_of(key), value: copy_of(value), ttl: None },
            3,
        );
    }
    let text = match argument_at(queue, at + 4) {
        Ok(text) => text,
        Err(e) => {
            return Next::Violation(e);
        },
    };
    match parse_u128(text.as_slice()) {
        Some(ms) => Next::Command(
            Command::SetValue { key: copy_of(key), value: copy_of(value), ttl: Some(ms) },
            5,
        ),
        None => Next::Violation(ProtocolError::InvalidExpiry),
    }
}

/// Reads the command whose word is at index `at` of the queue.
///
/// The result is what [`next_command`] says of the queue's contents. For a
/// command it also holds the number of elements taken, which never reaches
/// past the end of the queue.
pub fn read_command(queue: &Vec<RespType>, at: usize) -> (next: Next)
    ensures
        next@ == next_command(views(queue@), at as int),
        next matches Next::Command(_, used) ==> 1 <= used && at + used <= queue.len(),
{
    let name = match argument_at(queue, at) {
        Ok(name) => name,
        Err(e) => {
            return Next::Violation(e);
        },
    };
    if reads_as(name.as_slice(), &PING) {
        Next::Command(Command::Ping, 1)
    } else if reads_as(name.as_slice(), &ECHO) {
        match argument_at(queue, at + 1) {
            Ok(value) => Next::Command(Command::Echo(copy_of(value)), 2),
            Err(e) => Next::Violation(e),
        }
    } else if reads_as(name.as_slice(), &SET) {
        read_set(queue, at)
    } else if reads_as(name.as_slice(), &GET) {
        match argument_at(queue, at + 1) {
            Ok(key) => Next::Command(Command::GetValue(copy_of(key)), 2),
            Err(e) => Next::Violation(e),
        }
    } else {
        Next::Unknown
    }
}

/// Carries out one command against the store at the instant `now`.
///
/// The reply and the store afterwards are what [`run`] says. A command that
/// fails leaves the store as it was.
pub fn execute(command: Command, store: &mut Store, now: u128) -> (r: Result<Reply, ProtocolError>)
    ensures
        match r {
            Ok(reply) => run(command@, old(store)@, now) == Ok::<
                (ReplyView, Entries),
                ProtocolError,
            >((reply@, final(store)@)),
            Err(e) => {
                &&& run(command@, old(store)@, now) == Err::<(ReplyView, Entries), ProtocolError>(e)
                &&& final(store)@ == old(store)@
            },
        },
{
    match command {
        Command::Ping => Ok(Reply::Status(slice_to_vec(&PONG))),
        Command::Echo(value) => Ok(Reply::Bulk(value)),
        Command::SetValue { key, value, ttl } => {
            let expiry = match ttl {
                None => None,
                Some(ms) => {
                    if ms > u128::MAX - now {
                        return Err(ProtocolError::InvalidExpiry);
                    }
                    Some(now + ms)
                },
            };
            store.set(key, value, expiry);
            Ok(Reply::Status(slice_to_vec(&OK)))
        },
        Command::GetValue(key) => match store.get(key.as_slice(), now) {
            Some(value) => Ok(Reply::Bulk(value)),
            None => Ok(Reply::Null),
        },
    }
}

/// Takes one step on the queue at index `at`, at the instant `now`.
///
/// What the step comes to, and the store afterwards, are what
/// [`step_from`] says. After a reply the index of the next command lies
/// behind `at` and never past the end of the queue.
pub fn step(queue: &Vec<RespType>, at: usize, store: &mut Store, now: u128) -> (r: Step)
    ensures
        (r@, final(store)@) == step_from(views(queue@), at as int, old(store)@, now),
        r matches Step::Replied(_, next) ==> at < next <= queue.len(),
{
    if at >= queue.len() {
        return Step::Ended(Ending::Drained);
    }
    match read_command(queue, at) {
        Next::Unknown => Step::Ended(Ending::Unrecognized),
        Next::Violation(e) => Step::Ended(Ending::Violation(e)),
        Next::Command(command, used) => match execute(command, store, now) {
            Err(e) => Step::Ended(Ending::Violation(e)),
            Ok(reply) => Step::Replied(reply, at + used),
        },
    }
}

/// Carries out the commands of a queue in order, all at the instant `now`.
///
/// The replies, the ending and the store afterwards are what
/// [`drain_from`] says of the queue from its first element on.
pub fn drain(queue: &Vec<RespType>, store: &mut Store, now: u128) -> (out: Outcome)
    ensures
        (reply_views(out.replies@), out.ending, final(store)@) == drain_from(
            views(queue@),
            0,
            old(store)@,
            now,
        ),
{
    let ghost q = views(queue@);
    let ghost whole = drain_from(q, 0, store@, now);
    let mut replies: Vec<Reply> = Vec::new();
    let mut at: usize = 0;
    loop
        invariant
            at <= queue.len(),
            q == views(queue@),
            whole == drain_from(q, 0, old(store)@, now),
            whole == after_replies(reply_views(replies@), drain_from(q, at as int, store@, now)),
        decreases queue.len() - at,
    {
        let ghost done = reply_views(replies@);
        let ghost entries = store@;
        match step(queue, at, store, now) {
            Step::Ended(ending) => {
                return Outcome { replies, ending };
            },
            Step::Replied(reply, next) => {
                proof {
                    lemma_drain_step(q, at as int, entries, now, done, reply@, next as int, store@);
                    assert(reply_views(replies@.push(reply)) =~= done.push(reply@));
                }
                replies.push(reply);
                at = next;
            },
        }
    }
}

/// The queue of commands that a request holds: the elements of an array.
/// Any other value is a violation.
pub fn queue_of(request: &RespType) -> (r: Result<&Vec<RespType>, ProtocolError>)
    ensures
        match r {
            Ok(queue) => request@ == Value::List(views(queue@)),
            Err(e) => request@ is Bulk && e == ProtocolError::NotAnArray,
        },
{
    match request {
        RespType::Array(queue) => {
            proof {
                lemma_array_view(*queue);
            }
            Ok(queue)
        },
        RespType::BulkString(_) => Err(ProtocolError::NotAnArray),
    }
}

/// Answers one decoded request at the instant `now`.
///
/// An array is drained as a queue of commands. Any other value is a
/// violation, answered by nothing, and leaves the store as it was.
pub fn respond(request: &RespType, store: &mut Store, now: u128) -> (out: Outcome)
    ensures
        (reply_views(out.replies@), out.ending, final(store)@) == answer(
            request@,
            old(store)@,
            now,
        ),
{
    match queue_of(request) {
        Ok(queue) => drain(queue, store, now),
        Err(e) => Outcome { replies: Vec::new(), ending: Ending::Violation(e) },
    }
}

} // verus!
