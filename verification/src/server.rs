//! Serving requests over a connection.

use crate::buffers::{buffered, bytes_of};
use crate::clock::may_be_now;
use crate::command::{command_of, decode_command, get_name, set_name, Command, CommandValue};
use crate::entry::{CacheEntry, EntryValue};
use crate::eviction::EvictionPolicy;
use crate::frame::{Frame, FrameValue};
use crate::grammar::{frame_at, frame_bounds, frame_extends, Reading};
use crate::locks::{reads_run_the_action, with_read, with_write, writes_run_the_action};
use crate::map::{entries, records, ShardMap};
use crate::parse::parse_frame;
use crate::reply::{reply_wire, Reply, ReplyValue};
use crate::shard::{shard_number, CacheShard, ShardedCache};
use crate::store::{
    a_read_after_a_write_gives_the_value, live_value, read_value, store_value, stored, value_of,
};
use crate::text::{ascii_bytes, ascii_lower};
use crate::wire::{bulk_string_wire, sendable, wire, wire_reads_back};
use bytes::{Bytes, BytesMut};
use parking_lot::RwLock;
use std::hash::BuildHasher;
use std::sync::Arc;
use vstd::prelude::*;

verus! {

/// How many bytes the read buffer of a connection has room for at first.
pub const INITIAL_READ_CAPACITY: usize = 8 * 1024;

/// A front end for a shared sharded cache.
#[verifier::reject_recursive_types(P)]
#[verifier::reject_recursive_types(S)]
pub struct CacheServer<P, S> {
    cache: Arc<ShardedCache<Bytes, CacheEntry, P, S>>,
    port: u16,
}

impl<P, S> CacheServer<P, S>
where
    P: EvictionPolicy,
    S: BuildHasher,
{
    /// The shared cache.
    pub closed spec fn spec_cache(&self) -> Arc<ShardedCache<Bytes, CacheEntry, P, S>> {
        self.cache
    }

    /// The port that the server listens on.
    pub closed spec fn spec_port(&self) -> u16 {
        self.port
    }

    /// Creates a server that owns a shared cache handle and listens on `port`.
    pub fn new(cache: Arc<ShardedCache<Bytes, CacheEntry, P, S>>, port: u16) -> (server: Self)
        ensures
            server.spec_cache() == cache,
            server.spec_port() == port,
    {
        CacheServer { cache, port }
    }

    /// The shared cache.
    pub fn cache(&self) -> (cache: &Arc<ShardedCache<Bytes, CacheEntry, P, S>>)
        ensures
            *cache == self.spec_cache(),
    {
        &self.cache
    }

    /// The port that the server listens on.
    pub fn port(&self) -> (port: u16)
        ensures
            port == self.spec_port(),
    {
        self.port
    }
}

/// The reply to a read that found the given value.
pub open spec fn read_reply(found: Option<Seq<u8>>) -> ReplyValue {
    match found {
        Some(value) => ReplyValue::Value(value),
        None => ReplyValue::Missing,
    }
}

/// Answers a read with what it found.
pub fn reply_to_read(value: Option<Bytes>) -> (reply: Reply)
    ensures
        reply@ == read_reply(value_of(value)),
{
    match value {
        Some(value) => Reply::Value(value),
        None => Reply::Missing,
    }
}

/// A partition after a command was executed on it.
pub open spec fn after_command(store: Map<Seq<u8>, EntryValue>, command: CommandValue) -> Map<Seq<u8>, EntryValue> {
    match command {
        CommandValue::Store { key, value } => stored(store, key, value),
        _ => store,
    }
}

/// The reply to a command that is executed on a partition at the time `now`.
pub open spec fn reply_of(store: Map<Seq<u8>, EntryValue>, command: CommandValue, now: Option<u64>) -> ReplyValue {
    match command {
        CommandValue::Store { .. } => ReplyValue::Stored,
        CommandValue::Fetch { key } => read_reply(live_value(store, key, now)),
        CommandValue::Unknown => ReplyValue::UnknownCommand,
    }
}

/// Whether a value was stored under a key: [`store_value`] was given what the lock guards, and this
/// pair of key and value.
pub closed spec fn was_written(lock: &RwLock<ShardMap<Bytes, CacheEntry>>, pair: (Bytes, Bytes)) -> bool {
    call_ensures(with_write, (lock, pair, store_value), ())
}

/// Whether a read of a key gave `value`: that is what [`read_value`] answers when it is given what
/// the lock guards, and this key.
pub closed spec fn was_read(lock: &RwLock<ShardMap<Bytes, CacheEntry>>, key: &Bytes, value: Option<Bytes>) -> bool {
    call_ensures(with_read, (lock, key, read_value), value)
}

/// Whether a value was stored under a key in a shard that the key is routed to.
pub open spec fn was_stored<P: EvictionPolicy, S: BuildHasher>(
    cache: &ShardedCache<Bytes, CacheEntry, P, S>,
    key: Seq<u8>,
    value: Seq<u8>,
) -> bool {
    exists|shard: CacheShard<Bytes, CacheEntry, P>, pair: (Bytes, Bytes)| {
        &&& cache.may_route(&pair.0, shard)
        &&& #[trigger] was_written(&shard.map, pair)
        &&& bytes_of(pair.0) == key
        &&& bytes_of(pair.1) == value
    }
}

/// Whether a read of a key, in a shard that the key is routed to, found `value`.
pub open spec fn was_fetched<P: EvictionPolicy, S: BuildHasher>(
    cache: &ShardedCache<Bytes, CacheEntry, P, S>,
    key: Seq<u8>,
    value: Option<Seq<u8>>,
) -> bool {
    exists|shard: CacheShard<Bytes, CacheEntry, P>, handle: Bytes, found: Option<Bytes>| {
        &&& cache.may_route(&handle, shard)
        &&& #[trigger] was_read(&shard.map, &handle, found)
        &&& bytes_of(handle) == key
        &&& value_of(found) == value
    }
}

/// Whether a command was executed, on a shard that its key is routed to, and answered by `reply`.
pub open spec fn was_executed<P: EvictionPolicy, S: BuildHasher>(
    cache: &ShardedCache<Bytes, CacheEntry, P, S>,
    command: CommandValue,
    reply: ReplyValue,
) -> bool {
    match command {
        CommandValue::Store { key, value } => reply is Stored && was_stored(cache, key, value),
        CommandValue::Fetch { key } => exists|found: Option<Seq<u8>>|
            #[trigger] was_fetched(cache, key, found) && reply == read_reply(found),
        CommandValue::Unknown => reply is UnknownCommand,
    }
}

/// Stores a value under a key, in the shard of the key.
pub fn execute_store<P, S>(cache: &ShardedCache<Bytes, CacheEntry, P, S>, pair: (Bytes, Bytes))
where
    P: EvictionPolicy,
    S: BuildHasher,
    ensures
        was_stored(cache, bytes_of(pair.0), bytes_of(pair.1)),
{
    let ghost given = pair;
    let shard = cache.get_shard(&pair.0);
    with_write(&shard.map, pair, store_value);
    assert(was_written(&shard.map, given));
}

/// Reads the value under a key, in the shard of the key.
pub fn execute_fetch<P, S>(cache: &ShardedCache<Bytes, CacheEntry, P, S>, key: Bytes) -> (found: Option<Bytes>)
where
    P: EvictionPolicy,
    S: BuildHasher,
    ensures
        was_fetched(cache, bytes_of(key), value_of(found)),
{
    let shard = cache.get_shard(&key);
    let found = with_read(&shard.map, &key, read_value);
    assert(was_read(&shard.map, &key, found));
    found
}

/// Executes the command in a frame, on the shard of its key, and answers it. A value is stored
/// before the reply is given. The shard is locked for the time of one read or write, so what a
/// read finds is up to the other connections.
pub fn execute_frame<P, S>(cache: &ShardedCache<Bytes, CacheEntry, P, S>, frame: Frame) -> (reply: Reply)
where
    P: EvictionPolicy,
    S: BuildHasher,
    ensures
        was_executed(cache, command_of(frame@), reply@),
{
    let command = decode_command(frame);
    let ghost decoded = command@;
    match command {
        Command::Store { key, value } => {
            execute_store(cache, (key, value));
            Reply::Stored
        },
        Command::Fetch { key } => {
            let found = execute_fetch(cache, key);
            assert(was_fetched(cache, decoded->Fetch_key, value_of(found)));
            reply_to_read(found)
        },
        Command::Unknown => Reply::UnknownCommand,
    }
}

/// What was stored under a lock is stored in a partition as [`after_command`] says.
pub proof fn stores_change_a_partition(lock: &RwLock<ShardMap<Bytes, CacheEntry>>, pair: (Bytes, Bytes))
    requires
        was_written(lock, pair),
    ensures
        exists|found: &mut ShardMap<Bytes, CacheEntry>| {
            &&& #[trigger] call_ensures(store_value, (found, pair), ())
            &&& entries(*final(found)) == after_command(
                entries(*found),
                (CommandValue::Store { key: bytes_of(pair.0), value: bytes_of(pair.1) }),
            )
        },
{
    writes_run_the_action(lock, pair, store_value, ());
    let found = choose|found: &mut ShardMap<Bytes, CacheEntry>| call_ensures(store_value, (found, pair), ());
    assert(call_ensures(store_value, (found, pair), ()));
}

/// A read under a lock is answered from a partition as [`reply_of`] says, and is recorded in the
/// entry that it finds.
pub proof fn fetches_are_answered_from_a_partition(
    lock: &RwLock<ShardMap<Bytes, CacheEntry>>,
    key: &Bytes,
    value: Option<Bytes>,
)
    requires
        was_read(lock, key, value),
    ensures
        exists|found: &ShardMap<Bytes, CacheEntry>, now: Option<u64>| {
            &&& #[trigger] call_ensures(read_value, (found, key), value)
            &&& #[trigger] may_be_now(now)
            &&& read_reply(value_of(value)) == reply_of(
                entries(*found),
                (CommandValue::Fetch { key: bytes_of(*key) }),
                now,
            )
            &&& value is Some ==> records(*found)[bytes_of(*key)].access_recorded()
        },
{
    reads_run_the_action(lock, key, read_value, value);
    let found = choose|found: &ShardMap<Bytes, CacheEntry>| call_ensures(read_value, (found, key), value);
    assert(call_ensures(read_value, (found, key), value));
    let now = choose|now: Option<u64>| #[trigger] may_be_now(now)
        && value_of(value) == live_value(entries(*found), bytes_of(*key), now);
    assert(may_be_now(now));
}

/// Where the hash builder gives a key one digest only, whatever handle shows it, a request that
/// stores a value under the key and one that reads the key use the same lock.
pub proof fn stores_and_fetches_of_a_key_meet<P: EvictionPolicy, S: BuildHasher>(
    cache: &ShardedCache<Bytes, CacheEntry, P, S>,
    key: Seq<u8>,
    value: Seq<u8>,
    found: Option<Seq<u8>>,
    digest: u64,
)
    requires
        forall|handle: Bytes, hash: u64| bytes_of(handle) == key && #[trigger] cache.may_hash(&handle, hash) ==> hash == digest,
        was_stored(cache, key, value),
        was_fetched(cache, key, found),
    ensures
        ({
            let shard = cache.shard_list()[shard_number(digest, cache.shard_list().len())];
            exists|pair: (Bytes, Bytes), handle: Bytes, got: Option<Bytes>| {
                &&& #[trigger] was_written(&shard.map, pair)
                &&& bytes_of(pair.0) == key
                &&& bytes_of(pair.1) == value
                &&& #[trigger] was_read(&shard.map, &handle, got)
                &&& bytes_of(handle) == key
                &&& value_of(got) == found
            }
        }),
{
    let shard = cache.shard_list()[shard_number(digest, cache.shard_list().len())];
    let (first, pair) = choose|first: CacheShard<Bytes, CacheEntry, P>, pair: (Bytes, Bytes)| {
        &&& cache.may_route(&pair.0, first)
        &&& #[trigger] was_written(&first.map, pair)
        &&& bytes_of(pair.0) == key
        &&& bytes_of(pair.1) == value
    };
    let (second, handle, got) = choose|second: CacheShard<Bytes, CacheEntry, P>, handle: Bytes, got: Option<Bytes>| {
        &&& cache.may_route(&handle, second)
        &&& #[trigger] was_read(&second.map, &handle, got)
        &&& bytes_of(handle) == key
        &&& value_of(got) == found
    };
    assert(first == shard && second == shard);
    assert(was_written(&shard.map, pair) && was_read(&shard.map, &handle, got));
}

/// A request that reads a key and finds its partition as a request that stored a value under it
/// has left it is answered with that value.
pub proof fn a_fetch_after_a_store_gets_the_value(
    written: &mut ShardMap<Bytes, CacheEntry>,
    pair: (Bytes, Bytes),
    found: &ShardMap<Bytes, CacheEntry>,
    key: &Bytes,
    value: Option<Bytes>,
)
    requires
        call_ensures(store_value, (written, pair), ()),
        bytes_of(*key) == bytes_of(pair.0),
        entries(*found) == entries(*final(written)),
        call_ensures(read_value, (found, key), value),
    ensures
        reply_wire(read_reply(value_of(value))) == bulk_string_wire(bytes_of(pair.1)),
{
    a_read_after_a_write_gives_the_value(written, pair, found, key, value);
}

/// What happened last on a connection.
pub enum Event {
    /// The given number of bytes arrived in the read buffer; none if the peer has closed.
    Received(usize),
    /// A reply was sent.
    Replied,
}

/// What to do next on a connection.
pub enum Action {
    /// End the connection.
    Close,
    /// Wait for more bytes.
    Receive,
    /// Execute a request and send the reply.
    Execute(Frame),
    /// End the connection because the peer broke the protocol in the way that is told.
    Fail(String),
}

/// Decides what to do next on a connection. A connection that the peer has closed is ended. Else
/// the complete requests in the read buffer are executed in turn, and taken out of it; more bytes
/// are awaited where what is left is no complete request yet.
pub fn next_action(buffer: &mut BytesMut, event: Event) -> (action: Action)
    ensures
        event == Event::Received(0) ==> action == Action::Close && buffered(*final(buffer)) == buffered(*old(buffer)),
        event != Event::Received(0) ==> match frame_at(buffered(*old(buffer)), 0, 0) {
            Reading::Complete(value, end) => {
                &&& action matches Action::Execute(frame) && frame@ == value
                &&& buffered(*final(buffer)) == buffered(*old(buffer)).skip(end)
            },
            Reading::Incomplete => {
                &&& action == Action::Receive
                &&& buffered(*final(buffer)) == buffered(*old(buffer))
            },
            Reading::Invalid(fault) => {
                &&& action matches Action::Fail(message) && message@ == fault.message()
                &&& buffered(*final(buffer)) == buffered(*old(buffer))
            },
        },
{
    if let Event::Received(0) = event {
        return Action::Close;
    }
    match parse_frame(buffer) {
        Ok(Some(frame)) => Action::Execute(frame),
        Ok(None) => Action::Receive,
        Err(message) => Action::Fail(message),
    }
}

/// The requests that stand at the front of a byte string, and the bytes behind the last of them.
pub open spec fn requests(input: Seq<u8>) -> (Seq<FrameValue>, Seq<u8>)
    decreases input.len(),
{
    match frame_at(input, 0, 0) {
        Reading::Complete(value, end) => if 0 < end <= input.len() {
            let (values, rest) = requests(input.skip(end));
            (seq![value] + values, rest)
        } else {
            (Seq::empty(), input)
        },
        _ => (Seq::empty(), input),
    }
}

/// In which portions the bytes of a connection arrive makes no difference: to serve the first
/// portion, and then what is left of it together with the second, is to serve both at once.
pub proof fn portions_make_no_difference(first: Seq<u8>, second: Seq<u8>)
    ensures
        requests(first + second).0 == requests(first).0 + requests(requests(first).1 + second).0,
        requests(first + second).1 == requests(requests(first).1 + second).1,
    decreases first.len(),
{
    frame_bounds(first, 0, 0);
    match frame_at(first, 0, 0) {
        Reading::Complete(value, end) => {
            frame_extends(first, second, 0, 0);
            portions_make_no_difference(first.skip(end), second);
            assert((first + second).skip(end) =~= first.skip(end) + second);
            let later = requests(first.skip(end));
            assert(seq![value] + (later.0 + requests(later.1 + second).0)
                =~= (seq![value] + later.0) + requests(later.1 + second).0);
        },
        _ => {
            let both = requests(first + second).0;
            assert(Seq::<FrameValue>::empty() + both =~= both);
        },
    }
}

/// The request that stores a value.
pub open spec fn store_request(key: Seq<u8>, value: Seq<u8>) -> FrameValue {
    FrameValue::Array(
        seq![FrameValue::BulkString(set_name()), FrameValue::BulkString(key), FrameValue::BulkString(value)],
    )
}

/// The request that reads a value.
pub open spec fn fetch_request(key: Seq<u8>) -> FrameValue {
    FrameValue::Array(seq![FrameValue::BulkString(get_name()), FrameValue::BulkString(key)])
}

/// A request on the wire is served as such, and then what stands behind it.
pub proof fn requests_are_taken_off_the_wire(request: FrameValue, back: Seq<u8>)
    requires
        sendable(request, 0),
        wire(request).len() <= usize::MAX,
    ensures
        frame_at(wire(request) + back, 0, 0) == Reading::Complete(request, wire(request).len() as int),
        requests(wire(request) + back).0 == seq![request] + requests(back).0,
        requests(wire(request) + back).1 == requests(back).1,
{
    let nothing = Seq::<u8>::empty();
    let input = wire(request) + back;
    wire_reads_back(nothing, request, back, 0);
    assert(nothing + wire(request) + back =~= input);
    frame_bounds(input, 0, 0);
    assert(input.skip(wire(request).len() as int) =~= back);
}

/// The request that stores a value can be sent, and stands for the command that does so.
pub proof fn store_requests_are_understood(key: Seq<u8>, value: Seq<u8>)
    ensures
        command_of(store_request(key, value)) == (CommandValue::Store { key, value }),
        key.len() <= i64::MAX && value.len() <= i64::MAX ==> sendable(store_request(key, value), 0),
{
    reveal_strlit("SET");
    reveal_with_fuel(sendable, 2);
}

/// The request that reads a value can be sent, and stands for the command that does so.
pub proof fn fetch_requests_are_understood(key: Seq<u8>)
    ensures
        command_of(fetch_request(key)) == (CommandValue::Fetch { key }),
        key.len() <= i64::MAX ==> sendable(fetch_request(key), 0),
{
    reveal_strlit("SET");
    reveal_strlit("GET");
    reveal_with_fuel(sendable, 2);
    let lower = |b: u8| ascii_lower(b);
    assert(set_name().map_values(lower)[0] != get_name().map_values(lower)[0]);
}

/// A client that sends a write and a read of the same key, without waiting in between, gets the
/// value back: the two requests are taken off the wire in turn, and on any partition the replies
/// are `OK` and the value.
pub proof fn pipelined_write_and_read(
    store: Map<Seq<u8>, EntryValue>,
    key: Seq<u8>,
    value: Seq<u8>,
    back: Seq<u8>,
    now: Option<u64>,
)
    requires
        key.len() <= i64::MAX,
        value.len() <= i64::MAX,
        wire(store_request(key, value)).len() <= usize::MAX,
        wire(fetch_request(key)).len() <= usize::MAX,
    ensures
        ({
            let write = store_request(key, value);
            let read = fetch_request(key);
            let input = wire(write) + (wire(read) + back);
            &&& requests(input).0 == seq![write, read] + requests(back).0
            &&& requests(input).1 == requests(back).1
            &&& reply_wire(reply_of(store, command_of(write), now)) == ascii_bytes("+OK\r\n"@)
            &&& reply_wire(reply_of(after_command(store, command_of(write)), command_of(read), now)) == bulk_string_wire(value)
        }),
{
    let write = store_request(key, value);
    let read = fetch_request(key);
    store_requests_are_understood(key, value);
    fetch_requests_are_understood(key);
    requests_are_taken_off_the_wire(write, wire(read) + back);
    requests_are_taken_off_the_wire(read, back);
    assert(seq![write] + (seq![read] + requests(back).0) =~= seq![write, read] + requests(back).0);
}

/// What a partition holds, and what is sent, when requests are executed on it one after the other,
/// the first of them as request number `first`. `times` tells when each request is executed.
pub open spec fn conversation(
    store: Map<Seq<u8>, EntryValue>,
    frames: Seq<FrameValue>,
    times: spec_fn(nat) -> Option<u64>,
    first: nat,
) -> (Map<Seq<u8>, EntryValue>, Seq<u8>)
    decreases frames.len(),
{
    if frames.len() == 0 {
        (store, Seq::empty())
    } else {
        let (before, sent) = conversation(store, frames.drop_last(), times, first);
        let command = command_of(frames.last());
        let now = times((first + frames.len() - 1) as nat);
        (after_command(before, command), sent + reply_wire(reply_of(before, command, now)))
    }
}

/// To execute requests, and then more of them, is to execute all.
pub proof fn conversations_continue(
    store: Map<Seq<u8>, EntryValue>,
    frames: Seq<FrameValue>,
    more: Seq<FrameValue>,
    times: spec_fn(nat) -> Option<u64>,
    first: nat,
)
    ensures
        ({
            let (before, sent) = conversation(store, frames, times, first);
            let (after, sent_then) = conversation(before, more, times, first + frames.len());
            conversation(store, frames + more, times, first) == (after, sent + sent_then)
        }),
    decreases more.len(),
{
    let (before, sent) = conversation(store, frames, times, first);
    if more.len() == 0 {
        assert(frames + more =~= frames);
        assert(sent + Seq::<u8>::empty() =~= sent);
    } else {
        let all = frames + more;
        assert(all.drop_last() =~= frames + more.drop_last());
        assert(all.last() == more.last());
        conversations_continue(store, frames, more.drop_last(), times, first);
        let (middle, sent_then) = conversation(before, more.drop_last(), times, first + frames.len());
        let command = command_of(more.last());
        let reply = reply_wire(reply_of(middle, command, times((first + all.len() - 1) as nat)));
        assert((sent + sent_then) + reply =~= sent + (sent_then + reply));
    }
}

/// Whether a request stores a value under `key`.
pub open spec fn stores_under(frame: FrameValue, key: Seq<u8>) -> bool {
    command_of(frame) matches CommandValue::Store { key: stored_key, .. } && stored_key == key
}

/// Requests that do not store under a key leave what is under it as it was.
pub proof fn other_requests_leave_an_entry(
    store: Map<Seq<u8>, EntryValue>,
    frames: Seq<FrameValue>,
    times: spec_fn(nat) -> Option<u64>,
    first: nat,
    key: Seq<u8>,
)
    requires
        forall|i: int| 0 <= i < frames.len() ==> !stores_under(#[trigger] frames[i], key),
    ensures
        ({
            let after = conversation(store, frames, times, first).0;
            &&& after.contains_key(key) == store.contains_key(key)
            &&& after[key] == store[key]
        }),
    decreases frames.len(),
{
    if frames.len() > 0 {
        assert(!stores_under(frames.last(), key));
        assert forall|i: int| 0 <= i < frames.drop_last().len() implies !stores_under(#[trigger] frames.drop_last()[i], key) by {
            assert(!stores_under(frames[i], key));
        }
        other_requests_leave_an_entry(store, frames.drop_last(), times, first, key);
    }
}

/// A read is answered with the value that was stored last under its key, whatever requests came
/// before that and whatever other requests came between, on any partition and at any time.
pub proof fn the_last_stored_value_is_read(
    store: Map<Seq<u8>, EntryValue>,
    frames: Seq<FrameValue>,
    times: spec_fn(nat) -> Option<u64>,
    first: nat,
    last: int,
    key: Seq<u8>,
    value: Seq<u8>,
    fetch: FrameValue,
)
    requires
        0 <= last < frames.len(),
        command_of(frames[last]) == (CommandValue::Store { key, value }),
        forall|i: int| last < i < frames.len() ==> !stores_under(#[trigger] frames[i], key),
        command_of(fetch) == (CommandValue::Fetch { key }),
    ensures
        ({
            let (after, sent) = conversation(store, frames, times, first);
            &&& after.contains_key(key)
            &&& after[key] == (EntryValue { key, value, expires_at: None })
            &&& conversation(store, frames.push(fetch), times, first) == (after, sent + bulk_string_wire(value))
        }),
{
    let until = frames.take(last + 1);
    let since = frames.skip(last + 1);
    assert(until.drop_last() =~= frames.take(last));
    assert(until.last() == frames[last]);
    let before = conversation(store, until, times, first).0;
    assert(before.contains_key(key));
    assert(before[key] == (EntryValue { key, value, expires_at: None }));
    assert forall|i: int| 0 <= i < since.len() implies !stores_under(#[trigger] since[i], key) by {
        assert(!stores_under(frames[last + 1 + i], key));
    }
    other_requests_leave_an_entry(before, since, times, first + until.len(), key);
    conversations_continue(store, until, since, times, first);
    assert(until + since =~= frames);
    assert(frames.push(fetch).drop_last() =~= frames);
    assert(frames.push(fetch).last() == fetch);
}

/// In which portions the bytes of a connection arrive makes no difference to the replies, if its
/// requests are executed at the same times.
pub proof fn portions_get_equal_replies(
    store: Map<Seq<u8>, EntryValue>,
    first: Seq<u8>,
    second: Seq<u8>,
    times: spec_fn(nat) -> Option<u64>,
)
    ensures
        ({
            let (served, rest) = requests(first);
            let (before, sent) = conversation(store, served, times, 0);
            let (after, sent_then) = conversation(before, requests(rest + second).0, times, served.len());
            conversation(store, requests(first + second).0, times, 0) == (after, sent + sent_then)
        }),
{
    portions_make_no_difference(first, second);
    let (served, rest) = requests(first);
    conversations_continue(store, served, requests(rest + second).0, times, 0);
}

/// Only a command that stores a value changes a partition, and only the entry under its key; what
/// is no command is answered with an error, whatever the partition holds.
pub proof fn only_stores_change_a_partition(
    store: Map<Seq<u8>, EntryValue>,
    command: CommandValue,
    other: Seq<u8>,
    now: Option<u64>,
)
    requires
        command matches CommandValue::Store { key, .. } ==> other != key,
    ensures
        live_value(after_command(store, command), other, now) == live_value(store, other, now),
        !(command is Store) ==> after_command(store, command) == store,
        command is Unknown ==> reply_of(store, command, now) is UnknownCommand,
{
}

/// What was written or read under a lock was so by the one action, under that lock.
proof fn partitions_are_used_under_their_lock(
    lock: &RwLock<ShardMap<Bytes, CacheEntry>>,
    pair: (Bytes, Bytes),
    key: &Bytes,
    value: Option<Bytes>,
)
    ensures
        was_written(lock, pair) ==> call_ensures(with_write, (lock, pair, store_value), ()),
        was_read(lock, key, value) ==> call_ensures(with_read, (lock, key, read_value), value),
{
}

/// What is stored under a key is exactly the value, in a shard that the key is routed to.
pub proof fn stores_write_the_value<P: EvictionPolicy, S: BuildHasher>(
    cache: &ShardedCache<Bytes, CacheEntry, P, S>,
    key: Seq<u8>,
    value: Seq<u8>,
)
    requires
        was_stored(cache, key, value),
    ensures
        exists|shard: CacheShard<Bytes, CacheEntry, P>, pair: (Bytes, Bytes)| {
            &&& cache.may_route(&pair.0, shard)
            &&& #[trigger] was_written(&shard.map, pair)
            &&& bytes_of(pair.0) == key
            &&& bytes_of(pair.1) == value
        },
{
}

/// What is fetched under a key is exactly what a read of the key gave, in a shard that the key is
/// routed to.
pub proof fn fetches_show_what_was_read<P: EvictionPolicy, S: BuildHasher>(
    cache: &ShardedCache<Bytes, CacheEntry, P, S>,
    key: Seq<u8>,
    value: Option<Seq<u8>>,
)
    requires
        was_fetched(cache, key, value),
    ensures
        exists|shard: CacheShard<Bytes, CacheEntry, P>, handle: Bytes, found: Option<Bytes>| {
            &&& cache.may_route(&handle, shard)
            &&& #[trigger] was_read(&shard.map, &handle, found)
            &&& bytes_of(handle) == key
            &&& found is Some ==> value == Some(bytes_of(found->0))
            &&& found is None ==> value is None
        },
{
    let (shard, handle, found) = choose|shard: CacheShard<Bytes, CacheEntry, P>, handle: Bytes, found: Option<Bytes>| {
        &&& cache.may_route(&handle, shard)
        &&& #[trigger] was_read(&shard.map, &handle, found)
        &&& bytes_of(handle) == key
        &&& value_of(found) == value
    };
    assert(was_read(&shard.map, &handle, found));
}

/// Every command is answered in its own way: a store by `OK`, a fetch by exactly what was found,
/// and everything else by an error.
pub proof fn commands_are_answered<P: EvictionPolicy, S: BuildHasher>(
    cache: &ShardedCache<Bytes, CacheEntry, P, S>,
    command: CommandValue,
    reply: ReplyValue,
)
    requires
        was_executed(cache, command, reply),
    ensures
        command matches CommandValue::Store { key, value } ==> reply == ReplyValue::Stored && was_stored(cache, key, value),
        command matches CommandValue::Fetch { key } ==> exists|found: Option<Seq<u8>>| {
            &&& #[trigger] was_fetched(cache, key, found)
            &&& found is Some ==> reply == ReplyValue::Value(found->0)
            &&& found is None ==> reply == ReplyValue::Missing
        },
        command is Unknown ==> reply == ReplyValue::UnknownCommand,
{
    if let CommandValue::Fetch { key } = command {
        let found = choose|found: Option<Seq<u8>>| #[trigger] was_fetched(cache, key, found) && reply == read_reply(found);
        assert(was_fetched(cache, key, found));
    }
}

/// What a read found is answered as it is.
pub proof fn reads_are_answered_with_what_they_found(value: Option<Bytes>, reply: Reply)
    requires
        call_ensures(reply_to_read, (value,), reply),
    ensures
        value matches Some(payload) ==> (reply matches Reply::Value(sent) && bytes_of(sent) == bytes_of(payload)),
        value is None ==> reply is Missing,
{
}

} // verus!
