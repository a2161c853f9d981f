use aether_cache::command::{decode_command, Command};
use aether_cache::entry::CacheEntry;
use aether_cache::frame::Frame;
use aether_cache::map::ShardMap;
use aether_cache::reply::Reply;
use aether_cache::server::{execute_fetch, execute_frame, execute_store, next_action, reply_to_read, Action, CacheServer, Event};
use aether_cache::shard::{SampledLfu, ShardedCache};
use aether_cache::store::{read_value, read_value_at, store_value};
use bytes::{Bytes, BytesMut};
use hashbrown::DefaultHashBuilder;
use std::sync::Arc;

type Cache = ShardedCache<Bytes, CacheEntry, SampledLfu, DefaultHashBuilder>;

fn cache() -> Cache {
    ShardedCache::with_hasher(64, DefaultHashBuilder::default())
}

fn bulk(payload: &'static [u8]) -> Frame {
    Frame::BulkString(Bytes::from_static(payload))
}

fn request(words: &[&'static [u8]]) -> Frame {
    Frame::Array(words.iter().map(|word| bulk(word)).collect())
}

fn wire_form(reply: Reply) -> Vec<u8> {
    let response = reply.encode();
    let mut sent = response.head;
    if let Some(payload) = response.payload {
        sent.extend_from_slice(&payload);
    }
    sent.extend_from_slice(&response.tail);
    sent
}

/// Serves bytes that arrive in the given portions, and returns what is sent back and how the
/// connection ends.
fn serve(cache: &Cache, portions: &[&[u8]]) -> (Vec<u8>, Result<(), String>) {
    let mut buffer = BytesMut::new();
    let mut sent = Vec::new();
    let mut arriving = portions.iter();
    loop {
        let portion: &[u8] = match arriving.next() {
            Some(portion) => portion,
            None => &[],
        };
        buffer.extend_from_slice(portion);
        let mut event = Event::Received(portion.len());
        loop {
            match next_action(&mut buffer, event) {
                Action::Close => return (sent, Ok(())),
                Action::Receive => break,
                Action::Execute(frame) => sent.extend(wire_form(execute_frame(cache, frame))),
                Action::Fail(message) => return (sent, Err(message)),
            }
            event = Event::Replied;
        }
    }
}

#[test]
fn executes_pipelined_set_and_get() {
    let cache = cache();
    let (response, end) = serve(
        &cache,
        &[b"*3\r\n$3\r\nSET\r\n$3\r\nkey\r\n$5\r\nvalue\r\n*2\r\n$3\r\nGET\r\n$3\r\nkey\r\n"],
    );
    assert_eq!(&response, b"+OK\r\n$5\r\nvalue\r\n");
    assert_eq!(end, Ok(()));
}

#[test]
fn portions_of_any_size_are_served_alike() {
    let input: &[u8] = b"*3\r\n$3\r\nset\r\n$1\r\nk\r\n$4\r\n\r\n\r\n\r\n*2\r\n$3\r\nget\r\n$1\r\nk\r\n*1\r\n$4\r\nPING\r\n";
    let expected = b"+OK\r\n$4\r\n\r\n\r\n\r\n-ERR unknown command\r\n";
    for size in 1..=input.len() {
        let portions: Vec<&[u8]> = input.chunks(size).collect();
        let (response, end) = serve(&cache(), &portions);
        assert_eq!(&response, expected);
        assert_eq!(end, Ok(()));
    }
}

#[test]
fn a_protocol_error_ends_the_connection_after_what_came_before() {
    let (response, end) = serve(&cache(), &[b"*2\r\n$3\r\nGET\r\n$1\r\nk\r\n!1\r\n*0\r\n"]);
    assert_eq!(&response, b"$-1\r\n");
    assert_eq!(end, Err("unsupported RESP type byte: 0x21".to_owned()));
}

#[test]
fn a_closed_connection_ends_whatever_is_buffered() {
    let mut buffer = BytesMut::from(&b"*0\r\n"[..]);
    assert!(matches!(next_action(&mut buffer, Event::Received(0)), Action::Close));
    assert_eq!(buffer, &b"*0\r\n"[..]);
    assert!(matches!(next_action(&mut buffer, Event::Received(4)), Action::Execute(_)));
    assert!(matches!(next_action(&mut buffer, Event::Replied), Action::Receive));
}

#[test]
fn writes_are_read_back_and_do_not_touch_other_keys() {
    let cache = cache();
    for (key, value) in [(&b"a"[..], &b"1"[..]), (b"b", b"2"), (b"a", b"3"), (b"", b"")] {
        let frame = Frame::Array(vec![
            bulk(b"SET"),
            Frame::BulkString(Bytes::copy_from_slice(key)),
            Frame::BulkString(Bytes::copy_from_slice(value)),
        ]);
        assert_eq!(wire_form(execute_frame(&cache, frame)), b"+OK\r\n");
    }
    assert_eq!(wire_form(execute_frame(&cache, request(&[b"GET", b"a"]))), b"$1\r\n3\r\n");
    assert_eq!(wire_form(execute_frame(&cache, request(&[b"GET", b"b"]))), b"$1\r\n2\r\n");
    assert_eq!(wire_form(execute_frame(&cache, request(&[b"GET", b""]))), b"$0\r\n\r\n");
    assert_eq!(wire_form(execute_frame(&cache, request(&[b"GET", b"c"]))), b"$-1\r\n");
    assert_eq!(cache.get_shard(&Bytes::from_static(b"a")).map.read().get(&Bytes::from_static(b"a")).unwrap().access_count(), 1);
}

#[test]
fn reads_of_expired_entries_find_nothing() {
    let cache = cache();
    let key = Bytes::from_static(b"key");
    let entry = CacheEntry::new(key.clone(), Bytes::from_static(b"old"), Some(0));
    cache.get_shard(&key).map.write().insert(key.clone(), entry);
    assert_eq!(wire_form(execute_frame(&cache, request(&[b"GET", b"key"]))), b"$-1\r\n");
    assert_eq!(cache.get_shard(&key).map.read().len(), 1);
    assert_eq!(wire_form(execute_frame(&cache, request(&[b"SET", b"key", b"new"]))), b"+OK\r\n");
    assert_eq!(wire_form(execute_frame(&cache, request(&[b"GET", b"key"]))), b"$3\r\nnew\r\n");
}

#[test]
fn a_partition_is_read_as_of_a_time() {
    let mut map = ShardMap::new();
    let key = Bytes::from_static(b"key");
    assert_eq!(read_value_at(&map, &key, Some(0)), None);
    let entry = CacheEntry::new_at(key.clone(), Bytes::from_static(b"v"), Some(5), Some(100));
    assert!(map.insert(key.clone(), entry).is_none());
    assert_eq!(read_value_at(&map, &key, Some(104)), Some(Bytes::from_static(b"v")));
    assert_eq!(read_value_at(&map, &key, Some(105)), None);
    assert_eq!(read_value_at(&map, &key, None), Some(Bytes::from_static(b"v")));
    assert_eq!(map.get(&key).unwrap().access_count(), 2);
    store_value(&mut map, (key.clone(), Bytes::from_static(b"w")));
    assert_eq!(map.get(&key).unwrap().access_count(), 0);
    assert_eq!(read_value_at(&map, &key, Some(u64::MAX)), Some(Bytes::from_static(b"w")));
    assert_eq!(read_value(&map, &key), Some(Bytes::from_static(b"w")));
    assert_eq!(map.len(), 1);
    assert_eq!(map.remove(&key).unwrap().value(), &Bytes::from_static(b"w"));
    assert!(map.remove(&key).is_none());
    assert_eq!(map.len(), 0);
}

#[test]
fn a_stored_value_is_fetched_from_its_shard() {
    let cache = cache();
    let key = Bytes::from_static(b"key");
    assert_eq!(execute_fetch(&cache, key.clone()), None);
    execute_store(&cache, (key.clone(), Bytes::from_static(b"value")));
    assert_eq!(execute_fetch(&cache, key.clone()), Some(Bytes::from_static(b"value")));
    assert_eq!(cache.get_shard(&key).map.read().get(&key).unwrap().access_count(), 1);
    assert_eq!(cache.shards().iter().map(|shard| shard.map.read().len()).sum::<usize>(), 1);
}

#[test]
fn the_last_stored_value_is_read_after_other_requests() {
    let cache = cache();
    let frames = [
        request(&[b"SET", b"k", b"first"]),
        request(&[b"GET", b"k"]),
        request(&[b"SET", b"k", b"a\r\nb"]),
        request(&[b"SET", b"other", b"x"]),
        request(&[b"SET", b"k"]),
        request(&[b"GET", b"k"]),
        request(&[b"DEL", b"k"]),
        Frame::Null,
    ];
    for frame in frames {
        execute_frame(&cache, frame);
    }
    assert_eq!(wire_form(execute_frame(&cache, request(&[b"GET", b"k"]))), b"$4\r\na\r\nb\r\n");
}

#[test]
fn an_empty_value_is_not_a_missing_one() {
    let cache = cache();
    assert_eq!(wire_form(execute_frame(&cache, request(&[b"sEt", b"", b""]))), b"+OK\r\n");
    assert_eq!(wire_form(execute_frame(&cache, request(&[b"gEt", b""]))), b"$0\r\n\r\n");
}

#[test]
fn a_value_is_sent_without_copying_it() {
    let payload = Bytes::from(b"payload".to_vec());
    let response = reply_to_read(Some(payload.clone())).encode();
    assert_eq!(response.head, b"$7\r\n");
    assert_eq!(response.payload.unwrap().as_ptr(), payload.as_ptr());
    assert_eq!(response.tail, b"\r\n");
}

#[test]
fn every_reply_has_its_wire_form() {
    assert_eq!(wire_form(Reply::Stored), b"+OK\r\n");
    assert_eq!(wire_form(Reply::Missing), b"$-1\r\n");
    assert_eq!(wire_form(reply_to_read(None)), b"$-1\r\n");
    assert_eq!(wire_form(Reply::UnknownCommand), b"-ERR unknown command\r\n");
    assert_eq!(wire_form(Reply::Value(Bytes::from(vec![b'x'; 1234]))).len(), 7 + 1234 + 2);
}

#[test]
fn commands_are_decoded_in_any_case() {
    for name in [&b"SET"[..], b"set", b"sEt"] {
        let frame = Frame::Array(vec![Frame::BulkString(Bytes::copy_from_slice(name)), bulk(b"k"), bulk(b"v")]);
        let Command::Store { key, value } = decode_command(frame) else {
            panic!("expected a write");
        };
        assert_eq!(key, Bytes::from_static(b"k"));
        assert_eq!(value, Bytes::from_static(b"v"));
    }
    let Command::Fetch { key } = decode_command(request(&[b"gEt", b"k"])) else {
        panic!("expected a read");
    };
    assert_eq!(key, Bytes::from_static(b"k"));
}

#[test]
fn everything_else_is_an_unknown_command() {
    let frames = vec![
        Frame::Null,
        Frame::Integer(1),
        Frame::SimpleString("GET".to_owned()),
        Frame::Error("GET".to_owned()),
        bulk(b"GET"),
        Frame::Array(vec![]),
        Frame::Array(vec![Frame::Null, bulk(b"k")]),
        Frame::Array(vec![Frame::SimpleString("GET".to_owned()), bulk(b"k")]),
        request(&[b"SET"]),
        request(&[b"SET", b"k"]),
        request(&[b"SET", b"k", b"v", b"EX"]),
        Frame::Array(vec![bulk(b"SET"), bulk(b"k"), Frame::Null]),
        Frame::Array(vec![bulk(b"SET"), Frame::Null, bulk(b"v")]),
        request(&[b"GET"]),
        request(&[b"GET", b"k", b"k"]),
        Frame::Array(vec![bulk(b"GET"), Frame::Array(vec![])]),
        request(&[b"DEL", b"k"]),
        request(&[b"GETS", b"k"]),
    ];
    let cache = cache();
    for frame in frames {
        assert!(matches!(decode_command(frame.clone()), Command::Unknown));
        assert_eq!(wire_form(execute_frame(&cache, frame)), b"-ERR unknown command\r\n");
    }
    assert!(cache.shards().iter().all(|shard| shard.map.read().len() == 0));
}

#[test]
fn a_server_shares_its_cache() {
    let cache = Arc::new(cache());
    let server = CacheServer::new(Arc::clone(&cache), 6379);
    assert_eq!(server.port(), 6379);
    assert!(Arc::ptr_eq(server.cache(), &cache));
}
