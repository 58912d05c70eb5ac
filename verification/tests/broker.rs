use std::path::Path;
use riftline::add;
use riftline::broker::{consume_key, consume_responses, produce_reply, produce_write, responses_from};
use riftline::object_store::LocalFileSystemStore;
use riftline::offsets::BasicOffsetCommit;
use riftline::segment::{encode_records, split_records};
use riftline::text::{int_to_text, segment_key};
use riftline::wire::{CommitRequest, ConsumeRequest, FetchRequest, ProduceRequest};

fn consume_all(data: &[u8], topic: &str, partition: i32, offset: i64) -> Vec<Vec<u8>> {
    let req = ConsumeRequest { topic: topic.into(), partition, offset };
    consume_responses(data, &req).into_iter().map(|r| r.message).collect()
}

#[test]
fn it_works() {
    let result = add(2, 2);
    assert_eq!(result, 4);
}

#[test]
fn producer_writes_to_store() {
    let request = ProduceRequest {
        topic: "test".into(),
        messages: vec![b"one".to_vec(), b"two".to_vec()],
    };
    let write = produce_write(&request);
    assert_eq!(write.key, "segments/test/segment_0.log");
    assert_eq!(write.bytes, b"one\ntwo\n".to_vec());
    let reply = produce_reply();
    assert_eq!(reply.partition, 0);
    assert_eq!(reply.offset, 0);
}

#[test]
fn producer_persists_to_files() {
    let store = LocalFileSystemStore::new(b"/tmp/dir".to_vec());
    let request = ProduceRequest { topic: "topic".into(), messages: vec![b"hello".to_vec()] };
    let write = produce_write(&request);
    assert_eq!(store.path_for_key(&write.key), b"/tmp/dir/segments/topic/segment_0.log".to_vec());
    assert_eq!(write.bytes, b"hello\n");
}

#[test]
fn produce_then_consume() {
    let request = ProduceRequest {
        topic: "topic".into(),
        messages: vec![b"one".to_vec(), b"two".to_vec()],
    };
    let write = produce_write(&request);
    let consume = ConsumeRequest { topic: "topic".into(), partition: 0, offset: 0 };
    assert_eq!(consume_key(&consume), write.key);
    let messages: Vec<Vec<u8>> =
        consume_responses(&write.bytes, &consume).into_iter().map(|r| r.message).collect();
    assert_eq!(messages, vec![b"one".to_vec(), b"two".to_vec()]);
}

#[test]
fn commit_and_fetch_roundtrip() {
    let mut service = BasicOffsetCommit::default();
    let resp = service.commit(CommitRequest {
        topic: "topic".into(),
        partition: 0,
        offset: 5,
        consumer_group: "group".into(),
    });
    assert!(resp.success);
    let resp = service.fetch(&FetchRequest {
        topic: "topic".into(),
        partition: 0,
        consumer_group: "group".into(),
    });
    assert_eq!(resp.offset, 5);
}

#[test]
fn commit_overwrite() {
    let mut service = BasicOffsetCommit::default();
    service.commit(CommitRequest {
        topic: "t".into(),
        partition: 0,
        offset: 1,
        consumer_group: "g".into(),
    });
    service.commit(CommitRequest {
        topic: "t".into(),
        partition: 0,
        offset: 2,
        consumer_group: "g".into(),
    });
    let resp = service.fetch(&FetchRequest {
        topic: "t".into(),
        partition: 0,
        consumer_group: "g".into(),
    });
    assert_eq!(resp.offset, 2);
}

#[test]
fn fetch_defaults_to_zero() {
    let service = BasicOffsetCommit::default();
    let resp = service.fetch(&FetchRequest {
        topic: "t".into(),
        partition: 0,
        consumer_group: "g".into(),
    });
    assert_eq!(resp.offset, 0);
}

#[test]
fn persistence_roundtrip() {
    let request = ProduceRequest {
        topic: "topic".into(),
        messages: vec![b"m1".to_vec(), b"m2".to_vec()],
    };
    let write = produce_write(&request);
    let messages = consume_all(&write.bytes, "topic", 0, 0);
    assert_eq!(messages, vec![b"m1".to_vec(), b"m2".to_vec()]);

    let mut offsets = BasicOffsetCommit::default();
    offsets.commit(CommitRequest {
        topic: "topic".into(),
        partition: 0,
        offset: messages.len() as i64,
        consumer_group: "group".into(),
    });
    let resp = offsets.fetch(&FetchRequest {
        topic: "topic".into(),
        partition: 0,
        consumer_group: "group".into(),
    });
    assert_eq!(resp.offset, messages.len() as i64);
}

#[test]
fn consume_from_middle_offset() {
    let data = b"a\nbb\nccc\n";
    let req = ConsumeRequest { topic: "t".into(), partition: 0, offset: 1 };
    let responses = consume_responses(data, &req);
    assert_eq!(responses.len(), 2);
    assert_eq!(responses[0].offset, 1);
    assert_eq!(responses[0].message, b"bb".to_vec());
    assert_eq!(responses[1].offset, 2);
    assert_eq!(responses[1].message, b"ccc".to_vec());
}

#[test]
fn consume_past_end_or_negative_is_empty() {
    let data = b"a\nb\n";
    assert!(consume_all(data, "t", 0, 2).is_empty());
    assert!(consume_all(data, "t", 0, 100).is_empty());
    assert!(consume_all(data, "t", 0, -1).is_empty());
    assert!(consume_all(b"", "t", 0, 0).is_empty());
}

#[test]
fn split_skips_empty_lines_and_keeps_unterminated_tail() {
    let records = split_records(b"\n\none\n\ntwo");
    assert_eq!(records, vec![b"one".to_vec(), b"two".to_vec()]);
    assert!(split_records(b"\n\n\n").is_empty());
}

#[test]
fn frame_round_trip_law() {
    let messages = vec![b"x".to_vec(), b"hello world".to_vec(), vec![0u8, 255, 7]];
    let bytes = encode_records(&messages);
    assert_eq!(split_records(&bytes), messages);
}

#[test]
fn empty_messages_are_lost_on_read_back() {
    let messages = vec![b"a".to_vec(), Vec::new(), b"b".to_vec()];
    let bytes = encode_records(&messages);
    assert_eq!(bytes, b"a\n\nb\n".to_vec());
    assert_eq!(split_records(&bytes), vec![b"a".to_vec(), b"b".to_vec()]);
}

#[test]
fn responses_from_numbers_messages() {
    let recs = vec![b"p".to_vec(), b"q".to_vec(), b"r".to_vec()];
    let all = responses_from(&recs, 0);
    let offsets: Vec<i64> = all.iter().map(|r| r.offset).collect();
    assert_eq!(offsets, vec![0, 1, 2]);
    let tail = responses_from(&recs, 2);
    assert_eq!(tail.len(), 1);
    assert_eq!(tail[0].offset, 2);
    assert_eq!(tail[0].message, b"r".to_vec());
}

#[test]
fn segment_keys() {
    assert_eq!(segment_key("orders", 0), "segments/orders/segment_0.log");
    assert_eq!(segment_key("orders", 12), "segments/orders/segment_12.log");
    assert_eq!(segment_key("t", -3), "segments/t/segment_-3.log");
    let req = ConsumeRequest { topic: "x".into(), partition: 7, offset: 0 };
    assert_eq!(consume_key(&req), "segments/x/segment_7.log");
}

#[test]
fn integers_display_as_rust_does() {
    for n in [0, 7, 10, 99, 100, 2024, -1, -10, i32::MAX, i32::MIN] {
        assert_eq!(int_to_text(n), n.to_string());
    }
}

#[test]
fn commit_keeps_other_keys() {
    let mut service = BasicOffsetCommit::default();
    service.commit(CommitRequest { topic: "t".into(), partition: 0, offset: 3, consumer_group: "g".into() });
    service.commit(CommitRequest { topic: "t".into(), partition: 1, offset: 4, consumer_group: "g".into() });
    service.commit(CommitRequest { topic: "t".into(), partition: 0, offset: 5, consumer_group: "h".into() });
    service.commit(CommitRequest { topic: "u".into(), partition: 0, offset: 6, consumer_group: "g".into() });
    let fetch = |t: &str, p: i32, g: &str| {
        service
            .fetch(&FetchRequest { topic: t.into(), partition: p, consumer_group: g.into() })
            .offset
    };
    assert_eq!(fetch("t", 0, "g"), 3);
    assert_eq!(fetch("t", 1, "g"), 4);
    assert_eq!(fetch("t", 0, "h"), 5);
    assert_eq!(fetch("u", 0, "g"), 6);
    assert_eq!(fetch("u", 1, "g"), 0);
}

#[test]
fn paths_join_like_std() {
    let cases = [("data", "foo"), ("data/", "foo"), ("", "foo"), ("data", "/abs/x"), ("/r", "nested/path/file"), ("data", "")];
    for (root, key) in cases {
        let store = LocalFileSystemStore::new(root.as_bytes().to_vec());
        let expected = Path::new(root).join(key);
        assert_eq!(store.path_for_key(key), expected.to_str().unwrap().as_bytes().to_vec());
    }
    let store = LocalFileSystemStore::new(b"data".to_vec());
    assert_eq!(store.root_dir(), b"data");
}

#[test]
fn non_utf8_root_is_kept() {
    let store = LocalFileSystemStore::new(vec![0xff, b'd']);
    assert_eq!(store.path_for_key("f"), vec![0xff, b'd', b'/', b'f']);
    assert_eq!(store.path_for_key("/abs"), b"/abs".to_vec());
    assert_eq!(store.path_for_key("\u{e9}"), vec![0xff, b'd', b'/', 0xc3, 0xa9]);
}
