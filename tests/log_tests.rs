use commitlog::config::Config;
use commitlog::error::LogError;
use commitlog::index::Index;
use commitlog::log::Log;
use commitlog::record::Record;
use commitlog::recovery::{base_offsets, parse_store_name};
use commitlog::segment::Segment;
use commitlog::store::Store;
use memmap2::MmapMut;

fn fresh_index(capacity: usize) -> Index {
    Index::new(MmapMut::map_anon(capacity).unwrap(), 0).unwrap()
}

fn fresh_segment(config: Config, base: u64) -> Segment {
    Segment::new(Store::new(Vec::new()), fresh_index(config.max_index_bytes), config, base).unwrap()
}

fn fresh_log(config: Config) -> Log {
    let config = config.with_defaults();
    let seg = fresh_segment(config, config.initial_offset);
    Log::new(config, vec![seg]).unwrap()
}

#[test]
fn test_log_single_thread() {
    let mut log = fresh_log(Config::new(0, 0, 0));
    let vec = String::from("SWapnil").as_bytes().to_vec();
    let offset = log.append(vec.clone()).unwrap();
    assert_eq!(0, offset);
    let out = log.read(offset);
    assert!(out.is_ok());
    let value = out.unwrap();
    for i in 0..vec.len() {
        assert_eq!(vec.get(i).unwrap(), value.value.get(i).unwrap());
    }
}

#[test]
fn test_index() {
    let mut index = fresh_index(120);
    for i in 0..10u32 {
        index.write(i, (i as u64 + 1) * 1000u64).unwrap();
    }
    for i in 0..10i64 {
        assert_eq!((i as u64 + 1) * 1000u64, index.read(i).unwrap().1);
    }
    assert_eq!((9, 10 * 1000u64), index.read(9).unwrap());
    let other = fresh_index(108);
    assert_eq!(other.capacity(), 108);
}

#[test]
fn test_segment() {
    let config = Config::new(1000, 120, 0);
    let mut segment = fresh_segment(config, 1000);
    let record = Record::from_data(String::from("abc").into_bytes());
    let offset = segment.append(record.clone()).unwrap();
    let record2 = segment.read(offset).unwrap();
    assert_eq!(record.value, record2.value);
}

fn add_value_to_store_and_verify(store: &mut Store, data: Vec<u8>) -> u64 {
    let offset = store.append(data.clone());
    assert!(offset.is_ok());
    let offset_val = offset.unwrap();
    let output = store.read(offset_val);
    assert!(output.is_ok());
    assert_eq!(data, output.unwrap());
    offset_val
}

#[test]
fn test_store_first_time() {
    let data = String::from("My name is Rahul").as_bytes().to_vec();
    let data_2 = String::from("My name is Amol").as_bytes().to_vec();
    let mut store = Store::new(Vec::new());
    let off_1 = add_value_to_store_and_verify(&mut store, data.clone());
    let off_2 = add_value_to_store_and_verify(&mut store, data_2.clone());
    let on_disk = store.close();
    let store = Store::new(on_disk);
    assert_eq!(data, store.read(off_1).unwrap());
    assert_eq!(data_2, store.read(off_2).unwrap());
}

#[test]
fn fresh_log_append_hello() {
    let mut log = fresh_log(Config::new(0, 0, 0));
    assert_eq!(log.append(b"hello".to_vec()), Ok(0));
    assert_eq!(log.read(0).unwrap().value, b"hello".to_vec());
    assert_eq!(log.read(0).unwrap().offset, 0);
}

#[test]
fn offsets_increase_by_one_from_initial() {
    let mut log = fresh_log(Config::new(0, 0, 7));
    for k in 0..5u64 {
        assert_eq!(log.append(vec![k as u8]), Ok(7 + k));
    }
    assert_eq!(log.read(6).unwrap_err(), LogError::NotFound);
    assert_eq!(log.read(12).unwrap_err(), LogError::NotFound);
}

#[test]
fn rotation_on_full_store() {
    let config = Config::new(9, 1024, 0);
    let mut log = fresh_log(config);
    assert_eq!(log.append(vec![1]), Ok(0));
    let base = log.rotation_due().unwrap();
    assert_eq!(base, 1);
    log.rotate(fresh_segment(log.config, base)).unwrap();
    assert_eq!(log.append(vec![2]), Ok(1));
    assert_eq!(log.segments.len(), 2);
    assert_eq!(log.segments[0].base_offset, 0);
    assert_eq!(log.segments[1].base_offset, 1);
    assert_eq!(log.read(0).unwrap().value, vec![1]);
    assert_eq!(log.read(1).unwrap().value, vec![2]);
    assert_eq!(log.segments[0].read(1).unwrap_err(), LogError::NotFound);
    assert_eq!(log.segments[1].read(0).unwrap_err(), LogError::NotFound);
}

#[test]
fn rotate_rejects_wrong_base() {
    let mut log = fresh_log(Config::new(9, 1024, 0));
    log.append(vec![1]).unwrap();
    let wrong = fresh_segment(log.config, 5);
    assert_eq!(log.rotate(wrong), Err(LogError::Corrupt));
    assert_eq!(log.segments.len(), 1);
}

#[test]
fn no_rotation_while_room() {
    let mut log = fresh_log(Config::new(1000, 1024, 0));
    log.append(vec![1]).unwrap();
    assert_eq!(log.rotation_due(), None);
}

#[test]
fn index_capacity_boundary() {
    let mut index = fresh_index(120);
    for i in 0..10u32 {
        assert_eq!(index.write(i, i as u64), Ok(()));
    }
    assert_eq!(index.write(10, 10), Err(LogError::Capacity));
    assert_eq!(index.size(), 120);
    assert_eq!(index.read(10), Err(LogError::NotFound));
}

#[test]
fn index_sentinel_reads_last() {
    let mut index = fresh_index(120);
    for i in 0..10u32 {
        index.write(i, (i as u64) * 3).unwrap();
    }
    assert_eq!(index.read(-1), Ok((9, 27)));
    assert_eq!(index.read(-1), index.read(9));
}

#[test]
fn empty_index_read_fails() {
    let index = fresh_index(120);
    assert_eq!(index.read(-1), Err(LogError::NotFound));
    assert_eq!(index.read(0), Err(LogError::NotFound));
}

#[test]
fn index_rejects_bad_size() {
    assert_eq!(Index::new(MmapMut::map_anon(120).unwrap(), 13).err(), Some(LogError::Corrupt));
    assert_eq!(Index::new(MmapMut::map_anon(120).unwrap(), 132).err(), Some(LogError::Corrupt));
}

#[test]
fn index_entry_bytes_are_big_endian() {
    let mut index = fresh_index(24);
    index.write(0x01020304, 0x05060708090a0b0c).unwrap();
    assert_eq!(&index.mem_map[..12], &[1, 2, 3, 4, 5, 6, 7, 8, 9, 10, 11, 12]);
    assert_eq!(index.close(), Ok(12));
}

#[test]
fn reopen_recovers_next_offset() {
    let config = Config::new(1024, 120, 0);
    let mut seg = fresh_segment(config, 1000);
    for k in 0..5u8 {
        seg.append(Record::from_data(vec![k])).unwrap();
    }
    let (store_bytes, index_len) = seg.close().unwrap();
    assert_eq!(index_len, 60);
    let mut map = MmapMut::map_anon(120).unwrap();
    map.copy_from_slice(&seg.index.mem_map[..]);
    let index = Index::new(map, index_len).unwrap();
    let mut reopened = Segment::new(Store::new(store_bytes), index, config, 1000).unwrap();
    assert_eq!(reopened.next_offset, 1005);
    for k in 0..5u8 {
        assert_eq!(reopened.read(1000 + k as u64).unwrap().value, vec![k]);
    }
    assert_eq!(reopened.append(Record::from_data(vec![9])), Ok(1005));
}

#[test]
fn reopened_log_reads_same_payloads() {
    let config = Config::new(40, 1024, 0).with_defaults();
    let mut log = fresh_log(config);
    let payloads: Vec<Vec<u8>> = vec![b"one".to_vec(), b"two".to_vec(), b"three".to_vec()];
    for p in &payloads {
        log.append(p.clone()).unwrap();
        if let Some(b) = log.rotation_due() {
            log.rotate(fresh_segment(log.config, b)).unwrap();
        }
    }
    let mut segments = Vec::new();
    for seg in log.segments.iter() {
        let mut map = MmapMut::map_anon(seg.index.capacity()).unwrap();
        map.copy_from_slice(&seg.index.mem_map[..]);
        let index = Index::new(map, seg.index.size()).unwrap();
        let store = Store::new(seg.store.data.clone());
        segments.push(Segment::new(store, index, config, seg.base_offset).unwrap());
    }
    let again = Log::new(config, segments).unwrap();
    for (k, p) in payloads.iter().enumerate() {
        assert_eq!(&again.read(k as u64).unwrap().value, p);
    }
}

#[test]
fn store_read_bounds() {
    let mut store = Store::new(Vec::new());
    let at = store.append(b"xy".to_vec()).unwrap();
    assert_eq!(at, 0);
    assert_eq!(store.size(), 10);
    assert_eq!(store.read(11), Err(LogError::NotFound));
    assert_eq!(store.read(10), Err(LogError::Corrupt));
    assert_eq!(store.data[..8], [0, 0, 0, 0, 0, 0, 0, 2]);
    assert_eq!(store.append(Vec::new()), Ok(10));
    assert_eq!(store.read(10), Ok(Vec::new()));
}

#[test]
fn store_flush_hands_out_new_bytes_once() {
    let mut store = Store::new(vec![0, 0, 0, 0, 0, 0, 0, 1, 7]);
    assert_eq!(store.read(0), Ok(vec![7]));
    store.append(vec![8]).unwrap();
    assert_eq!(store.flush(), vec![0, 0, 0, 0, 0, 0, 0, 1, 8]);
    assert_eq!(store.flush(), Vec::<u8>::new());
}

#[test]
fn record_wire_form() {
    let rec = Record::new(5, b"hi".to_vec());
    assert_eq!(rec.encode(), vec![8, 5, 18, 2, b'h', b'i']);
    assert_eq!(Record::new(0, Vec::new()).encode(), Vec::<u8>::new());
    assert_eq!(Record::new(300, Vec::new()).encode(), vec![8, 0xac, 0x02]);
    let back = Record::decode(&rec.encode()).unwrap();
    assert_eq!(back.offset, 5);
    assert_eq!(back.value, b"hi".to_vec());
    let big = Record::new(u64::MAX, vec![1; 200]);
    let back = Record::decode(&big.encode()).unwrap();
    assert_eq!(back.offset, u64::MAX);
    assert_eq!(back.value, vec![1; 200]);
}

#[test]
fn record_decode_rejects_garbage() {
    assert_eq!(Record::decode(&vec![8]).err(), Some(LogError::Corrupt));
    assert_eq!(Record::decode(&vec![18, 5, 1]).err(), Some(LogError::Corrupt));
    assert_eq!(Record::decode(&vec![8, 0x80, 0x00]).err(), Some(LogError::Corrupt));
    assert_eq!(Record::decode(&vec![99]).err(), Some(LogError::Corrupt));
}

#[test]
fn record_set_offset() {
    let mut rec = Record::from_data(vec![1, 2]);
    assert_eq!(rec.offset, 0);
    rec.set_offset(42);
    assert_eq!(rec.offset, 42);
    assert_eq!(rec.value, vec![1, 2]);
}

#[test]
fn segment_rejects_inconsistent_index() {
    let mut index = fresh_index(120);
    index.write(3, 0).unwrap();
    let r = Segment::new(Store::new(Vec::new()), index, Config::new(10, 120, 0), 0);
    assert_eq!(r.err(), Some(LogError::Corrupt));
}

#[test]
fn segment_read_checks_offset_in_record() {
    let config = Config::new(1000, 120, 0);
    let mut seg = fresh_segment(config, 0);
    seg.append(Record::from_data(vec![1])).unwrap();
    assert_eq!(seg.read(1).unwrap_err(), LogError::NotFound);
    // an index entry pointing at a frame of another record
    let other = Record::new(77, vec![2]).encode();
    let pos = seg.store.append(other).unwrap();
    seg.index.write(1, pos).unwrap();
    seg.next_offset = 2;
    assert_eq!(seg.read(1).unwrap_err(), LogError::Corrupt);
}

#[test]
fn config_defaults_replace_zero() {
    let c = Config::new(0, 0, 3).with_defaults();
    assert_eq!(c, Config::new(1024, 1024, 3));
    assert_eq!(Config::new(5, 6, 0).with_defaults(), Config::new(5, 6, 0));
}

#[test]
fn log_without_segments_fails() {
    assert_eq!(Log::new(Config::new(0, 0, 0), Vec::new()).err(), Some(LogError::Config));
}

#[test]
fn log_rejects_overlapping_segments() {
    let config = Config::new(1000, 120, 0);
    let mut a = fresh_segment(config, 0);
    a.append(Record::from_data(vec![1])).unwrap();
    a.append(Record::from_data(vec![2])).unwrap();
    let b = fresh_segment(config, 1);
    assert_eq!(Log::new(config, vec![a, b]).err(), Some(LogError::Corrupt));
}

#[test]
fn store_names_parse() {
    assert_eq!(parse_store_name("1000.store"), Some(1000));
    assert_eq!(parse_store_name("0.store"), Some(0));
    assert_eq!(parse_store_name("18446744073709551615.store"), Some(u64::MAX));
    assert_eq!(parse_store_name("18446744073709551616.store"), None);
    assert_eq!(parse_store_name("1000.index"), None);
    assert_eq!(parse_store_name(".store"), None);
    assert_eq!(parse_store_name("1a.store"), None);
}

#[test]
fn base_offsets_sorted_distinct() {
    let names: Vec<String> = vec!["20.store", "20.index", "3.store", "notes", "20.store", "100.store"]
        .into_iter()
        .map(String::from)
        .collect();
    assert_eq!(base_offsets(&names, 0), vec![3, 20, 100]);
    let none: Vec<String> = vec!["x".to_string()];
    assert_eq!(base_offsets(&none, 42), vec![42]);
}

#[test]
fn append_request_payload_is_utf8_bytes() {
    let req = commitlog::dto::AppendRequest { data: "héllo".to_string() };
    assert_eq!(req.payload(), "héllo".as_bytes().to_vec());
}

#[test]
fn read_response_from_record() {
    let rec = Record::new(4, b"hey".to_vec());
    let resp = commitlog::dto::ReadResponse::from_record(rec).unwrap();
    assert_eq!(resp.offset, 4);
    assert_eq!(resp.value, "hey");
    assert!(commitlog::dto::ReadResponse::from_record(Record::new(1, vec![0xff, 0xfe])).is_none());
    let q = commitlog::dto::ReadRequest { offset: 9 };
    assert_eq!(q.offset, 9);
}

#[test]
fn segment_append_capacity_changes_nothing() {
    let config = Config::new(1000, 24, 0);
    let mut seg = fresh_segment(config, 0);
    assert_eq!(seg.append(Record::from_data(vec![1])), Ok(0));
    assert_eq!(seg.append(Record::from_data(vec![2])), Ok(1));
    let store_len = seg.store.data.len();
    assert_eq!(seg.append(Record::from_data(vec![3])), Err(LogError::Capacity));
    assert_eq!(seg.store.data.len(), store_len);
    assert_eq!(seg.next_offset, 2);
    assert_eq!(seg.index.read(-1), Ok((1, 11)));
}

#[test]
fn segment_index_holds_relative_offsets() {
    let config = Config::new(1000, 120, 0);
    let mut seg = fresh_segment(config, 500);
    for k in 0..3u8 {
        seg.append(Record::from_data(vec![k])).unwrap();
    }
    assert_eq!(seg.index.read(0), Ok((0, 0)));
    assert_eq!(seg.index.read(1), Ok((1, 14)));
    assert_eq!(seg.index.read(2), Ok((2, 28)));
}

#[test]
fn log_append_capacity_when_index_full() {
    let config = Config::new(1000, 12, 0);
    let mut log = Log::new(config, vec![fresh_segment(config, 0)]).unwrap();
    assert_eq!(log.append(vec![1]), Ok(0));
    assert_eq!(log.append(vec![2]), Err(LogError::Capacity));
    assert_eq!(log.rotation_due(), Some(1));
}

#[test]
fn rotate_rejects_when_active_empty() {
    let mut log = fresh_log(Config::new(1000, 1024, 4));
    let seg = fresh_segment(log.config, 4);
    assert_eq!(log.rotate(seg), Err(LogError::Corrupt));
}

#[test]
fn log_rejects_duplicate_base() {
    let config = Config::new(1000, 120, 0);
    let a = fresh_segment(config, 3);
    let b = fresh_segment(config, 3);
    assert_eq!(Log::new(config, vec![a, b]).err(), Some(LogError::Corrupt));
}

#[test]
fn store_names_with_leading_zero_are_refused() {
    assert_eq!(parse_store_name("02.store"), None);
    assert_eq!(parse_store_name("00.store"), None);
    assert_eq!(parse_store_name("0.store"), Some(0));
    assert_eq!(parse_store_name("20.store"), Some(20));
}

#[test]
fn index_capacity_failure_keeps_bytes() {
    let mut index = fresh_index(12);
    index.write(7, 8).unwrap();
    let before: Vec<u8> = index.mem_map[..].to_vec();
    assert_eq!(index.write(9, 9), Err(LogError::Capacity));
    assert_eq!(index.mem_map[..].to_vec(), before);
    assert_eq!(index.read(-1), Ok((7, 8)));
}

#[test]
fn store_pending_then_mark_written() {
    let mut store = Store::new(Vec::new());
    store.append(vec![5]).unwrap();
    assert_eq!(store.pending(), vec![0, 0, 0, 0, 0, 0, 0, 1, 5]);
    assert_eq!(store.pending(), vec![0, 0, 0, 0, 0, 0, 0, 1, 5]);
    store.mark_written();
    assert_eq!(store.pending(), Vec::<u8>::new());
}
