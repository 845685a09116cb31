use kving::{encode_record, Bitcask, Config, Error, Moved};
use std::collections::BTreeMap;

struct Engine {
    b: Bitcask,
    disk: BTreeMap<u64, Vec<u8>>,
    now: u64,
}

fn open(config: Config, disk: BTreeMap<u64, Vec<u8>>, now: u64) -> Result<Engine, Error> {
    let ids: Vec<u64> = disk.keys().cloned().collect();
    let contents: Vec<Vec<u8>> = ids.iter().map(|id| disk[id].clone()).collect();
    let (b, _) = Bitcask::recover(config, ids, &contents, now)?;
    let mut disk = disk;
    disk.insert(b.active_file_id(), Vec::new());
    Ok(Engine { b, disk, now })
}

fn append(e: &mut Engine, bytes: &[u8]) -> u64 {
    let file = e.disk.get_mut(&e.b.active_file_id()).unwrap();
    let start = file.len() as u64;
    file.extend_from_slice(bytes);
    start
}

fn put(e: &mut Engine, key: &[u8], value: &[u8]) {
    let size = 28 + key.len() as u64 + value.len() as u64;
    let end = e.disk[&e.b.active_file_id()].len() as u64;
    if e.b.needs_rotation(end, size) {
        let id = e.b.reserve_file_id(e.now).unwrap();
        e.disk.insert(id, Vec::new());
        e.b.activate(id);
    }
    let bytes = encode_record(e.now, key, value);
    let start = append(e, &bytes);
    e.b.commit_put(key.to_vec(), value.len() as u64, e.now, start);
}

fn delete(e: &mut Engine, key: &[u8]) {
    if e.b.contains(key) {
        let bytes = encode_record(e.now, key, &[0]);
        append(e, &bytes);
        e.b.commit_delete(key);
    }
}

fn get(e: &Engine, key: &[u8]) -> Result<Option<Vec<u8>>, Error> {
    match e.b.locate(key) {
        None => Ok(None),
        Some((pos, start)) => e.b.read_value(&e.disk[&pos.file_id][start as usize..]),
    }
}

fn merge(e: &mut Engine) {
    let merge_id = e.b.reserve_file_id(e.now).unwrap();
    let active = e.b.reserve_file_id(e.now).unwrap();
    e.disk.insert(active, Vec::new());
    e.b.activate(active);
    let sealed = e.b.sealed_file_ids();
    let mut out = Vec::new();
    let mut moved: Vec<Moved> = Vec::new();
    for id in &sealed {
        let bytes = e.disk[id].clone();
        e.b.merge_file(*id, &bytes, merge_id, &mut out, &mut moved).unwrap();
    }
    e.disk.insert(merge_id, out);
    e.b.install_merge(&moved);
    for id in &sealed {
        e.disk.remove(id);
    }
    e.b.set_file_ids(e.disk.keys().cloned().collect());
}

fn small(max_file_size: u64, max_historical_files: u32, strict: bool) -> Config {
    Config::builder()
        .set_max_file_size(max_file_size)
        .set_max_historical_files(max_historical_files)
        .set_strict_crc_validation(strict)
        .build()
}

#[test]
fn put_then_get_bytes() {
    let mut e = open(Config::builder().build(), BTreeMap::new(), 100).unwrap();
    put(&mut e, b"a", &[0x01, 0x02]);
    assert_eq!(get(&e, b"a").unwrap(), Some(vec![0x01, 0x02]));
    assert!(e.b.contains(b"a"));
}

#[test]
fn overwrite_then_delete() {
    let mut e = open(Config::builder().build(), BTreeMap::new(), 100).unwrap();
    put(&mut e, b"a", b"v1");
    put(&mut e, b"a", b"v2");
    assert_eq!(get(&e, b"a").unwrap(), Some(b"v2".to_vec()));
    delete(&mut e, b"a");
    assert_eq!(get(&e, b"a").unwrap(), None);
    assert!(!e.b.contains(b"a"));
}

#[test]
fn delete_of_missing_key_writes_nothing() {
    let mut e = open(Config::builder().build(), BTreeMap::new(), 100).unwrap();
    delete(&mut e, b"nope");
    assert!(e.disk[&e.b.active_file_id()].is_empty());
}

#[test]
fn empty_key_is_allowed() {
    let mut e = open(Config::builder().build(), BTreeMap::new(), 100).unwrap();
    put(&mut e, b"", b"empty");
    assert_eq!(get(&e, b"").unwrap(), Some(b"empty".to_vec()));
}

#[test]
fn small_files_rotate() {
    let mut e = open(small(64, 10, false), BTreeMap::new(), 100).unwrap();
    for i in 1..=5 {
        let k = format!("k{}", i);
        let v = format!("v{}", i);
        put(&mut e, k.as_bytes(), v.as_bytes());
    }
    assert!(e.disk.len() >= 2);
    let mut keys: Vec<Vec<u8>> = e.b.list_keys();
    keys.sort();
    let want: Vec<Vec<u8>> = (1..=5).map(|i| format!("k{}", i).into_bytes()).collect();
    assert_eq!(keys, want);
    for i in 1..=5 {
        let k = format!("k{}", i);
        assert_eq!(get(&e, k.as_bytes()).unwrap(), Some(format!("v{}", i).into_bytes()));
    }
}

#[test]
fn rotation_threshold() {
    let e = open(small(64, 10, false), BTreeMap::new(), 100).unwrap();
    assert!(!e.b.needs_rotation(32, 32));
    assert!(e.b.needs_rotation(33, 32));
    assert!(e.b.needs_rotation(0, 65));
    assert!(e.b.needs_rotation(u64::MAX, u64::MAX));
}

#[test]
fn ids_are_distinct_within_one_second() {
    let mut e = open(small(40, 10, false), BTreeMap::new(), 100).unwrap();
    put(&mut e, b"a", b"1");
    put(&mut e, b"b", b"2");
    put(&mut e, b"c", b"3");
    assert_eq!(e.disk.len(), 3);
    assert_eq!(e.disk.keys().cloned().collect::<Vec<u64>>(), vec![100, 101, 102]);
}

#[test]
fn last_write_wins_across_files() {
    let mut e = open(small(40, 10, false), BTreeMap::new(), 100).unwrap();
    put(&mut e, b"k", b"1");
    put(&mut e, b"k", b"2");
    assert!(e.disk.len() >= 2);
    let disk = e.disk.clone();
    let e2 = open(small(40, 10, false), disk, 100).unwrap();
    assert_eq!(get(&e2, b"k").unwrap(), Some(b"2".to_vec()));
}

#[test]
fn reopen_after_drop() {
    let mut e = open(Config::builder().build(), BTreeMap::new(), 100).unwrap();
    put(&mut e, b"x", b"1");
    let disk = e.disk.clone();
    drop(e);
    let e2 = open(Config::builder().build(), disk, 100).unwrap();
    assert_eq!(get(&e2, b"x").unwrap(), Some(b"1".to_vec()));
    assert!(e2.b.active_file_id() > 100);
}

#[test]
fn recovery_respects_tombstones_and_truncation() {
    let mut e = open(Config::builder().build(), BTreeMap::new(), 100).unwrap();
    put(&mut e, b"a", b"1");
    put(&mut e, b"b", b"2");
    delete(&mut e, b"a");
    put(&mut e, b"c", b"3");
    let mut disk = e.disk.clone();
    let active = e.b.active_file_id();
    let file = disk.get_mut(&active).unwrap();
    let cut = file.len() - 2;
    file.truncate(cut);
    let e2 = open(Config::builder().build(), disk, 100).unwrap();
    assert_eq!(get(&e2, b"a").unwrap(), None);
    assert_eq!(get(&e2, b"b").unwrap(), Some(b"2".to_vec()));
    assert!(!e2.b.contains(b"c"));
}

#[test]
fn strict_open_fails_on_flipped_key_byte() {
    let mut disk = BTreeMap::new();
    let mut bytes = encode_record(5, b"key", b"value");
    bytes[28] ^= 0x01;
    disk.insert(7u64, bytes);
    let r = open(small(1 << 20, 10, true), disk.clone(), 100);
    assert!(matches!(r, Err(Error::CorruptedData)));
    let e = open(small(1 << 20, 10, false), disk.clone(), 100).unwrap();
    assert!(!e.b.contains(b"key"));
    assert!(!e.b.contains(b"kex"));
    let mut b = Bitcask::new(small(1 << 20, 10, false), vec![7], 100).unwrap();
    assert_eq!(b.replay_file(7, &disk[&7]).unwrap(), 1);
    assert!(b.list_keys().is_empty());
}

#[test]
fn zero_handle_cache_is_invalid_data() {
    let config = Config::builder().set_max_file_handle_caches(0).build();
    let r = Bitcask::new(config, Vec::new(), 100);
    assert!(matches!(r, Err(Error::InvalidData(_))));
}

#[test]
fn bool_values() {
    assert_eq!(kving::bool_to_value(true), vec![1u8]);
    assert_eq!(kving::bool_to_value(false), vec![0u8]);
    assert_eq!(kving::bool_from_value(&[1]), Some(true));
    assert_eq!(kving::bool_from_value(&[0]), Some(false));
    assert_eq!(kving::bool_from_value(&[2]), Some(false));
    assert_eq!(kving::bool_from_value(&[1, 1]), None);
}

#[test]
fn lenient_open_skips_only_the_bad_record() {
    let mut disk = BTreeMap::new();
    let mut bytes = encode_record(5, b"bad", b"1");
    bytes[30] ^= 0x10;
    bytes.extend_from_slice(&encode_record(6, b"good", b"2"));
    disk.insert(7u64, bytes);
    let e = open(small(1 << 20, 10, false), disk, 100).unwrap();
    assert!(!e.b.contains(b"bad"));
    assert_eq!(get(&e, b"good").unwrap(), Some(b"2".to_vec()));
}

#[test]
fn strict_get_reports_corruption() {
    let mut e = open(small(1 << 20, 10, true), BTreeMap::new(), 100).unwrap();
    put(&mut e, b"a", b"hello");
    let active = e.b.active_file_id();
    e.disk.get_mut(&active).unwrap()[33] ^= 0xff;
    assert!(matches!(get(&e, b"a"), Err(Error::CorruptedData)));
    let mut l = open(small(1 << 20, 10, false), BTreeMap::new(), 100).unwrap();
    put(&mut l, b"a", b"hello");
    let active = l.b.active_file_id();
    l.disk.get_mut(&active).unwrap()[33] ^= 0xff;
    assert_eq!(get(&l, b"a").unwrap(), None);
}

#[test]
fn merge_compacts_and_keeps_values() {
    let mut e = open(small(40, 2, false), BTreeMap::new(), 100).unwrap();
    put(&mut e, b"a", b"1");
    put(&mut e, b"b", b"2");
    put(&mut e, b"a", b"3");
    put(&mut e, b"c", b"4");
    delete(&mut e, b"c");
    put(&mut e, b"d", b"5");
    assert!(e.b.can_merge());
    let before = e.disk.len();
    merge(&mut e);
    assert!(!e.b.can_merge());
    assert!(e.disk.len() < before);
    assert_eq!(e.disk.len(), 2);
    assert_eq!(get(&e, b"a").unwrap(), Some(b"3".to_vec()));
    assert_eq!(get(&e, b"b").unwrap(), Some(b"2".to_vec()));
    assert_eq!(get(&e, b"c").unwrap(), None);
    assert_eq!(get(&e, b"d").unwrap(), Some(b"5".to_vec()));
    let live: usize = [(1usize, 1usize), (1, 1), (1, 1)].iter().map(|(k, v)| 28 + k + v).sum();
    let sealed: usize = e.disk.iter().filter(|(id, _)| **id != e.b.active_file_id()).map(|(_, f)| f.len()).sum();
    assert_eq!(sealed, live);
}

#[test]
fn merge_then_reopen_keeps_newest() {
    let mut e = open(small(40, 2, false), BTreeMap::new(), 100).unwrap();
    put(&mut e, b"a", b"1");
    put(&mut e, b"b", b"2");
    put(&mut e, b"c", b"3");
    merge(&mut e);
    put(&mut e, b"a", b"9");
    let e2 = open(small(40, 2, false), e.disk.clone(), 100).unwrap();
    assert_eq!(get(&e2, b"a").unwrap(), Some(b"9".to_vec()));
    assert_eq!(get(&e2, b"b").unwrap(), Some(b"2".to_vec()));
    assert_eq!(get(&e2, b"c").unwrap(), Some(b"3".to_vec()));
}

#[test]
fn merge_skips_entries_overwritten_since() {
    let mut e = open(small(1 << 20, 1, false), BTreeMap::new(), 100).unwrap();
    put(&mut e, b"a", b"1");
    let merge_id = e.b.reserve_file_id(e.now).unwrap();
    let active = e.b.reserve_file_id(e.now).unwrap();
    e.disk.insert(active, Vec::new());
    e.b.activate(active);
    let mut out = Vec::new();
    let mut moved: Vec<Moved> = Vec::new();
    let bytes = e.disk[&100].clone();
    e.b.merge_file(100, &bytes, merge_id, &mut out, &mut moved).unwrap();
    assert_eq!(moved.len(), 1);
    put(&mut e, b"a", b"2");
    e.disk.insert(merge_id, out);
    e.b.install_merge(&moved);
    assert_eq!(get(&e, b"a").unwrap(), Some(b"2".to_vec()));
}

#[test]
fn can_merge_counts_sealed_files() {
    let mut e = open(small(40, 2, false), BTreeMap::new(), 100).unwrap();
    assert!(!e.b.can_merge());
    put(&mut e, b"a", b"1");
    put(&mut e, b"b", b"2");
    assert!(!e.b.can_merge());
    put(&mut e, b"c", b"3");
    assert!(e.b.can_merge());
    assert_eq!(e.b.sealed_file_ids().len(), 2);
}

#[test]
fn no_id_left_is_invalid_data() {
    let mut disk = BTreeMap::new();
    disk.insert(u64::MAX, Vec::new());
    let r = open(Config::builder().build(), disk, 100);
    assert!(matches!(r, Err(Error::InvalidData(_))));
}

#[test]
fn recover_reports_skipped_records_per_file() {
    let mut bad = encode_record(5, b"x", b"1");
    bad[29] ^= 0x01;
    let good = encode_record(6, b"y", b"2");
    let contents = vec![good.clone(), bad.clone()];
    let (b, skipped) = Bitcask::recover(Config::builder().build(), vec![3, 4], &contents, 100).unwrap();
    assert_eq!(skipped, vec![0, 1]);
    assert!(b.contains(b"y"));
    assert!(!b.contains(b"x"));
    assert_eq!(b.active_file_id(), 100);
    let strict = Config::builder().set_strict_crc_validation(true).build();
    let r = Bitcask::recover(strict, vec![3, 4], &contents, 100);
    assert!(matches!(r, Err(Error::CorruptedData)));
}

#[test]
fn recover_replays_files_in_the_given_order() {
    let first = encode_record(1, b"k", b"old");
    let second = encode_record(1, b"k", b"new");
    let contents = vec![first, second];
    let (b, _) = Bitcask::recover(Config::builder().build(), vec![10, 11], &contents, 5).unwrap();
    let (pos, start) = b.locate(b"k").unwrap();
    assert_eq!(pos.file_id, 11);
    assert_eq!(start, 0);
    assert_eq!(b.read_value(&contents[1]).unwrap(), Some(b"new".to_vec()));
    assert_eq!(b.active_file_id(), 12);
}
