//! What holds across the engine's operations.
use crate::bitcask::{
    install, install_one, is_live, merge_scan, pos_of_record, replay, replay_files, rest_of,
    MovedView,
};
use crate::codec::{
    crc_matches, is_record_bytes, is_tombstone_value, lemma_read_encoded, record_complete,
    stored_key, stored_key_size, stored_size, stored_timestamp, stored_value,
    stored_value_size, HEADER_SIZE,
};
use crate::keydir::RecordPos;
use vstd::prelude::*;

verus! {

/// The index entry that a put of `key` and `value` at offset `start` of file `file_id`
/// records.
pub open spec fn put_entry(file_id: u64, start: nat, key: Seq<u8>, value: Seq<u8>, timestamp: u64) -> RecordPos {
    RecordPos {
        file_id,
        value_size: value.len() as u64,
        value_pos: (start + HEADER_SIZE + key.len()) as u64,
        timestamp,
    }
}

/// What reading `key` gives, with the index `index` and `file` the contents of the file
/// its entry names: the value of the record at the entry's start, when it is whole and
/// its checksum matches.
pub open spec fn read_back(index: Map<Seq<u8>, RecordPos>, key: Seq<u8>, file: Seq<u8>) -> Option<Seq<u8>> {
    if !index.contains_key(key) {
        None
    } else {
        let rest = rest_of(file, (index[key].value_pos - HEADER_SIZE - key.len()) as nat);
        if record_complete(rest) && crc_matches(rest) {
            Some(stored_value(rest))
        } else {
            None
        }
    }
}

/// Put, then get: once a record of `key` and `value` has been appended to a file after
/// `prefix`, and the index points `key` at it, the key is in the index and reading it
/// back gives `value`, whatever follows the record.
pub proof fn lemma_put_then_get(
    index: Map<Seq<u8>, RecordPos>,
    file_id: u64,
    prefix: Seq<u8>,
    record: Seq<u8>,
    rest: Seq<u8>,
    timestamp: u64,
    key: Seq<u8>,
    value: Seq<u8>,
)
    requires
        is_record_bytes(record, timestamp, key, value),
        prefix.len() + HEADER_SIZE + key.len() <= u64::MAX,
    ensures
        index.insert(key, put_entry(file_id, prefix.len(), key, value, timestamp)).contains_key(key),
        read_back(
            index.insert(key, put_entry(file_id, prefix.len(), key, value, timestamp)),
            key,
            prefix + record + rest,
        ) == Some(value),
{
    let file = prefix + record + rest;
    assert(rest_of(file, prefix.len()) =~= record + rest);
    lemma_read_encoded(record, rest, timestamp, key, value);
}

/// Overwrite: after two puts of one key, the second record appended after `prefix`,
/// reading the key gives the second value.
pub proof fn lemma_overwrite(
    index: Map<Seq<u8>, RecordPos>,
    first: RecordPos,
    file_id: u64,
    prefix: Seq<u8>,
    record: Seq<u8>,
    rest: Seq<u8>,
    timestamp: u64,
    key: Seq<u8>,
    value: Seq<u8>,
)
    requires
        is_record_bytes(record, timestamp, key, value),
        prefix.len() + HEADER_SIZE + key.len() <= u64::MAX,
    ensures
        read_back(
            index.insert(key, first).insert(key, put_entry(file_id, prefix.len(), key, value, timestamp)),
            key,
            prefix + record + rest,
        ) == Some(value),
{
    let second = put_entry(file_id, prefix.len(), key, value, timestamp);
    assert(index.insert(key, first).insert(key, second) =~= index.insert(key, second));
    lemma_put_then_get(index, file_id, prefix, record, rest, timestamp, key, value);
}

/// Delete: after a put and a delete of one key, the key is not in the index and reading
/// it gives nothing, whatever the files hold.
pub proof fn lemma_delete(index: Map<Seq<u8>, RecordPos>, key: Seq<u8>, pos: RecordPos, file: Seq<u8>)
    ensures
        !index.insert(key, pos).remove(key).contains_key(key),
        read_back(index.insert(key, pos).remove(key), key, file) is None,
{
}


/// Reading file contents `s` record by record from offset `off` lands on offset `target`.
pub open spec fn scan_reaches(s: Seq<u8>, off: nat, target: nat) -> bool
    decreases s.len() - off,
{
    if off == target {
        true
    } else if off >= s.len() || !record_complete(rest_of(s, off)) {
        false
    } else {
        scan_reaches(s, off + stored_size(rest_of(s, off)), target)
    }
}

/// Last write wins across files: replaying, after any earlier files, a file whose last
/// record is a put of `key` that the scan reaches leaves `key` pointing at that put, and
/// reading it back gives its value.
pub proof fn lemma_last_write_wins(
    index: Map<Seq<u8>, RecordPos>,
    file_id: u64,
    s: Seq<u8>,
    off: nat,
    record: Seq<u8>,
    timestamp: u64,
    key: Seq<u8>,
    value: Seq<u8>,
)
    requires
        is_record_bytes(record, timestamp, key, value),
        !is_tombstone_value(value),
        s.len() >= record.len(),
        s.subrange(s.len() - record.len(), s.len() as int) == record,
        s.len() <= u64::MAX,
        scan_reaches(s, off, (s.len() - record.len()) as nat),
    ensures
        replay(index, file_id, s, off).contains_key(key),
        replay(index, file_id, s, off)[key] == put_entry(
            file_id,
            (s.len() - record.len()) as nat,
            key,
            value,
            timestamp,
        ),
        read_back(replay(index, file_id, s, off), key, s) == Some(value),
    decreases s.len() - off,
{
    let start = (s.len() - record.len()) as nat;
    let prefix = s.subrange(0, start as int);
    assert(s =~= prefix + record + Seq::<u8>::empty());
    lemma_read_encoded(record, Seq::<u8>::empty(), timestamp, key, value);
    assert(rest_of(s, start) =~= record + Seq::<u8>::empty());
    if off == start {
        let after = index.insert(key, pos_of_record(file_id, s, start));
        assert(start + stored_size(rest_of(s, start)) == s.len());
        assert(replay(after, file_id, s, s.len()) == after);
        assert(pos_of_record(file_id, s, start) == put_entry(file_id, start, key, value, timestamp));
        lemma_put_then_get(index, file_id, prefix, record, Seq::<u8>::empty(), timestamp, key, value);
    } else {
        let rest = rest_of(s, off);
        let next = off + stored_size(rest);
        let after = if !crc_matches(rest) {
            index
        } else if is_tombstone_value(stored_value(rest)) {
            index.remove(crate::codec::stored_key(rest))
        } else {
            index.insert(crate::codec::stored_key(rest), pos_of_record(file_id, s, off))
        };
        assert(replay(index, file_id, s, off) == replay(after, file_id, s, next));
        lemma_last_write_wins(after, file_id, s, next, record, timestamp, key, value);
    }
}


/// Offset of the first byte of the record whose value lies at `pos`, for `key`.
pub open spec fn record_start(pos: RecordPos, key: Seq<u8>) -> nat {
    (pos.value_pos - HEADER_SIZE - key.len()) as nat
}

/// `a` from offset `i` and `b` from offset `j` hold the same whole record.
pub open spec fn same_record(a: Seq<u8>, i: nat, b: Seq<u8>, j: nat) -> bool {
    let size = stored_size(rest_of(b, j));
    &&& record_complete(rest_of(b, j))
    &&& j + size <= b.len()
    &&& i + size <= a.len()
    &&& a.subrange(i as int, (i + size) as int) == b.subrange(j as int, (j + size) as int)
}

/// A copied record reads in `out`, at its new place, as it read at its old place in the
/// contents `files` gives its old file.
pub open spec fn move_faithful(m: MovedView, files: Map<u64, Seq<u8>>, out: Seq<u8>) -> bool {
    &&& files.contains_key(m.1.file_id)
    &&& m.1.value_pos >= HEADER_SIZE + m.0.len()
    &&& m.2.value_pos >= HEADER_SIZE + m.0.len()
    &&& same_record(out, record_start(m.2, m.0), files[m.1.file_id], record_start(m.1, m.0))
}

/// A whole record reads the same wherever its bytes stand.
pub proof fn lemma_same_record_reads_same(a: Seq<u8>, i: nat, b: Seq<u8>, j: nat)
    requires
        same_record(a, i, b, j),
    ensures
        record_complete(rest_of(a, i)),
        crc_matches(rest_of(a, i)) == crc_matches(rest_of(b, j)),
        stored_value(rest_of(a, i)) == stored_value(rest_of(b, j)),
        stored_key(rest_of(a, i)) == stored_key(rest_of(b, j)),
{
    let ra = rest_of(a, i);
    let rb = rest_of(b, j);
    let size = stored_size(rb);
    assert(ra.subrange(0, size as int) =~= rb.subrange(0, size as int)) by {
        assert(ra.subrange(0, size as int) =~= a.subrange(i as int, (i + size) as int));
        assert(rb.subrange(0, size as int) =~= b.subrange(j as int, (j + size) as int));
    }
    assert(ra.subrange(0, 4) =~= ra.subrange(0, size as int).subrange(0, 4));
    assert(rb.subrange(0, 4) =~= rb.subrange(0, size as int).subrange(0, 4));
    assert(ra.subrange(4, 12) =~= ra.subrange(0, size as int).subrange(4, 12));
    assert(rb.subrange(4, 12) =~= rb.subrange(0, size as int).subrange(4, 12));
    assert(ra.subrange(12, 20) =~= ra.subrange(0, size as int).subrange(12, 20));
    assert(rb.subrange(12, 20) =~= rb.subrange(0, size as int).subrange(12, 20));
    assert(ra.subrange(20, 28) =~= ra.subrange(0, size as int).subrange(20, 28));
    assert(rb.subrange(20, 28) =~= rb.subrange(0, size as int).subrange(20, 28));
    assert(stored_size(ra) == size);
    assert(ra.subrange(4, size as int) =~= rb.subrange(4, size as int)) by {
        assert(ra.subrange(4, size as int) =~= ra.subrange(0, size as int).subrange(4, size as int));
        assert(rb.subrange(4, size as int) =~= rb.subrange(0, size as int).subrange(4, size as int));
    }
    assert(stored_value(ra) =~= stored_value(rb)) by {
        assert(stored_value(ra) =~= ra.subrange(0, size as int).subrange(
            28 + stored_key_size(ra) as int,
            size as int,
        ));
        assert(stored_value(rb) =~= rb.subrange(0, size as int).subrange(
            28 + stored_key_size(rb) as int,
            size as int,
        ));
    }
    assert(stored_key(ra) =~= stored_key(rb)) by {
        assert(stored_key(ra) =~= ra.subrange(0, size as int).subrange(28, 28 + stored_key_size(ra) as int));
        assert(stored_key(rb) =~= rb.subrange(0, size as int).subrange(28, 28 + stored_key_size(rb) as int));
    }
}

/// A merge pass over one file keeps what came before it and copies each record it
/// notes byte for byte: every new move starts from the index's entry for its key, in
/// that file, and lands in the merge file.
pub proof fn lemma_merge_scan_faithful(
    index: Map<Seq<u8>, RecordPos>,
    files: Map<u64, Seq<u8>>,
    file_id: u64,
    off: nat,
    merge_id: u64,
    out: Seq<u8>,
    moves: Seq<MovedView>,
)
    requires
        files.contains_key(file_id),
        off <= files[file_id].len() <= u64::MAX,
        out.len() + files[file_id].len() - off <= u64::MAX,
        forall|i: int| 0 <= i < moves.len() ==> move_faithful(#[trigger] moves[i], files, out),
    ensures
        ({
            let (o, m) = merge_scan(index, file_id, files[file_id], off, merge_id, out, moves);
            &&& o.len() >= out.len()
            &&& o.len() <= out.len() + files[file_id].len() - off
            &&& o.subrange(0, out.len() as int) == out
            &&& m.len() >= moves.len()
            &&& m.subrange(0, moves.len() as int) == moves
            &&& forall|i: int| 0 <= i < m.len() ==> move_faithful(#[trigger] m[i], files, o)
            &&& forall|i: int| moves.len() <= i < m.len() ==> {
                &&& index.contains_key((#[trigger] m[i]).0)
                &&& index[m[i].0] == m[i].1
                &&& m[i].1.file_id == file_id
                &&& m[i].2.file_id == merge_id
            }
        }),
    decreases files[file_id].len() - off,
{
    let s = files[file_id];
    if off >= s.len() || !record_complete(rest_of(s, off)) {
        assert(out.subrange(0, out.len() as int) =~= out);
        assert(moves.subrange(0, moves.len() as int) =~= moves);
    } else {
        let rest = rest_of(s, off);
        let size = stored_size(rest);
        let next = off + size;
        if crc_matches(rest) && is_live(index, file_id, s, off) {
            let key = stored_key(rest);
            let to = RecordPos {
                file_id: merge_id,
                value_size: stored_value_size(rest) as u64,
                value_pos: (out.len() + HEADER_SIZE + stored_key_size(rest)) as u64,
                timestamp: stored_timestamp(rest) as u64,
            };
            let out2 = out + rest.subrange(0, size as int);
            let mv = (key, index[key], to);
            let moves2 = moves.push(mv);
            assert(key.len() == stored_key_size(rest));
            assert(record_start(index[key], key) == off);
            assert(record_start(to, key) == out.len());
            assert(out2.subrange(out.len() as int, (out.len() + size) as int) =~= s.subrange(off as int, (off + size) as int));
            assert forall|i: int| 0 <= i < moves2.len() implies move_faithful(#[trigger] moves2[i], files, out2) by {
                if i < moves.len() {
                    let m = moves[i];
                    let a = record_start(m.2, m.0);
                    let n = stored_size(rest_of(files[m.1.file_id], record_start(m.1, m.0)));
                    assert(out2.subrange(a as int, (a + n) as int) =~= out.subrange(a as int, (a + n) as int));
                } else {
                    assert(moves2[i] == mv);
                }
            }
            lemma_merge_scan_faithful(index, files, file_id, next, merge_id, out2, moves2);
            let (o, m) = merge_scan(index, file_id, s, next, merge_id, out2, moves2);
            assert(o.subrange(0, out.len() as int) =~= o.subrange(0, out2.len() as int).subrange(0, out.len() as int));
            assert(m.subrange(0, moves.len() as int) =~= m.subrange(0, moves2.len() as int).subrange(0, moves.len() as int));
            assert(m[moves.len() as int] == m.subrange(0, moves2.len() as int)[moves.len() as int]);
        } else {
            lemma_merge_scan_faithful(index, files, file_id, next, merge_id, out, moves);
        }
    }
}


/// Putting in copied records that all land in file `merge_id`, from other files, changes
/// each key at most once: from its entry before to the place its move names.
pub proof fn lemma_install_moves_once(index: Map<Seq<u8>, RecordPos>, ms: Seq<MovedView>, merge_id: u64)
    requires
        forall|i: int| 0 <= i < ms.len() ==> (#[trigger] ms[i]).2.file_id == merge_id,
        forall|i: int| 0 <= i < ms.len() ==> (#[trigger] ms[i]).1.file_id != merge_id,
    ensures
        install(index, ms).dom() == index.dom(),
        forall|k: Seq<u8>| #[trigger] index.contains_key(k) ==> install(index, ms)[k] == index[k]
            || exists|i: int| 0 <= i < ms.len() && (#[trigger] ms[i]).0 == k && ms[i].1 == index[k]
                && ms[i].2 == install(index, ms)[k] && ms[i].2.value_pos >= HEADER_SIZE + k.len(),
    decreases ms.len(),
{
    if ms.len() > 0 {
        let rest = ms.subrange(1, ms.len() as int);
        let first = install_one(index, ms[0]);
        assert forall|i: int| 0 <= i < rest.len() implies (#[trigger] rest[i]).2.file_id == merge_id
            && rest[i].1.file_id != merge_id by {
            assert(rest[i] == ms[i + 1]);
        }
        lemma_install_moves_once(first, rest, merge_id);
        assert(first.dom() =~= index.dom());
        let after = install(index, ms);
        assert(after == install(first, rest));
        assert forall|k: Seq<u8>| #[trigger] index.contains_key(k) implies after[k] == index[k]
            || exists|i: int| 0 <= i < ms.len() && (#[trigger] ms[i]).0 == k && ms[i].1 == index[k]
                && ms[i].2 == after[k] && ms[i].2.value_pos >= HEADER_SIZE + k.len() by {
            assert(first.contains_key(k));
            if first[k] == index[k] {
                if after[k] != first[k] {
                    let j = choose|j: int| 0 <= j < rest.len() && (#[trigger] rest[j]).0 == k
                        && rest[j].1 == first[k] && rest[j].2 == after[k]
                        && rest[j].2.value_pos >= HEADER_SIZE + k.len();
                    assert(ms[j + 1] == rest[j]);
                }
            } else {
                assert(first[k] == ms[0].2);
                if after[k] != first[k] {
                    let j = choose|j: int| 0 <= j < rest.len() && (#[trigger] rest[j]).0 == k
                        && rest[j].1 == first[k] && rest[j].2 == after[k]
                        && rest[j].2.value_pos >= HEADER_SIZE + k.len();
                    assert(rest[j].1.file_id != merge_id);
                }
                assert(ms[0].0 == k);
            }
        }
    }
}

/// Putting in faithful copies keeps every read: with the merge file's contents `out`
/// added as file `merge_id`, each key of the index is still there and reads back as it
/// did before, whether it moved or not.
pub proof fn lemma_install_preserves_reads(
    index: Map<Seq<u8>, RecordPos>,
    files: Map<u64, Seq<u8>>,
    merge_id: u64,
    out: Seq<u8>,
    ms: Seq<MovedView>,
)
    requires
        !files.contains_key(merge_id),
        forall|k: Seq<u8>| #[trigger] index.contains_key(k) ==> files.contains_key(index[k].file_id),
        forall|i: int| 0 <= i < ms.len() ==> (#[trigger] ms[i]).2.file_id == merge_id,
        forall|i: int| 0 <= i < ms.len() ==> move_faithful(#[trigger] ms[i], files, out),
    ensures
        install(index, ms).dom() == index.dom(),
        forall|k: Seq<u8>| #[trigger] index.contains_key(k) ==> read_back(
            install(index, ms),
            k,
            files.insert(merge_id, out)[install(index, ms)[k].file_id],
        ) == read_back(index, k, files[index[k].file_id]),
{
    assert forall|i: int| 0 <= i < ms.len() implies (#[trigger] ms[i]).1.file_id != merge_id by {
        assert(move_faithful(ms[i], files, out));
    }
    lemma_install_moves_once(index, ms, merge_id);
    let after = install(index, ms);
    let files2 = files.insert(merge_id, out);
    assert forall|k: Seq<u8>| #[trigger] index.contains_key(k) implies read_back(after, k, files2[after[k].file_id])
        == read_back(index, k, files[index[k].file_id]) by {
        if after[k] != index[k] {
            let i = choose|i: int| 0 <= i < ms.len() && (#[trigger] ms[i]).0 == k && ms[i].1 == index[k]
                && ms[i].2 == after[k] && ms[i].2.value_pos >= HEADER_SIZE + k.len();
            assert(move_faithful(ms[i], files, out));
            lemma_same_record_reads_same(
                out,
                record_start(after[k], k),
                files[index[k].file_id],
                record_start(index[k], k),
            );
        }
    }
}

/// Merge preserves what reads see: merging sealed file `file_id` into a new file
/// `merge_id` and putting the copies into the index keeps every key, and each reads back
/// as before, the merge file's contents standing beside the other files.
pub proof fn lemma_merge_preserves_reads(
    index: Map<Seq<u8>, RecordPos>,
    files: Map<u64, Seq<u8>>,
    file_id: u64,
    merge_id: u64,
)
    requires
        files.contains_key(file_id),
        !files.contains_key(merge_id),
        files[file_id].len() <= u64::MAX,
        forall|k: Seq<u8>| #[trigger] index.contains_key(k) ==> files.contains_key(index[k].file_id),
    ensures
        ({
            let (out, ms) = merge_scan(index, file_id, files[file_id], 0, merge_id, seq![], seq![]);
            &&& install(index, ms).dom() == index.dom()
            &&& forall|k: Seq<u8>| #[trigger] index.contains_key(k) ==> read_back(
                install(index, ms),
                k,
                files.insert(merge_id, out)[install(index, ms)[k].file_id],
            ) == read_back(index, k, files[index[k].file_id])
        }),
{
    lemma_merge_scan_faithful(index, files, file_id, 0, merge_id, seq![], seq![]);
    let (out, ms) = merge_scan(index, file_id, files[file_id], 0, merge_id, seq![], seq![]);
    lemma_install_preserves_reads(index, files, merge_id, out, ms);
}


/// The merge output and moves after merging the sealed files `ids`, in order, each
/// pass going on from where the one before left off.
pub open spec fn merge_files(
    index: Map<Seq<u8>, RecordPos>,
    files: Map<u64, Seq<u8>>,
    ids: Seq<u64>,
    merge_id: u64,
    out: Seq<u8>,
    moves: Seq<MovedView>,
) -> (Seq<u8>, Seq<MovedView>)
    decreases ids.len(),
{
    if ids.len() == 0 {
        (out, moves)
    } else {
        let (o, m) = merge_scan(index, ids[0], files[ids[0]], 0, merge_id, out, moves);
        merge_files(index, files, ids.subrange(1, ids.len() as int), merge_id, o, m)
    }
}

/// The bytes that the copied records `ms` take, read at their old places.
pub open spec fn moved_size(ms: Seq<MovedView>, files: Map<u64, Seq<u8>>) -> nat
    decreases ms.len(),
{
    if ms.len() == 0 {
        0
    } else {
        moved_size(ms.drop_last(), files) + stored_size(
            rest_of(files[ms.last().1.file_id], record_start(ms.last().1, ms.last().0)),
        )
    }
}

/// A merge pass over one file grows the output by exactly the records it copies.
pub proof fn lemma_merge_scan_size(
    index: Map<Seq<u8>, RecordPos>,
    files: Map<u64, Seq<u8>>,
    file_id: u64,
    off: nat,
    merge_id: u64,
    out: Seq<u8>,
    moves: Seq<MovedView>,
)
    requires
        files.contains_key(file_id),
        off <= files[file_id].len() <= u64::MAX,
        out.len() + files[file_id].len() - off <= u64::MAX,
        out.len() == moved_size(moves, files),
    ensures
        ({
            let (o, m) = merge_scan(index, file_id, files[file_id], off, merge_id, out, moves);
            o.len() == moved_size(m, files)
        }),
    decreases files[file_id].len() - off,
{
    let s = files[file_id];
    if off < s.len() && record_complete(rest_of(s, off)) {
        let rest = rest_of(s, off);
        let size = stored_size(rest);
        if crc_matches(rest) && is_live(index, file_id, s, off) {
            let key = stored_key(rest);
            let to = RecordPos {
                file_id: merge_id,
                value_size: stored_value_size(rest) as u64,
                value_pos: (out.len() + HEADER_SIZE + stored_key_size(rest)) as u64,
                timestamp: stored_timestamp(rest) as u64,
            };
            let moves2 = moves.push((key, index[key], to));
            assert(moves2.drop_last() =~= moves);
            assert(record_start(index[key], key) == off);
            lemma_merge_scan_size(index, files, file_id, off + size, merge_id, out + rest.subrange(0, size as int), moves2);
        } else {
            lemma_merge_scan_size(index, files, file_id, off + size, merge_id, out, moves);
        }
    }
}

/// A merge of several sealed files copies faithfully, from the index's entries in those
/// files to the merge file, and its output is exactly as large as the records copied.
pub proof fn lemma_merge_files_faithful(
    index: Map<Seq<u8>, RecordPos>,
    files: Map<u64, Seq<u8>>,
    ids: Seq<u64>,
    merge_id: u64,
    out: Seq<u8>,
    moves: Seq<MovedView>,
)
    requires
        forall|i: int| 0 <= i < ids.len() ==> files.contains_key(#[trigger] ids[i]),
        forall|i: int| 0 <= i < ids.len() ==> #[trigger] ids[i] != merge_id,
        out.len() + total_len(files, ids) <= u64::MAX,
        forall|i: int| 0 <= i < moves.len() ==> move_faithful(#[trigger] moves[i], files, out),
        forall|i: int| 0 <= i < moves.len() ==> (#[trigger] moves[i]).2.file_id == merge_id,
        out.len() == moved_size(moves, files),
    ensures
        ({
            let (o, m) = merge_files(index, files, ids, merge_id, out, moves);
            &&& forall|i: int| 0 <= i < m.len() ==> move_faithful(#[trigger] m[i], files, o)
            &&& forall|i: int| 0 <= i < m.len() ==> (#[trigger] m[i]).2.file_id == merge_id
            &&& o.len() == moved_size(m, files)
        }),
    decreases ids.len(),
{
    if ids.len() > 0 {
        let id = ids[0];
        let rest = ids.subrange(1, ids.len() as int);
        assert(files.contains_key(ids[0]));
        assert(ids =~= seq![id] + rest);
        lemma_total_len_split(files, id, rest);
        lemma_merge_scan_faithful(index, files, id, 0, merge_id, out, moves);
        lemma_merge_scan_size(index, files, id, 0, merge_id, out, moves);
        let (o, m) = merge_scan(index, id, files[id], 0, merge_id, out, moves);
        assert forall|i: int| 0 <= i < m.len() implies (#[trigger] m[i]).2.file_id == merge_id by {
            if i < moves.len() {
                assert(m[i] == m.subrange(0, moves.len() as int)[i]);
            }
        }
        assert forall|i: int| 0 <= i < rest.len() implies files.contains_key(#[trigger] rest[i])
            && rest[i] != merge_id by {
            assert(rest[i] == ids[i + 1]);
        }
        lemma_merge_files_faithful(index, files, rest, merge_id, o, m);
    }
}

/// The total size of the files `ids`.
pub open spec fn total_len(files: Map<u64, Seq<u8>>, ids: Seq<u64>) -> nat
    decreases ids.len(),
{
    if ids.len() == 0 {
        0
    } else {
        files[ids[0]].len() + total_len(files, ids.subrange(1, ids.len() as int))
    }
}

proof fn lemma_total_len_split(files: Map<u64, Seq<u8>>, id: u64, rest: Seq<u64>)
    ensures
        total_len(files, seq![id] + rest) == files[id].len() + total_len(files, rest),
{
    let ids = seq![id] + rest;
    assert(ids.subrange(1, ids.len() as int) =~= rest);
}

/// Merge preserves what reads see, over any number of sealed files: merging them in
/// order into a new file `merge_id` and putting the copies into the index keeps every
/// key, each reads back as before, and the merge file is exactly as large as the live
/// records it holds.
pub proof fn lemma_merge_files_preserves_reads(
    index: Map<Seq<u8>, RecordPos>,
    files: Map<u64, Seq<u8>>,
    ids: Seq<u64>,
    merge_id: u64,
)
    requires
        forall|i: int| 0 <= i < ids.len() ==> files.contains_key(#[trigger] ids[i]),
        !files.contains_key(merge_id),
        total_len(files, ids) <= u64::MAX,
        forall|k: Seq<u8>| #[trigger] index.contains_key(k) ==> files.contains_key(index[k].file_id),
    ensures
        ({
            let (out, ms) = merge_files(index, files, ids, merge_id, seq![], seq![]);
            &&& install(index, ms).dom() == index.dom()
            &&& forall|k: Seq<u8>| #[trigger] index.contains_key(k) ==> read_back(
                install(index, ms),
                k,
                files.insert(merge_id, out)[install(index, ms)[k].file_id],
            ) == read_back(index, k, files[index[k].file_id])
            &&& out.len() == moved_size(ms, files)
        }),
{
    assert forall|i: int| 0 <= i < ids.len() implies #[trigger] ids[i] != merge_id by {
        assert(files.contains_key(ids[i]));
    }
    lemma_merge_files_faithful(index, files, ids, merge_id, seq![], seq![]);
    let (out, ms) = merge_files(index, files, ids, merge_id, seq![], seq![]);
    lemma_install_preserves_reads(index, files, merge_id, out, ms);
}


/// Last write wins across files: replaying files in order, when the last of them ends
/// with a put of `key` that its scan reaches, `key` points at that put and reads back its
/// value, whatever the earlier files held.
pub proof fn lemma_last_write_wins_across_files(
    index: Map<Seq<u8>, RecordPos>,
    ids: Seq<u64>,
    contents: Seq<Seq<u8>>,
    record: Seq<u8>,
    timestamp: u64,
    key: Seq<u8>,
    value: Seq<u8>,
)
    requires
        ids.len() == contents.len() >= 1,
        is_record_bytes(record, timestamp, key, value),
        !is_tombstone_value(value),
        contents.last().len() >= record.len(),
        contents.last().subrange(contents.last().len() - record.len(), contents.last().len() as int)
            == record,
        contents.last().len() <= u64::MAX,
        scan_reaches(contents.last(), 0, (contents.last().len() - record.len()) as nat),
    ensures
        replay_files(index, ids, contents).contains_key(key),
        replay_files(index, ids, contents)[key] == put_entry(
            ids.last(),
            (contents.last().len() - record.len()) as nat,
            key,
            value,
            timestamp,
        ),
        read_back(replay_files(index, ids, contents), key, contents.last()) == Some(value),
{
    let earlier = replay_files(index, ids.drop_last(), contents.drop_last());
    lemma_last_write_wins(earlier, ids.last(), contents.last(), 0, record, timestamp, key, value);
}


/// A merge pass keeps the moves noted before it, in front.
pub proof fn lemma_merge_scan_extends(
    index: Map<Seq<u8>, RecordPos>,
    file_id: u64,
    s: Seq<u8>,
    off: nat,
    merge_id: u64,
    out: Seq<u8>,
    moves: Seq<MovedView>,
)
    ensures
        merge_scan(index, file_id, s, off, merge_id, out, moves).1.len() >= moves.len(),
        merge_scan(index, file_id, s, off, merge_id, out, moves).1.subrange(0, moves.len() as int)
            == moves,
    decreases s.len() - off,
{
    if off >= s.len() || !record_complete(rest_of(s, off)) {
        assert(moves.subrange(0, moves.len() as int) =~= moves);
    } else {
        let rest = rest_of(s, off);
        let size = stored_size(rest);
        if crc_matches(rest) && is_live(index, file_id, s, off) {
            let key = stored_key(rest);
            let to = RecordPos {
                file_id: merge_id,
                value_size: stored_value_size(rest) as u64,
                value_pos: (out.len() + HEADER_SIZE + stored_key_size(rest)) as u64,
                timestamp: stored_timestamp(rest) as u64,
            };
            let moves2 = moves.push((key, index[key], to));
            lemma_merge_scan_extends(index, file_id, s, off + size, merge_id, out + rest.subrange(0, size as int), moves2);
            let m = merge_scan(index, file_id, s, off + size, merge_id, out + rest.subrange(0, size as int), moves2).1;
            assert(m.subrange(0, moves.len() as int) =~= m.subrange(0, moves2.len() as int).subrange(0, moves.len() as int));
        } else {
            lemma_merge_scan_extends(index, file_id, s, off + size, merge_id, out, moves);
        }
    }
}

/// A scan only moves forward: the offsets it reaches lie at or after its start.
pub proof fn lemma_scan_reaches_forward(s: Seq<u8>, off: nat, target: nat)
    requires
        scan_reaches(s, off, target),
    ensures
        off <= target,
    decreases s.len() - off,
{
    if off != target {
        lemma_scan_reaches_forward(s, off + stored_size(rest_of(s, off)), target);
    }
}

/// A merge leaves no live record behind: a whole record with a good checksum, which the
/// scan of its file reaches and which the index still points at, is copied, its key
/// moving from that entry to the merge file.
pub proof fn lemma_merge_copies_live(
    index: Map<Seq<u8>, RecordPos>,
    file_id: u64,
    s: Seq<u8>,
    off: nat,
    start: nat,
    merge_id: u64,
    out: Seq<u8>,
    moves: Seq<MovedView>,
)
    requires
        scan_reaches(s, off, start),
        off <= start < s.len(),
        record_complete(rest_of(s, start)),
        crc_matches(rest_of(s, start)),
        is_live(index, file_id, s, start),
    ensures
        ({
            let m = merge_scan(index, file_id, s, off, merge_id, out, moves).1;
            let key = stored_key(rest_of(s, start));
            exists|i: int| moves.len() <= i < m.len() && (#[trigger] m[i]).0 == key && m[i].1 == index[key]
                && m[i].2.file_id == merge_id
        }),
    decreases s.len() - off,
{
    let rest = rest_of(s, off);
    let size = stored_size(rest);
    let next = off + size;
    if off != start {
        lemma_scan_reaches_forward(s, next, start);
    }
    if off == start {
        let key = stored_key(rest);
        let to = RecordPos {
            file_id: merge_id,
            value_size: stored_value_size(rest) as u64,
            value_pos: (out.len() + HEADER_SIZE + stored_key_size(rest)) as u64,
            timestamp: stored_timestamp(rest) as u64,
        };
        let out2 = out + rest.subrange(0, size as int);
        let moves2 = moves.push((key, index[key], to));
        lemma_merge_scan_extends(index, file_id, s, next, merge_id, out2, moves2);
        let m = merge_scan(index, file_id, s, next, merge_id, out2, moves2).1;
        assert(merge_scan(index, file_id, s, off, merge_id, out, moves).1 == m);
        assert(m[moves.len() as int] == m.subrange(0, moves2.len() as int)[moves.len() as int]);
        assert(m[moves.len() as int] == (key, index[key], to));
    } else {
        if crc_matches(rest) && is_live(index, file_id, s, off) {
            let key = stored_key(rest);
            let to = RecordPos {
                file_id: merge_id,
                value_size: stored_value_size(rest) as u64,
                value_pos: (out.len() + HEADER_SIZE + stored_key_size(rest)) as u64,
                timestamp: stored_timestamp(rest) as u64,
            };
            let moves2 = moves.push((key, index[key], to));
            lemma_merge_copies_live(index, file_id, s, next, start, merge_id, out + rest.subrange(0, size as int), moves2);
            assert(merge_scan(index, file_id, s, off, merge_id, out, moves) == merge_scan(
                index,
                file_id,
                s,
                next,
                merge_id,
                out + rest.subrange(0, size as int),
                moves2,
            ));
        } else {
            lemma_merge_copies_live(index, file_id, s, next, start, merge_id, out, moves);
            assert(merge_scan(index, file_id, s, off, merge_id, out, moves) == merge_scan(
                index,
                file_id,
                s,
                next,
                merge_id,
                out,
                moves,
            ));
        }
    }
}

} // verus!
