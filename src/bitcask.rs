//! The engine's state and decisions: which file is active, when to rotate, what the
//! index says, how files are replayed at open and compacted by a merge. Reading and
//! writing the files is left to the caller, who hands the bytes in.
use crate::codec::{
    crc_matches, decode_record, is_tombstone_value, record_complete, stored_key,
    stored_key_size, stored_size, stored_timestamp, stored_value, stored_value_size, Decoded,
    HEADER_SIZE,
};
use crate::config::Config;
use crate::errors::Error;
use crate::keydir::{
    keydir_contains, keydir_get, keydir_insert, keydir_keys, keydir_new, keydir_remove,
    keydir_view, KeyDir, RecordPos,
};
use vstd::prelude::*;

verus! {

/// Every entry of the index has room for a header and its key before its value.
pub open spec fn index_wf(index: Map<Seq<u8>, RecordPos>) -> bool {
    forall|k: Seq<u8>| index.contains_key(k)
        ==> #[trigger] index[k].value_pos >= HEADER_SIZE + k.len()
}

/// The bytes of `s` from `off` on.
pub open spec fn rest_of(s: Seq<u8>, off: nat) -> Seq<u8> {
    s.subrange(off as int, s.len() as int)
}

/// Where the record at offset `off` of file `file_id` puts its value.
pub open spec fn pos_of_record(file_id: u64, s: Seq<u8>, off: nat) -> RecordPos {
    let rest = rest_of(s, off);
    RecordPos {
        file_id,
        value_size: stored_value_size(rest) as u64,
        value_pos: (off + HEADER_SIZE + stored_key_size(rest)) as u64,
        timestamp: stored_timestamp(rest) as u64,
    }
}

/// The index after replaying the records of file `file_id` (contents `s`) from offset
/// `off` on: a tombstone removes its key, any other record points its key at itself,
/// a record whose checksum fails is skipped, and the scan stops where the bytes end
/// before a whole record.
pub open spec fn replay(index: Map<Seq<u8>, RecordPos>, file_id: u64, s: Seq<u8>, off: nat) -> Map<
    Seq<u8>,
    RecordPos,
>
    decreases s.len() - off,
{
    if off >= s.len() || !record_complete(rest_of(s, off)) {
        index
    } else {
        let rest = rest_of(s, off);
        let next = off + stored_size(rest);
        if !crc_matches(rest) {
            replay(index, file_id, s, next)
        } else if is_tombstone_value(stored_value(rest)) {
            replay(index.remove(stored_key(rest)), file_id, s, next)
        } else {
            replay(index.insert(stored_key(rest), pos_of_record(file_id, s, off)), file_id, s, next)
        }
    }
}

/// Some whole record of `s`, met from `off` on before the bytes run out, fails its checksum.
pub open spec fn has_corrupt(s: Seq<u8>, off: nat) -> bool
    decreases s.len() - off,
{
    if off >= s.len() || !record_complete(rest_of(s, off)) {
        false
    } else {
        let rest = rest_of(s, off);
        !crc_matches(rest) || has_corrupt(s, off + stored_size(rest))
    }
}

/// How many whole records of `s`, from `off` on, fail their checksum.
pub open spec fn corrupt_count(s: Seq<u8>, off: nat) -> nat
    decreases s.len() - off,
{
    if off >= s.len() || !record_complete(rest_of(s, off)) {
        0
    } else {
        let rest = rest_of(s, off);
        (if crc_matches(rest) { 0nat } else { 1nat }) + corrupt_count(s, off + stored_size(rest))
    }
}

/// The index after replaying the files `contents`, first to last, as files `ids`.
pub open spec fn replay_files(index: Map<Seq<u8>, RecordPos>, ids: Seq<u64>, contents: Seq<Seq<u8>>) -> Map<
    Seq<u8>,
    RecordPos,
>
    decreases ids.len(),
{
    if ids.len() == 0 || contents.len() == 0 {
        index
    } else {
        replay(
            replay_files(index, ids.drop_last(), contents.drop_last()),
            ids.last(),
            contents.last(),
            0,
        )
    }
}

/// The contents of files as byte strings.
pub open spec fn contents_view(contents: Seq<Vec<u8>>) -> Seq<Seq<u8>> {
    contents.map_values(|c: Vec<u8>| c@)
}

/// The engine's state: its settings, the key index, the active file and the list of
/// data files.
pub struct Bitcask {
    config: Config,
    keydir: KeyDir,
    active_file_id: u64,
    last_file_id: u64,
    file_ids: Vec<u64>,
}

impl Bitcask {
    /// The key index as a map.
    pub closed spec fn index(&self) -> Map<Seq<u8>, RecordPos> {
        keydir_view(self.keydir)
    }

    pub closed spec fn spec_config(&self) -> Config {
        self.config
    }

    /// The file that receives appends.
    pub closed spec fn spec_active_file_id(&self) -> u64 {
        self.active_file_id
    }

    /// The largest file id handed out or found so far.
    pub closed spec fn spec_last_file_id(&self) -> u64 {
        self.last_file_id
    }

    /// The data files known, in the order they were found or made.
    pub closed spec fn spec_file_ids(&self) -> Seq<u64> {
        self.file_ids@
    }

    /// The state's invariant.
    pub closed spec fn wf(&self) -> bool {
        &&& index_wf(keydir_view(self.keydir))
        &&& self.active_file_id <= self.last_file_id
    }

    /// The state of a database whose directory holds the data files `file_ids`, before
    /// any of them is replayed: the index is empty and the
    /// active file is a new one, with an id above every existing one and no earlier
    /// than `now`. A handle cache of no room is refused.
    pub fn new(config: Config, file_ids: Vec<u64>, now: u64) -> (r: Result<Bitcask, Error>)
        ensures
            match r {
                Ok(b) => {
                    &&& config@.max_file_handle_caches >= 1
                    &&& id_available(max_id(file_ids@), now)
                    &&& b.wf()
                    &&& b.index().dom() == Set::<Seq<u8>>::empty()
                    &&& b.spec_config() == config
                    &&& b.spec_active_file_id() == next_id(max_id(file_ids@), now)
                    &&& b.spec_last_file_id() == b.spec_active_file_id()
                    &&& b.spec_file_ids() == file_ids@.push(b.spec_active_file_id())
                },
                Err(e) => e is InvalidData && (config@.max_file_handle_caches == 0 || !id_available(
                    max_id(file_ids@),
                    now,
                )),
            },
    {
        if config.max_file_handle_caches() == 0 {
            return Err(Error::InvalidData("max_file_handle_caches must be at least 1".to_owned()));
        }
        let mut last: u64 = 0;
        let mut i: usize = 0;
        while i < file_ids.len()
            invariant
                i <= file_ids@.len(),
                last == max_id(file_ids@.subrange(0, i as int)),
            decreases file_ids@.len() - i,
        {
            assert(file_ids@.subrange(0, i + 1).drop_last() =~= file_ids@.subrange(0, i as int));
            if file_ids[i] > last {
                last = file_ids[i];
            }
            i = i + 1;
        }
        assert(file_ids@.subrange(0, i as int) =~= file_ids@);
        if !(now > last || last < u64::MAX) {
            return Err(Error::InvalidData("no file id is left".to_owned()));
        }
        let id = if now > last { now } else { last + 1 };
        let mut ids = file_ids;
        ids.push(id);
        Ok(Bitcask {
            config,
            keydir: keydir_new(),
            active_file_id: id,
            last_file_id: id,
            file_ids: ids,
        })
    }

    /// Opens a database whose data files are `file_ids`, in ascending order as
    /// `data_file_ids` gives them, with contents `contents`: the state `new` gives, with
    /// every file replayed into the index in that order. In strict mode a record whose
    /// checksum fails is an error; otherwise the number skipped in each file is returned.
    pub fn recover(config: Config, file_ids: Vec<u64>, contents: &Vec<Vec<u8>>, now: u64) -> (r: Result<
        (Bitcask, Vec<u64>),
        Error,
    >)
        requires
            contents@.len() == file_ids@.len(),
            forall|i: int| 0 <= i < contents@.len() ==> (#[trigger] contents@[i])@.len() <= u64::MAX,
        ensures
            match r {
                Ok((b, skipped)) => {
                    &&& b.wf()
                    &&& config@.max_file_handle_caches >= 1
                    &&& id_available(max_id(file_ids@), now)
                    &&& b.spec_config() == config
                    &&& b.spec_active_file_id() == next_id(max_id(file_ids@), now)
                    &&& b.spec_last_file_id() == b.spec_active_file_id()
                    &&& b.spec_file_ids() == file_ids@.push(b.spec_active_file_id())
                    &&& b.index() == replay_files(
                        Map::<Seq<u8>, RecordPos>::empty(),
                        file_ids@,
                        contents_view(contents@),
                    )
                    &&& skipped@.len() == contents@.len()
                    &&& forall|i: int| 0 <= i < skipped@.len() ==> #[trigger] skipped@[i]
                        == corrupt_count(contents@[i]@, 0)
                    &&& config@.strict_crc_validation ==> forall|i: int| 0 <= i < contents@.len()
                        ==> !has_corrupt(#[trigger] contents@[i]@, 0)
                },
                Err(e) => {
                    ||| e is InvalidData && (config@.max_file_handle_caches == 0 || !id_available(
                        max_id(file_ids@),
                        now,
                    ))
                    ||| e is CorruptedData && config@.strict_crc_validation && exists|i: int|
                        0 <= i < contents@.len() && has_corrupt(#[trigger] contents@[i]@, 0)
                },
            },
    {
        let ghost ids = file_ids@;
        let ghost cs = contents_view(contents@);
        let mut b = match Bitcask::new(config, file_ids, now) {
            Ok(b) => b,
            Err(e) => {
                return Err(e);
            },
        };
        let mut skipped: Vec<u64> = Vec::new();
        let n = contents.len();
        let mut i: usize = 0;
        assert(b.index() =~= Map::<Seq<u8>, RecordPos>::empty());
        while i < n
            invariant
                n == contents@.len() == ids.len(),
                cs == contents_view(contents@),
                forall|j: int| 0 <= j < contents@.len() ==> (#[trigger] contents@[j])@.len() <= u64::MAX,
                i <= n,
                b.wf(),
                b.spec_config() == config,
                b.spec_active_file_id() == next_id(max_id(ids), now),
                b.spec_last_file_id() == b.spec_active_file_id(),
                b.spec_file_ids() == ids.push(b.spec_active_file_id()),
                b.index() == replay_files(
                    Map::<Seq<u8>, RecordPos>::empty(),
                    ids.subrange(0, i as int),
                    cs.subrange(0, i as int),
                ),
                skipped@.len() == i,
                forall|j: int| 0 <= j < i ==> #[trigger] skipped@[j] == corrupt_count(contents@[j]@, 0),
                config@.strict_crc_validation ==> forall|j: int| 0 <= j < i
                    ==> !has_corrupt(#[trigger] contents@[j]@, 0),
            decreases n - i,
        {
            assert(ids.subrange(0, i + 1).drop_last() =~= ids.subrange(0, i as int));
            assert(cs.subrange(0, i + 1).drop_last() =~= cs.subrange(0, i as int));
            assert(cs.subrange(0, i + 1).last() == contents@[i as int]@);
            let id = b.file_ids[i];
            assert(id == ids[i as int]);
            match b.replay_file(id, &contents[i]) {
                Ok(count) => {
                    skipped.push(count);
                },
                Err(e) => {
                    return Err(e);
                },
            }
            i = i + 1;
        }
        assert(ids.subrange(0, i as int) =~= ids);
        assert(cs.subrange(0, i as int) =~= cs);
        Ok((b, skipped))
    }

    /// The settings.
    pub fn config(&self) -> (r: &Config)
        ensures
            *r == self.spec_config(),
    {
        &self.config
    }

    /// The file that receives appends.
    pub fn active_file_id(&self) -> (r: u64)
        ensures
            r == self.spec_active_file_id(),
    {
        self.active_file_id
    }

    /// Whether a record of `record_size` bytes must go to a new file, the active file
    /// ending at `current_end`: it must when the file would then pass `max_file_size`.
    pub fn needs_rotation(&self, current_end: u64, record_size: u64) -> (r: bool)
        ensures
            r == (current_end + record_size > self.spec_config()@.max_file_size),
    {
        let max = self.config.max_file_size();
        record_size > max || current_end > max - record_size
    }

    /// Hands out a new file id: above every id handed out or found before, and no
    /// earlier than `now`.
    pub fn reserve_file_id(&mut self, now: u64) -> (r: Result<u64, Error>)
        requires
            old(self).wf(),
        ensures
            final(self).wf(),
            final(self).index() == old(self).index(),
            final(self).spec_config() == old(self).spec_config(),
            final(self).spec_active_file_id() == old(self).spec_active_file_id(),
            final(self).spec_file_ids() == old(self).spec_file_ids(),
            match r {
                Ok(id) => {
                    &&& id_available(old(self).spec_last_file_id(), now)
                    &&& id == next_id(old(self).spec_last_file_id(), now)
                    &&& final(self).spec_last_file_id() == id
                },
                Err(e) => {
                    &&& e is InvalidData
                    &&& !id_available(old(self).spec_last_file_id(), now)
                    &&& final(self).spec_last_file_id() == old(self).spec_last_file_id()
                },
            },
    {
        let last = self.last_file_id;
        if !(now > last || last < u64::MAX) {
            return Err(Error::InvalidData("no file id is left".to_owned()));
        }
        let id = if now > last { now } else { last + 1 };
        self.last_file_id = id;
        Ok(id)
    }

    /// Makes `id`, a reserved id above the active one, the active file, and adds it to the
    /// file list.
    pub fn activate(&mut self, id: u64)
        requires
            old(self).wf(),
            old(self).spec_active_file_id() < id <= old(self).spec_last_file_id(),
        ensures
            final(self).wf(),
            final(self).index() == old(self).index(),
            final(self).spec_config() == old(self).spec_config(),
            final(self).spec_active_file_id() == id,
            final(self).spec_last_file_id() == old(self).spec_last_file_id(),
            final(self).spec_file_ids() == old(self).spec_file_ids().push(id),
    {
        self.active_file_id = id;
        self.file_ids.push(id);
    }

    /// Points `key` at the record just appended at offset `start` of the active file.
    pub fn commit_put(&mut self, key: Vec<u8>, value_size: u64, timestamp: u64, start: u64)
        requires
            old(self).wf(),
            start + HEADER_SIZE + key@.len() <= u64::MAX,
        ensures
            final(self).wf(),
            final(self).index() == old(self).index().insert(
                key@,
                RecordPos {
                    file_id: old(self).spec_active_file_id(),
                    value_size,
                    value_pos: (start + HEADER_SIZE + key@.len()) as u64,
                    timestamp,
                },
            ),
            final(self).spec_config() == old(self).spec_config(),
            final(self).spec_active_file_id() == old(self).spec_active_file_id(),
            final(self).spec_last_file_id() == old(self).spec_last_file_id(),
            final(self).spec_file_ids() == old(self).spec_file_ids(),
    {
        let pos = RecordPos {
            file_id: self.active_file_id,
            value_size,
            value_pos: start + HEADER_SIZE + key.len() as u64,
            timestamp,
        };
        keydir_insert(&mut self.keydir, key, pos);
    }

    /// Forgets `key`, once its tombstone has been appended.
    pub fn commit_delete(&mut self, key: &[u8])
        requires
            old(self).wf(),
        ensures
            final(self).wf(),
            final(self).index() == old(self).index().remove(key@),
            final(self).spec_config() == old(self).spec_config(),
            final(self).spec_active_file_id() == old(self).spec_active_file_id(),
            final(self).spec_last_file_id() == old(self).spec_last_file_id(),
            final(self).spec_file_ids() == old(self).spec_file_ids(),
    {
        keydir_remove(&mut self.keydir, key);
    }

    /// Whether `key` is in the index.
    pub fn contains(&self, key: &[u8]) -> (r: bool)
        ensures
            r == self.index().contains_key(key@),
    {
        keydir_contains(&self.keydir, key)
    }

    /// Where the record of `key` lies: its index entry and the offset of its first byte.
    pub fn locate(&self, key: &[u8]) -> (r: Option<(RecordPos, u64)>)
        requires
            self.wf(),
        ensures
            match r {
                None => !self.index().contains_key(key@),
                Some((pos, start)) => {
                    &&& self.index().contains_key(key@)
                    &&& pos == self.index()[key@]
                    &&& start == pos.value_pos - HEADER_SIZE - key@.len()
                },
            },
    {
        match keydir_get(&self.keydir, key) {
            None => None,
            Some(pos) => {
                assert(keydir_view(self.keydir).contains_key(key@));
                let start = pos.value_pos - HEADER_SIZE - key.len() as u64;
                Some((pos, start))
            },
        }
    }

    /// Every key of the index, each once.
    pub fn list_keys(&self) -> (r: Vec<Vec<u8>>)
        ensures
            forall|i: int| 0 <= i < r@.len() ==> self.index().contains_key(#[trigger] r@[i]@),
            forall|k: Seq<u8>| self.index().contains_key(k)
                ==> exists|i: int| 0 <= i < r@.len() && #[trigger] r@[i]@ == k,
            forall|i: int, j: int| 0 <= i < j < r@.len() ==> r@[i]@ != r@[j]@,
    {
        keydir_keys(&self.keydir)
    }

    /// The data files other than the active one, in their order.
    pub fn sealed_file_ids(&self) -> (r: Vec<u64>)
        ensures
            r@ == without(self.spec_file_ids(), self.spec_active_file_id()),
    {
        without_id(&self.file_ids, self.active_file_id)
    }

    /// Whether a merge is due: there are at least `max_historical_files` data files
    /// besides the active one.
    pub fn can_merge(&self) -> (r: bool)
        ensures
            r == (without(self.spec_file_ids(), self.spec_active_file_id()).len()
                >= self.spec_config()@.max_historical_files),
    {
        let sealed = without_id(&self.file_ids, self.active_file_id);
        sealed.len() >= self.config.max_historical_files() as usize
    }

    /// Replaces the file list with `file_ids`, as found in the directory.
    pub fn set_file_ids(&mut self, file_ids: Vec<u64>)
        requires
            old(self).wf(),
        ensures
            final(self).wf(),
            final(self).spec_file_ids() == file_ids@,
            final(self).index() == old(self).index(),
            final(self).spec_config() == old(self).spec_config(),
            final(self).spec_active_file_id() == old(self).spec_active_file_id(),
            final(self).spec_last_file_id() == old(self).spec_last_file_id(),
    {
        self.file_ids = file_ids;
    }

    /// Reads back the value of a located record from `bytes`, its file's contents from
    /// the record's first byte on; a failed checksum is an error in strict mode.
    pub fn read_value(&self, bytes: &[u8]) -> (r: Result<Option<Vec<u8>>, Error>)
        ensures
            match r {
                Ok(None) => !record_complete(bytes@) || (!crc_matches(bytes@)
                    && !self.spec_config()@.strict_crc_validation),
                Ok(Some(v)) => record_complete(bytes@) && crc_matches(bytes@) && v@ == stored_value(
                    bytes@,
                ),
                Err(e) => e is CorruptedData && self.spec_config()@.strict_crc_validation
                    && record_complete(bytes@) && !crc_matches(bytes@),
            },
    {
        value_from_record(bytes, self.config.strict_crc_validation())
    }

    /// Copies to the end of `out`, which will be file `merge_id`, every record of sealed
    /// file `file_id` (contents `bytes`) that the index still points at, and notes each
    /// move in `moved`. Records are read as at open: in strict mode a failed checksum is
    /// an error, otherwise the record is skipped.
    pub fn merge_file(
        &self,
        file_id: u64,
        bytes: &[u8],
        merge_id: u64,
        out: &mut Vec<u8>,
        moved: &mut Vec<Moved>,
    ) -> (r: Result<(), Error>)
        requires
            old(out)@.len() + bytes@.len() <= u64::MAX,
        ensures
            match r {
                Ok(()) => {
                    &&& !(self.spec_config()@.strict_crc_validation && has_corrupt(bytes@, 0))
                    &&& (final(out)@, moves_view(final(moved)@)) == merge_scan(
                        self.index(),
                        file_id,
                        bytes@,
                        0,
                        merge_id,
                        old(out)@,
                        moves_view(old(moved)@),
                    )
                },
                Err(e) => {
                    &&& e is CorruptedData
                    &&& self.spec_config()@.strict_crc_validation
                    &&& has_corrupt(bytes@, 0)
                },
            },
    {
        let strict = self.config.strict_crc_validation();
        let len = bytes.len();
        let mut off: usize = 0;
        let ghost index = keydir_view(self.keydir);
        while off < len
            invariant
                off <= len == bytes@.len(),
                out@.len() <= old(out)@.len() + off,
                old(out)@.len() + len <= u64::MAX,
                strict == self.config@.strict_crc_validation,
                index == keydir_view(self.keydir),
                merge_scan(index, file_id, bytes@, 0, merge_id, old(out)@, moves_view(old(moved)@))
                    == merge_scan(index, file_id, bytes@, off as nat, merge_id, out@, moves_view(moved@)),
                strict ==> has_corrupt(bytes@, 0) == has_corrupt(bytes@, off as nat),
            ensures
                merge_scan(index, file_id, bytes@, 0, merge_id, old(out)@, moves_view(old(moved)@))
                    == (out@, moves_view(moved@)),
                strict ==> !has_corrupt(bytes@, 0),
            decreases len - off,
        {
            let ghost rest = rest_of(bytes@, off as nat);
            match decode_record(bytes, off) {
                Decoded::EndOfFile => {
                    break;
                },
                Decoded::Corrupt(size) => {
                    if strict {
                        return Err(Error::CorruptedData);
                    }
                    off = off + size as usize;
                },
                Decoded::Record(record) => {
                    let size = HEADER_SIZE + record.key_size + record.value_size;
                    let value_pos = off as u64 + HEADER_SIZE + record.key_size;
                    let live = match keydir_get(&self.keydir, &record.key) {
                        Some(pos) => pos.file_id == file_id && pos.value_pos == value_pos
                            && pos.timestamp == record.timestamp,
                        None => false,
                    };
                    if live {
                        let from = keydir_get(&self.keydir, &record.key).unwrap();
                        let to = RecordPos {
                            file_id: merge_id,
                            value_size: record.value_size,
                            value_pos: out.len() as u64 + HEADER_SIZE + record.key_size,
                            timestamp: record.timestamp,
                        };
                        let end = off + size as usize;
                        let mut i: usize = off;
                        let ghost out0 = out@;
                        while i < end
                            invariant
                                off <= i <= end <= bytes@.len(),
                                out@ == out0 + bytes@.subrange(off as int, i as int),
                            decreases end - i,
                        {
                            out.push(bytes[i]);
                            i = i + 1;
                            assert(out@ =~= out0 + bytes@.subrange(off as int, i as int));
                        }
                        assert(bytes@.subrange(off as int, end as int) =~= rest.subrange(0, size as int));
                        let ghost moves0 = moved@;
                        moved.push(Moved { key: record.key, from, to });
                        assert(moves_view(moved@) =~= moves_view(moves0).push((stored_key(rest), index[stored_key(rest)], to)));
                    }
                    off = off + size as usize;
                },
            }
        }
        Ok(())
    }

    /// Puts each copied record of a merge into the index, where the index still points at
    /// the place it was copied from.
    pub fn install_merge(&mut self, moved: &Vec<Moved>)
        requires
            old(self).wf(),
        ensures
            final(self).wf(),
            final(self).index() == install(old(self).index(), moves_view(moved@)),
            final(self).index().dom() == old(self).index().dom(),
            final(self).spec_config() == old(self).spec_config(),
            final(self).spec_active_file_id() == old(self).spec_active_file_id(),
            final(self).spec_last_file_id() == old(self).spec_last_file_id(),
            final(self).spec_file_ids() == old(self).spec_file_ids(),
    {
        let ghost ms = moves_view(moved@);
        assert(ms.subrange(0, ms.len() as int) =~= ms);
        let mut i: usize = 0;
        while i < moved.len()
            invariant
                self.wf(),
                i <= moved@.len(),
                ms == moves_view(moved@),
                install(keydir_view(old(self).keydir), ms) == install(
                    keydir_view(self.keydir),
                    ms.subrange(i as int, ms.len() as int),
                ),
                keydir_view(self.keydir).dom() == keydir_view(old(self).keydir).dom(),
                self.config == old(self).config,
                self.active_file_id == old(self).active_file_id,
                self.last_file_id == old(self).last_file_id,
                self.file_ids == old(self).file_ids,
            decreases moved@.len() - i,
        {
            let m = &moved[i];
            let ghost before = keydir_view(self.keydir);
            assert(ms.subrange(i as int, ms.len() as int)[0] == ms[i as int]);
            assert(ms.subrange(i as int, ms.len() as int).subrange(1, ms.len() - i) =~= ms.subrange(
                i + 1,
                ms.len() as int,
            ));
            match keydir_get(&self.keydir, &m.key) {
                Some(cur) => {
                    if cur == m.from && m.key.len() as u64 <= m.to.value_pos
                        && m.to.value_pos - (m.key.len() as u64) >= HEADER_SIZE {
                        keydir_insert(&mut self.keydir, m.key.clone(), m.to);
                        assert(keydir_view(self.keydir).dom() =~= before.dom());
                    }
                },
                None => {},
            }
            i = i + 1;
        }
        assert(ms.subrange(i as int, ms.len() as int) =~= Seq::<MovedView>::empty());
    }

    /// Replays the records of data file `file_id`, whose contents are `bytes`, into the
    /// index. In strict mode a record whose checksum fails is an error; otherwise it is
    /// skipped, and the number of records skipped is returned. Bytes that end before a
    /// whole record end the file without error.
    pub fn replay_file(&mut self, file_id: u64, bytes: &[u8]) -> (r: Result<u64, Error>)
        requires
            old(self).wf(),
            bytes@.len() <= u64::MAX,
        ensures
            final(self).wf(),
            final(self).spec_config() == old(self).spec_config(),
            final(self).spec_active_file_id() == old(self).spec_active_file_id(),
            final(self).spec_last_file_id() == old(self).spec_last_file_id(),
            final(self).spec_file_ids() == old(self).spec_file_ids(),
            match r {
                Ok(skipped) => {
                    &&& !(old(self).spec_config()@.strict_crc_validation && has_corrupt(bytes@, 0))
                    &&& final(self).index() == replay(old(self).index(), file_id, bytes@, 0)
                    &&& skipped == corrupt_count(bytes@, 0)
                },
                Err(e) => {
                    &&& e is CorruptedData
                    &&& old(self).spec_config()@.strict_crc_validation
                    &&& has_corrupt(bytes@, 0)
                },
            },
    {
        let strict = self.config.strict_crc_validation();
        let len = bytes.len();
        let mut off: usize = 0;
        let mut skipped: u64 = 0;
        while off < len
            invariant
                self.wf(),
                skipped <= off,
                skipped + corrupt_count(bytes@, off as nat) == corrupt_count(bytes@, 0),
                off <= len == bytes@.len() <= u64::MAX,
                strict == self.config@.strict_crc_validation,
                self.config == old(self).config,
                self.active_file_id == old(self).active_file_id,
                self.last_file_id == old(self).last_file_id,
                self.file_ids == old(self).file_ids,
                replay(keydir_view(old(self).keydir), file_id, bytes@, 0) == replay(
                    keydir_view(self.keydir),
                    file_id,
                    bytes@,
                    off as nat,
                ),
                strict ==> has_corrupt(bytes@, 0) == has_corrupt(bytes@, off as nat),
            ensures
                self.wf(),
                self.config == old(self).config,
                self.active_file_id == old(self).active_file_id,
                self.last_file_id == old(self).last_file_id,
                self.file_ids == old(self).file_ids,
                replay(keydir_view(old(self).keydir), file_id, bytes@, 0) == keydir_view(self.keydir),
                strict ==> !has_corrupt(bytes@, 0),
                skipped == corrupt_count(bytes@, 0),
            decreases len - off,
        {
            match decode_record(bytes, off) {
                Decoded::EndOfFile => {
                    assert(replay(keydir_view(self.keydir), file_id, bytes@, off as nat) == keydir_view(self.keydir));
                    assert(corrupt_count(bytes@, off as nat) == 0);
                    assert(!has_corrupt(bytes@, off as nat));
                    break;
                },
                Decoded::Corrupt(size) => {
                    if strict {
                        return Err(Error::CorruptedData);
                    }
                    off = off + size as usize;
                    skipped = skipped + 1;
                },
                Decoded::Record(record) => {
                    let size = HEADER_SIZE + record.key_size + record.value_size;
                    if record.is_tombstone() {
                        keydir_remove(&mut self.keydir, &record.key);
                    } else {
                        let pos = RecordPos {
                            file_id,
                            value_size: record.value_size,
                            value_pos: off as u64 + HEADER_SIZE + record.key_size,
                            timestamp: record.timestamp,
                        };
                        assert(pos == pos_of_record(file_id, bytes@, off as nat));
                        keydir_insert(&mut self.keydir, record.key, pos);
                    }
                    off = off + size as usize;
                },
            }
        }
        Ok(skipped)
    }
}

/// A record that a merge copied: its key, where it was and where it now lies.
pub struct Moved {
    pub key: Vec<u8>,
    pub from: RecordPos,
    pub to: RecordPos,
}

/// A copied record as plain values.
pub type MovedView = (Seq<u8>, RecordPos, RecordPos);

/// The moves as plain values.
pub open spec fn moves_view(m: Seq<Moved>) -> Seq<MovedView> {
    m.map_values(|x: Moved| (x.key@, x.from, x.to))
}

/// The index still points at the record at offset `off` of file `file_id`: same file,
/// same value offset and same timestamp.
pub open spec fn is_live(index: Map<Seq<u8>, RecordPos>, file_id: u64, s: Seq<u8>, off: nat) -> bool {
    let key = stored_key(rest_of(s, off));
    let here = pos_of_record(file_id, s, off);
    &&& index.contains_key(key)
    &&& index[key].file_id == here.file_id
    &&& index[key].value_pos == here.value_pos
    &&& index[key].timestamp == here.timestamp
}

/// The merge output and the moves after copying, from offset `off` of file `file_id`
/// (contents `s`) on, each whole record with a good checksum that the index still points
/// at to the end of `out`, into the file `merge_id`.
pub open spec fn merge_scan(
    index: Map<Seq<u8>, RecordPos>,
    file_id: u64,
    s: Seq<u8>,
    off: nat,
    merge_id: u64,
    out: Seq<u8>,
    moves: Seq<MovedView>,
) -> (Seq<u8>, Seq<MovedView>)
    decreases s.len() - off,
{
    if off >= s.len() || !record_complete(rest_of(s, off)) {
        (out, moves)
    } else {
        let rest = rest_of(s, off);
        let size = stored_size(rest);
        if crc_matches(rest) && is_live(index, file_id, s, off) {
            let key = stored_key(rest);
            let to = RecordPos {
                file_id: merge_id,
                value_size: stored_value_size(rest) as u64,
                value_pos: (out.len() + HEADER_SIZE + stored_key_size(rest)) as u64,
                timestamp: stored_timestamp(rest) as u64,
            };
            merge_scan(
                index,
                file_id,
                s,
                off + size,
                merge_id,
                out + rest.subrange(0, size as int),
                moves.push((key, index[key], to)),
            )
        } else {
            merge_scan(index, file_id, s, off + size, merge_id, out, moves)
        }
    }
}

/// One copied record put into the index: only where the index still points at the
/// place it was copied from, and the new place leaves room for a header and the key.
pub open spec fn install_one(index: Map<Seq<u8>, RecordPos>, m: MovedView) -> Map<Seq<u8>, RecordPos> {
    if index.contains_key(m.0) && index[m.0] == m.1 && m.2.value_pos >= HEADER_SIZE + m.0.len() {
        index.insert(m.0, m.2)
    } else {
        index
    }
}

/// The index after putting in every copied record, first to last.
pub open spec fn install(index: Map<Seq<u8>, RecordPos>, ms: Seq<MovedView>) -> Map<Seq<u8>, RecordPos>
    decreases ms.len(),
{
    if ms.len() == 0 {
        index
    } else {
        install(install_one(index, ms[0]), ms.subrange(1, ms.len() as int))
    }
}

/// The ids of `ids` other than `x`, in their order.
pub open spec fn without(ids: Seq<u64>, x: u64) -> Seq<u64>
    decreases ids.len(),
{
    if ids.len() == 0 {
        ids
    } else {
        let r = without(ids.drop_last(), x);
        if ids.last() == x {
            r
        } else {
            r.push(ids.last())
        }
    }
}

/// The ids of `ids` other than `x`, in their order.
pub fn without_id(ids: &Vec<u64>, x: u64) -> (r: Vec<u64>)
    ensures
        r@ == without(ids@, x),
{
    let mut out: Vec<u64> = Vec::new();
    let mut i: usize = 0;
    while i < ids.len()
        invariant
            i <= ids@.len(),
            out@ == without(ids@.subrange(0, i as int), x),
        decreases ids@.len() - i,
    {
        assert(ids@.subrange(0, i + 1).drop_last() =~= ids@.subrange(0, i as int));
        if ids[i] != x {
            out.push(ids[i]);
        }
        i = i + 1;
    }
    assert(ids@.subrange(0, i as int) =~= ids@);
    out
}

/// Reads a value back from `bytes`, the contents of its file from the record's first
/// byte on: the record's value when it is whole and its checksum matches; nothing when
/// the bytes end too soon; for a checksum that fails, an error in strict mode and
/// nothing otherwise.
pub fn value_from_record(bytes: &[u8], strict: bool) -> (r: Result<Option<Vec<u8>>, Error>)
    ensures
        match r {
            Ok(None) => !record_complete(bytes@) || (!crc_matches(bytes@) && !strict),
            Ok(Some(v)) => record_complete(bytes@) && crc_matches(bytes@) && v@ == stored_value(bytes@),
            Err(e) => e is CorruptedData && strict && record_complete(bytes@) && !crc_matches(bytes@),
        },
{
    assert(bytes@.subrange(0, bytes@.len() as int) =~= bytes@);
    match decode_record(bytes, 0) {
        Decoded::EndOfFile => Ok(None),
        Decoded::Corrupt(_) => {
            if strict {
                Err(Error::CorruptedData)
            } else {
                Ok(None)
            }
        },
        Decoded::Record(record) => Ok(Some(record.value)),
    }
}

/// The largest id of a list, or zero for an empty one.
pub open spec fn max_id(ids: Seq<u64>) -> u64
    decreases ids.len(),
{
    if ids.len() == 0 {
        0
    } else {
        let m = max_id(ids.drop_last());
        if ids.last() > m {
            ids.last()
        } else {
            m
        }
    }
}

/// A new id above `last` and no earlier than `now` fits in 64 bits.
pub open spec fn id_available(last: u64, now: u64) -> bool {
    now > last || last < u64::MAX
}

/// The id that follows `last` at time `now`: `now` itself when it is later, else `last + 1`.
pub open spec fn next_id(last: u64, now: u64) -> u64 {
    if now > last {
        now
    } else {
        (last + 1) as u64
    }
}

} // verus!
