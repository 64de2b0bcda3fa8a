//! The identity of file actions, and the set of those already seen.
//!
//! The log is replayed newest first, so the first action met for a file
//! decides its fate: an add makes the file live, a remove makes it dead, and
//! every later (older) action for the same file is ignored. A file is
//! identified by its path together with the unique id of its deletion vector.

use crate::engine_data::{getter_views, required, Column, ColumnView};
use crate::error::{DeltaResult, Error};
use vstd::prelude::*;

verus! {

/// The character that stands for the decimal digit `d`.
pub open spec fn digit_char(d: int) -> char {
    (d + 48) as char
}

/// The decimal numeral of a natural number, without leading zeros.
pub open spec fn natural_text(n: nat) -> Seq<char>
    decreases n,
{
    if n < 10 {
        seq![digit_char(n as int)]
    } else {
        natural_text(n / 10).push(digit_char(n as int % 10))
    }
}

/// The decimal numeral of an integer, with a leading `-` if it is negative.
pub open spec fn decimal_text(n: int) -> Seq<char> {
    if n < 0 {
        seq!['-'] + natural_text((-n) as nat)
    } else {
        natural_text(n as nat)
    }
}

/// The unique id of a deletion vector: its storage type followed by its path
/// or inline data and, where it has an offset, by `@` and the offset in
/// decimal.
pub open spec fn dv_unique_id(
    storage_type: Seq<char>,
    path_or_inline_dv: Seq<char>,
    offset: Option<i32>,
) -> Seq<char> {
    match offset {
        Some(o) => storage_type + path_or_inline_dv + seq!['@'] + decimal_text(o as int),
        None => storage_type + path_or_inline_dv,
    }
}

fn digit_str(d: u32) -> (r: &'static str)
    requires
        d < 10,
    ensures
        r@ == seq![digit_char(d as int)],
{
    proof {
        reveal_strlit("0");
        reveal_strlit("1");
        reveal_strlit("2");
        reveal_strlit("3");
        reveal_strlit("4");
        reveal_strlit("5");
        reveal_strlit("6");
        reveal_strlit("7");
        reveal_strlit("8");
        reveal_strlit("9");
    }
    let r: &'static str = if d == 0 {
        "0"
    } else if d == 1 {
        "1"
    } else if d == 2 {
        "2"
    } else if d == 3 {
        "3"
    } else if d == 4 {
        "4"
    } else if d == 5 {
        "5"
    } else if d == 6 {
        "6"
    } else if d == 7 {
        "7"
    } else if d == 8 {
        "8"
    } else {
        "9"
    };
    assert(r@ =~= seq![digit_char(d as int)]);
    r
}

fn append_natural(text: &mut String, n: u32)
    ensures
        final(text)@ == old(text)@ + natural_text(n as nat),
    decreases n,
{
    if n >= 10 {
        append_natural(text, n / 10);
    }
    text.append(digit_str(n % 10));
    proof {
        if n >= 10 {
            assert(old(text)@ + natural_text(n as nat / 10) + seq![digit_char(n as int % 10)]
                =~= old(text)@ + natural_text(n as nat));
        }
    }
}

/// The unique id of the deletion vector with the given parts.
pub fn unique_id_from_parts(storage_type: &str, path_or_inline_dv: &str, offset: Option<i32>) -> (r:
    String)
    ensures
        r@ == dv_unique_id(storage_type@, path_or_inline_dv@, offset),
{
    let mut id: String = storage_type.to_owned();
    id.append(path_or_inline_dv);
    match offset {
        Some(o) => {
            proof {
                reveal_strlit("@");
                reveal_strlit("-");
                assert("@"@ =~= seq!['@']);
                assert("-"@ =~= seq!['-']);
            }
            id.append("@");
            if o < 0 {
                id.append("-");
                let magnitude: u32 = (-(o as i64)) as u32;
                append_natural(&mut id, magnitude);
                assert(id@ =~= dv_unique_id(storage_type@, path_or_inline_dv@, offset));
            } else {
                append_natural(&mut id, o as u32);
                assert(id@ =~= dv_unique_id(storage_type@, path_or_inline_dv@, offset));
            }
        },
        None => {},
    }
    id
}

/// The identity of a file action: the path of the data file and the unique id
/// of its deletion vector, if it has one.
#[derive(Debug, PartialEq, Eq)]
pub struct FileActionKey {
    pub path: String,
    pub dv_unique_id: Option<String>,
}

/// The mathematical value of a [`FileActionKey`]. A key without a deletion
/// vector differs from every key with one.
pub struct FileKey {
    pub path: Seq<char>,
    pub dv_unique_id: Option<Seq<char>>,
}

impl View for FileActionKey {
    type V = FileKey;

    open spec fn view(&self) -> FileKey {
        FileKey {
            path: self.path@,
            dv_unique_id: match self.dv_unique_id {
                Some(id) => Some(id@),
                None => None,
            },
        }
    }
}

impl FileActionKey {
    pub fn new(path: String, dv_unique_id: Option<String>) -> (r: FileActionKey)
        ensures
            r@ == (FileKey {
                path: path@,
                dv_unique_id: match dv_unique_id {
                    Some(id) => Some(id@),
                    None => None,
                },
            }),
    {
        FileActionKey { path, dv_unique_id }
    }

    /// Whether two keys identify the same file.
    pub fn same(&self, other: &FileActionKey) -> (r: bool)
        ensures
            r == (self@ == other@),
    {
        if self.path != other.path {
            return false;
        }
        match (&self.dv_unique_id, &other.dv_unique_id) {
            (Some(a), Some(b)) => *a == *b,
            (None, None) => true,
            _ => false,
        }
    }
}

/// The keys of the file actions seen so far in one scan. A key, once
/// inserted, stays; no key is held twice.
#[derive(Debug, PartialEq, Eq)]
pub struct FileActionKeySet {
    keys: Vec<FileActionKey>,
}

impl View for FileActionKeySet {
    type V = Set<FileKey>;

    closed spec fn view(&self) -> Set<FileKey> {
        Set::new(|k: FileKey| exists|i: int| 0 <= i < self.keys.len() && self.keys[i]@ == k)
    }
}

impl FileActionKeySet {
    #[verifier::type_invariant]
    spec fn distinct(self) -> bool {
        forall|i: int, j: int| 0 <= i < j < self.keys.len() ==> self.keys[i]@ != self.keys[j]@
    }

    /// The empty set.
    pub fn new() -> (r: FileActionKeySet)
        ensures
            r@ == Set::<FileKey>::empty(),
    {
        let r = FileActionKeySet { keys: Vec::new() };
        assert(r@ =~= Set::<FileKey>::empty());
        r
    }

    /// Whether the key is in the set.
    pub fn contains(&self, key: &FileActionKey) -> (r: bool)
        ensures
            r == self@.contains(key@),
    {
        let mut i: usize = 0;
        while i < self.keys.len()
            invariant
                i <= self.keys.len(),
                forall|j: int| 0 <= j < i ==> self.keys[j]@ != key@,
            decreases self.keys.len() - i,
        {
            if self.keys[i].same(key) {
                return true;
            }
            i += 1;
        }
        false
    }

    /// Puts the key into the set. Returns whether it was new.
    pub fn insert(&mut self, key: FileActionKey) -> (r: bool)
        ensures
            r == !old(self)@.contains(key@),
            final(self)@ == old(self)@.insert(key@),
    {
        if self.contains(&key) {
            assert(self@.insert(key@) =~= self@);
            false
        } else {
            proof {
                use_type_invariant(&*self);
            }
            let ghost before = self.keys@;
            let mut keys: Vec<FileActionKey> = Vec::new();
            std::mem::swap(&mut self.keys, &mut keys);
            keys.push(key);
            std::mem::swap(&mut self.keys, &mut keys);
            assert(self.keys@ == before.push(key));
            assert forall|k: FileKey| self@.contains(k) == old(self)@.insert(key@).contains(k) by {
                if old(self)@.contains(k) {
                    let i = choose|i: int| 0 <= i < before.len() && before[i]@ == k;
                    assert(self.keys[i]@ == k);
                }
                if k == key@ {
                    assert(self.keys[before.len() as int]@ == k);
                }
            }
            assert(self@ =~= old(self)@.insert(key@));
            true
        }
    }

}

/// The unique id of the deletion vector that row `i` records in the three
/// columns from `start` on: storage type, path or inline data, offset. A row
/// without a storage type has no deletion vector.
pub open spec fn dv_unique_id_at(cols: Seq<ColumnView>, start: int, i: int) -> Result<
    Option<Seq<char>>,
    Error,
> {
    match cols[start].str_at(i) {
        Err(e) => Err(e),
        Ok(None) => Ok(None),
        Ok(Some(storage_type)) => match required(cols[start + 1].str_at(i)) {
            Err(e) => Err(e),
            Ok(path_or_inline_dv) => match cols[start + 2].int_at(i) {
                Err(e) => Err(e),
                Ok(offset) => Ok(Some(dv_unique_id(storage_type, path_or_inline_dv, offset))),
            },
        },
    }
}

/// The key of the file whose path is `path` and whose deletion vector is
/// recorded from column `dv_start` on.
pub open spec fn file_key_at(cols: Seq<ColumnView>, path: Seq<char>, dv_start: int, i: int)
    -> Result<FileKey, Error> {
    match dv_unique_id_at(cols, dv_start, i) {
        Err(e) => Err(e),
        Ok(id) => Ok(FileKey { path, dv_unique_id: id }),
    }
}

/// The file action in row `i`: its key, and whether it is an add. A row with
/// the path of an add is an add. Otherwise, unless removes are skipped, a row
/// with the path of a remove is a remove. Any other row holds no file action.
/// The paths are read in the columns `add_path` and `remove_path`, the
/// deletion vectors from the columns `add_dv` and `remove_dv` on.
pub open spec fn file_action_in(
    cols: Seq<ColumnView>,
    i: int,
    skip_removes: bool,
    add_path: int,
    add_dv: int,
    remove_path: int,
    remove_dv: int,
) -> Result<Option<(FileKey, bool)>, Error> {
    match cols[add_path].str_at(i) {
        Err(e) => Err(e),
        Ok(Some(path)) => match file_key_at(cols, path, add_dv, i) {
            Err(e) => Err(e),
            Ok(key) => Ok(Some((key, true))),
        },
        Ok(None) => if skip_removes {
            Ok(None)
        } else {
            match cols[remove_path].str_at(i) {
                Err(e) => Err(e),
                Ok(Some(path)) => match file_key_at(cols, path, remove_dv, i) {
                    Err(e) => Err(e),
                    Ok(key) => Ok(Some((key, false))),
                },
                Ok(None) => Ok(None),
            }
        },
    }
}

/// Tells adds and removes apart, and keeps track of the files seen so far.
pub struct FileActionDeduplicator<'seen> {
    /// The keys of the file actions seen so far in the scan.
    pub seen_file_keys: &'seen mut FileActionKeySet,
    /// Whether the batch at hand comes from a commit, not from a checkpoint.
    pub is_log_batch: bool,
    /// The position of the column that holds the path of an add.
    pub add_path_index: usize,
    /// The position of the column that holds the path of a remove.
    pub remove_path_index: usize,
    /// The position of the first of the three columns that hold the deletion
    /// vector of an add.
    pub add_dv_start_index: usize,
    /// The position of the first of the three columns that hold the deletion
    /// vector of a remove.
    pub remove_dv_start_index: usize,
}

impl<'seen> FileActionDeduplicator<'seen> {
    pub fn new(
        seen_file_keys: &'seen mut FileActionKeySet,
        is_log_batch: bool,
        add_path_index: usize,
        remove_path_index: usize,
        add_dv_start_index: usize,
        remove_dv_start_index: usize,
    ) -> (r: FileActionDeduplicator<'seen>)
        ensures
            r.seen_file_keys@ == old(seen_file_keys)@,
            *final(r.seen_file_keys) == *final(seen_file_keys),
            r.is_log_batch == is_log_batch,
            r.add_path_index == add_path_index,
            r.remove_path_index == remove_path_index,
            r.add_dv_start_index == add_dv_start_index,
            r.remove_dv_start_index == remove_dv_start_index,
    {
        FileActionDeduplicator {
            seen_file_keys,
            is_log_batch,
            add_path_index,
            remove_path_index,
            add_dv_start_index,
            remove_dv_start_index,
        }
    }

    /// The keys of the file actions seen so far.
    pub open spec fn seen(&self) -> Set<FileKey> {
        self.seen_file_keys@
    }

    /// Whether the columns that are read lie within the `n` that are given.
    /// The columns of removes are read only where removes are not skipped.
    pub open spec fn columns_within(&self, n: int, skip_removes: bool) -> bool {
        &&& self.add_path_index < n
        &&& self.add_dv_start_index + 2 < n
        &&& !skip_removes ==> self.remove_path_index < n && self.remove_dv_start_index + 2 < n
    }

    /// The file action in row `i`, read at the positions of this
    /// deduplicator: its key, and whether it is an add.
    pub open spec fn file_action_at(&self, cols: Seq<ColumnView>, i: int, skip_removes: bool)
        -> Result<Option<(FileKey, bool)>, Error> {
        file_action_in(
            cols,
            i,
            skip_removes,
            self.add_path_index as int,
            self.add_dv_start_index as int,
            self.remove_path_index as int,
            self.remove_dv_start_index as int,
        )
    }

    /// Whether the batch at hand comes from a commit, not from a checkpoint.
    pub fn is_log_batch(&self) -> (r: bool)
        ensures
            r == self.is_log_batch,
    {
        self.is_log_batch
    }

    /// Records the key as seen. Returns `true` if it had been seen before, in
    /// which case the action it belongs to must be ignored.
    pub fn check_and_record_seen(&mut self, key: FileActionKey) -> (r: bool)
        ensures
            r == old(self).seen().contains(key@),
            final(self).seen() == old(self).seen().insert(key@),
            *final(final(self).seen_file_keys) == *final(old(self).seen_file_keys),
            final(self).is_log_batch == old(self).is_log_batch,
            final(self).add_path_index == old(self).add_path_index,
            final(self).remove_path_index == old(self).remove_path_index,
            final(self).add_dv_start_index == old(self).add_dv_start_index,
            final(self).remove_dv_start_index == old(self).remove_dv_start_index,
    {
        !self.seen_file_keys.insert(key)
    }

    /// The unique id of the deletion vector that row `i` records in the three
    /// columns from `dv_start_index` on.
    pub fn extract_dv_unique_id(&self, i: usize, getters: &[&Column], dv_start_index: usize) -> (r:
        DeltaResult<Option<String>>)
        requires
            dv_start_index + 2 < getters@.len(),
            forall|k: int| 0 <= k < getters@.len() ==> i < (#[trigger] getters@[k])@.len(),
        ensures
            match dv_unique_id_at(getter_views(getters@), dv_start_index as int, i as int) {
                Ok(Some(id)) => r matches Ok(Some(s)) && s@ == id,
                Ok(None) => r matches Ok(None),
                Err(e) => r matches Err(x) && x == e,
            },
    {
        let storage_type: &String = match getters[dv_start_index].get_str(i)? {
            Some(s) => s,
            None => {
                return Ok(None);
            },
        };
        let path_or_inline_dv: &String = match getters[dv_start_index + 1].get_str(i)? {
            Some(s) => s,
            None => {
                return Err(Error::MissingData);
            },
        };
        let offset: Option<i32> = getters[dv_start_index + 2].get_int(i)?;
        Ok(Some(unique_id_from_parts(storage_type.as_str(), path_or_inline_dv.as_str(), offset)))
    }

    /// The file action in row `i`, if the row holds one: its key, and whether
    /// it is an add.
    pub fn extract_file_action(&self, i: usize, getters: &[&Column], skip_removes: bool) -> (r:
        DeltaResult<Option<(FileActionKey, bool)>>)
        requires
            self.columns_within(getters@.len() as int, skip_removes),
            forall|k: int| 0 <= k < getters@.len() ==> i < (#[trigger] getters@[k])@.len(),
        ensures
            match self.file_action_at(getter_views(getters@), i as int, skip_removes) {
                Ok(Some((key, is_add))) => r matches Ok(Some(found)) && found.0@ == key && found.1
                    == is_add,
                Ok(None) => r matches Ok(None),
                Err(e) => r matches Err(x) && x == e,
            },
    {
        match getters[self.add_path_index].get_str(i)? {
            Some(path) => {
                let dv_unique_id = self.extract_dv_unique_id(i, getters, self.add_dv_start_index)?;
                return Ok(Some((FileActionKey::new(path.clone(), dv_unique_id), true)));
            },
            None => {},
        }
        if skip_removes {
            return Ok(None);
        }
        match getters[self.remove_path_index].get_str(i)? {
            Some(path) => {
                let dv_unique_id = self.extract_dv_unique_id(
                    i,
                    getters,
                    self.remove_dv_start_index,
                )?;
                Ok(Some((FileActionKey::new(path.clone(), dv_unique_id), false)))
            },
            None => Ok(None),
        }
    }
}

} // verus!
