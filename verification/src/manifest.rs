//! The manifest: the server's schema of states and commands.
//!
//! A manifest is an ordered list of entries, each an id, a type tag and a
//! path, with an index by id and an index by path. It is parsed once from
//! the manifest text and never changes after. Ids are meant to be unique;
//! where two entries share one, the first answers for it. Of two entries
//! with the same path the later one answers for it.

use crate::error::{ManifestError, PayloadError};
use crate::text::{
    blank, chars_of, find_char, is_blank, lemma_split_nonempty, parse_i32, spec_parse_i32, split,
    split_from, starts_with, string_of,
};
use crate::typed_value::Type;
use vstd::hash_map::{HashMapWithView, StringHashMap};
use vstd::prelude::*;
use vstd::slice::slice_subrange;
use vstd::string::*;

verus! {

/// One record of the manifest.
#[derive(Debug)]
pub struct Entry {
    /// The number by which frames refer to the state or command.
    pub id: i32,
    /// The tag of the wire type, `0..=5` for the six known types.
    pub data_type: i32,
    /// The symbolic path.
    pub string: String,
}

/// What an [`Entry`] is, with its path as a sequence of characters.
pub struct EntryView {
    pub id: i32,
    pub data_type: i32,
    pub path: Seq<char>,
}

impl View for Entry {
    type V = EntryView;

    open spec fn view(&self) -> EntryView {
        EntryView { id: self.id, data_type: self.data_type, path: self.string@ }
    }
}

impl Clone for Entry {
    fn clone(&self) -> (copy: Self)
        ensures
            copy == *self,
    {
        Entry { id: self.id, data_type: self.data_type, string: self.string.clone() }
    }
}

/// The views of a list of entries, in order.
pub open spec fn views(entries: Seq<Entry>) -> Seq<EntryView> {
    entries.map_values(|e: Entry| e@)
}

/// The entry that answers for `id`: the first in the list that has it.
pub open spec fn lookup_id(entries: Seq<EntryView>, id: i32) -> Option<EntryView>
    decreases entries.len(),
{
    if entries.len() == 0 {
        None
    } else if entries[0].id == id {
        Some(entries[0])
    } else {
        lookup_id(entries.drop_first(), id)
    }
}

/// The entry that answers for `path`: the last in the list that has it.
pub open spec fn lookup_path(entries: Seq<EntryView>, path: Seq<char>) -> Option<EntryView>
    decreases entries.len(),
{
    if entries.len() == 0 {
        None
    } else if entries.last().path == path {
        Some(entries.last())
    } else {
        lookup_path(entries.drop_last(), path)
    }
}

/// The wire type of the state `id`, or why it has none: no entry has the id,
/// or the entry's tag names no type.
pub open spec fn data_type_for_id(entries: Seq<EntryView>, id: i32) -> Result<Type, ManifestError> {
    match lookup_id(entries, id) {
        None => Err(ManifestError::NoSuchEntryId(id)),
        Some(entry) => match Type::spec_from_tag(entry.data_type as int) {
            Some(kind) => Ok(kind),
            None => Err(ManifestError::WrongDataType(entry.data_type)),
        },
    }
}

/// Whether `index` maps each path of `entries` to the entry that answers for
/// it, and no other path.
pub open spec fn indexes(index: Map<Seq<char>, Entry>, entries: Seq<EntryView>) -> bool {
    forall|path: Seq<char>|
        match #[trigger] lookup_path(entries, path) {
            Some(entry) => index.contains_key(path) && index[path]@ == entry,
            None => !index.contains_key(path),
        }
}

/// Whether `index` maps each id of `entries` to the entry that answers for
/// it, and no other id.
pub open spec fn indexes_ids(index: Map<i32, Entry>, entries: Seq<EntryView>) -> bool {
    forall|id: i32|
        match #[trigger] lookup_id(entries, id) {
            Some(entry) => index.contains_key(id) && index[id]@ == entry,
            None => !index.contains_key(id),
        }
}

/// Whether `found` holds, each once and in any order, the entries that answer
/// for the paths of `entries` that begin with `prefix`.
pub open spec fn answers_prefix(
    entries: Seq<EntryView>,
    prefix: Seq<char>,
    found: Seq<EntryView>,
) -> bool {
    &&& forall|k: int|
        0 <= k < found.len() ==> prefix.is_prefix_of((#[trigger] found[k]).path) && lookup_path(
            entries,
            found[k].path,
        ) == Some(found[k])
    &&& forall|path: Seq<char>|
        prefix.is_prefix_of(path) && (#[trigger] lookup_path(entries, path)) is Some
            ==> exists|k: int| 0 <= k < found.len() && (#[trigger] found[k]).path == path
    &&& forall|j: int, k: int|
        0 <= j < k < found.len() ==> (#[trigger] found[j]).path != (#[trigger] found[k]).path
}

/// The views of a list of borrowed entries, in order.
pub open spec fn ref_views(entries: Seq<&Entry>) -> Seq<EntryView> {
    entries.map_values(|e: &Entry| e@)
}

/// The entry that a line of the manifest text records: three fields
/// separated by commas, of which the first two spell 32-bit integers, the id
/// and the type tag; the third is the path as it stands.
pub open spec fn record(line: Seq<char>) -> Option<EntryView> {
    let fields = split(line, ',');
    if fields.len() == 3 && spec_parse_i32(fields[0]) is Some && spec_parse_i32(fields[1])
        is Some {
        Some(
            EntryView {
                id: spec_parse_i32(fields[0])->0,
                data_type: spec_parse_i32(fields[1])->0,
                path: fields[2],
            },
        )
    } else {
        None
    }
}

/// The entries that `lines` record, in order. Blank lines record nothing;
/// any other line that is no record makes the whole text malformed.
pub open spec fn records(lines: Seq<Seq<char>>) -> Option<Seq<EntryView>>
    decreases lines.len(),
{
    if lines.len() == 0 {
        Some(Seq::empty())
    } else {
        let rest = records(lines.drop_first());
        if blank(lines[0]) {
            rest
        } else {
            match (record(lines[0]), rest) {
                (Some(entry), Some(entries)) => Some(seq![entry] + entries),
                _ => None,
            }
        }
    }
}

/// The entries that a manifest text records, or `None` where it is malformed.
pub open spec fn parse(text: Seq<char>) -> Option<Seq<EntryView>> {
    records(split(text, '\n'))
}

/// `records` with `done` put in front of what it yields.
pub open spec fn after(done: Seq<EntryView>, rest: Option<Seq<EntryView>>) -> Option<
    Seq<EntryView>,
> {
    match rest {
        Some(entries) => Some(done + entries),
        None => None,
    }
}

/// The server's schema: the entries in the order of the manifest text, with
/// an index by id and an index by path.
pub struct Manifest {
    entries: Vec<Entry>,
    entries_by_id: HashMapWithView<i32, Entry>,
    entries_by_path: StringHashMap<Entry>,
}

impl View for Manifest {
    type V = Seq<EntryView>;

    closed spec fn view(&self) -> Seq<EntryView> {
        views(self.entries@)
    }
}

/// An entry that `lookup_path` finds is in the list and has the path; where
/// it finds none, no entry has the path.
pub proof fn lemma_lookup_path(entries: Seq<EntryView>, path: Seq<char>)
    ensures
        match lookup_path(entries, path) {
            Some(entry) => entries.contains(entry) && entry.path == path,
            None => forall|i: int| 0 <= i < entries.len() ==> (#[trigger] entries[i]).path != path,
        },
    decreases entries.len(),
{
    if entries.len() > 0 {
        if entries.last().path == path {
            assert(entries[entries.len() - 1] == entries.last());
        } else {
            lemma_lookup_path(entries.drop_last(), path);
            match lookup_path(entries, path) {
                Some(entry) => {
                    let i = choose|i: int|
                        0 <= i < entries.drop_last().len() && entries.drop_last()[i] == entry;
                    assert(entries[i] == entry);
                },
                None => {
                    assert forall|i: int| 0 <= i < entries.len() implies (
                    #[trigger] entries[i]).path != path by {
                        if i < entries.len() - 1 {
                            assert(entries.drop_last()[i] == entries[i]);
                        }
                    }
                },
            }
        }
    }
}

/// An entry that `lookup_id` finds is in the list and has the id; where it
/// finds none, no entry has the id.
pub proof fn lemma_lookup_id(entries: Seq<EntryView>, id: i32)
    ensures
        match lookup_id(entries, id) {
            Some(entry) => entries.contains(entry) && entry.id == id,
            None => forall|i: int| 0 <= i < entries.len() ==> (#[trigger] entries[i]).id != id,
        },
    decreases entries.len(),
{
    if entries.len() > 0 {
        if entries[0].id == id {
        } else {
            lemma_lookup_id(entries.drop_first(), id);
            match lookup_id(entries, id) {
                Some(entry) => {
                    let i = choose|i: int|
                        0 <= i < entries.drop_first().len() && entries.drop_first()[i] == entry;
                    assert(entries[i + 1] == entry);
                },
                None => {
                    assert forall|i: int| 0 <= i < entries.len() implies (
                    #[trigger] entries[i]).id != id by {
                        if i > 0 {
                            assert(entries.drop_first()[i - 1] == entries[i]);
                        }
                    }
                },
            }
        }
    }
}

impl Manifest {
    #[verifier::type_invariant]
    spec fn indexed(self) -> bool {
        &&& indexes_ids(self.entries_by_id@, views(self.entries@))
        &&& indexes(self.entries_by_path@, views(self.entries@))
    }

    /// The manifest of `entries`, with its indices.
    pub fn new(entries: Vec<Entry>) -> (manifest: Manifest)
        ensures
            manifest@ == views(entries@),
    {
        Manifest {
            entries_by_id: Self::construct_entries_by_id(&entries),
            entries_by_path: Self::construct_entries_by_path(&entries),
            entries,
        }
    }

    /// Parses the manifest text: one record `id,tag,path` per line, blank
    /// lines skipped. Fails on the first line that is neither.
    pub fn from_str(manifest_str: &str) -> (manifest: Result<Manifest, PayloadError>)
        ensures
            match manifest {
                Ok(m) => parse(manifest_str@) == Some(m@),
                Err(e) => parse(manifest_str@) is None && e == PayloadError::MalformedManifest,
            },
    {
        let chars = chars_of(manifest_str);
        let text: &[char] = chars.as_slice();
        let mut entries: Vec<Entry> = Vec::new();
        let mut pos: usize = 0;
        let mut done = false;
        while !done
            invariant
                text@ == manifest_str@,
                done ==> parse(text@) == Some(views(entries@)),
                !done ==> pos <= text@.len(),
                !done ==> parse(text@) == after(
                    views(entries@),
                    records(split_from(text@, '\n', pos as int)),
                ),
            decreases text@.len() - pos + (if done { 0int } else { 1int }),
        {
            let end = find_char(text, '\n', pos);
            let line = slice_subrange(text, pos, end);
            let ghost lines = split_from(text@, '\n', pos as int);
            let ghost before = views(entries@);
            let ghost tail = records(lines.drop_first());
            assert(lines[0] == line@);
            assert(end < text@.len() ==> lines.drop_first() =~= split_from(
                text@,
                '\n',
                end + 1,
            ));
            assert(end >= text@.len() ==> lines.drop_first() =~= Seq::<Seq<char>>::empty());
            if !is_blank(line) {
                match parse_record(line) {
                    Some(entry) => {
                        entries.push(entry);
                        assert(views(entries@) =~= before.push(entry@));
                        assert(after(before, records(lines)) == after(views(entries@), tail)) by {
                            if let Some(rest) = tail {
                                assert(before + (seq![entry@] + rest) =~= before.push(entry@)
                                    + rest);
                            }
                        }
                    },
                    None => {
                        return Err(PayloadError::MalformedManifest);
                    },
                }
            }
            assert(parse(text@) == after(views(entries@), tail));
            if end < text.len() {
                pos = end + 1;
            } else {
                done = true;
                assert(views(entries@) + Seq::<EntryView>::empty() =~= views(entries@));
            }
        }
        Ok(Manifest::new(entries))
    }

    /// Builds the index by id: each id is mapped to the first entry that has
    /// it.
    pub fn construct_entries_by_id(entries: &Vec<Entry>) -> (index: HashMapWithView<i32, Entry>)
        ensures
            indexes_ids(index@, views(entries@)),
    {
        broadcast use vstd::std_specs::hash::axiom_i32_obeys_hash_table_key_model;

        let mut result: HashMapWithView<i32, Entry> = HashMapWithView::new();
        let mut i: usize = entries.len();
        assert(views(entries@).skip(i as int) =~= Seq::<EntryView>::empty());
        while i > 0
            invariant
                i <= entries@.len(),
                indexes_ids(result@, views(entries@).skip(i as int)),
            decreases i,
        {
            i -= 1;
            let entry = &entries[i];
            result.insert(entry.id, entry.clone());
            proof {
                let all = views(entries@);
                let before = all.skip(i + 1);
                let now = all.skip(i as int);
                assert(now.drop_first() =~= before);
                assert(now[0] == entry@);
                assert forall|id: i32|
                    match #[trigger] lookup_id(now, id) {
                        Some(found) => result@.contains_key(id) && result@[id]@ == found,
                        None => !result@.contains_key(id),
                    } by {
                    if entry@.id != id {
                        assert(lookup_id(now, id) == lookup_id(before, id));
                    }
                }
            }
        }
        assert(views(entries@).skip(0) =~= views(entries@));
        result
    }

    /// Builds the index by path: each path is mapped to the last entry that
    /// has it.
    pub fn construct_entries_by_path(entries: &Vec<Entry>) -> (index: StringHashMap<Entry>)
        ensures
            indexes(index@, views(entries@)),
    {
        let mut result: StringHashMap<Entry> = StringHashMap::new();
        let mut i: usize = 0;
        while i < entries.len()
            invariant
                i <= entries@.len(),
                indexes(result@, views(entries@).take(i as int)),
            decreases entries@.len() - i,
        {
            let entry = &entries[i];
            result.insert(entry.string.clone(), entry.clone());
            proof {
                let all = views(entries@);
                let before = all.take(i as int);
                let now = all.take(i + 1);
                assert(now.drop_last() =~= before);
                assert(now.last() == entry@);
                assert forall|path: Seq<char>|
                    match #[trigger] lookup_path(now, path) {
                        Some(found) => result@.contains_key(path) && result@[path]@ == found,
                        None => !result@.contains_key(path),
                    } by {
                    if entry@.path != path {
                        assert(lookup_path(now, path) == lookup_path(before, path));
                    }
                }
            }
            i += 1;
        }
        assert(views(entries@).take(entries@.len() as int) =~= views(entries@));
        result
    }

    /// The entry that the index holds for the id: the first that has it.
    pub fn get_entry_by_id(&self, id: &i32) -> (found: Result<&Entry, ManifestError>)
        ensures
            match found {
                Ok(entry) => lookup_id(self@, *id) == Some(entry@),
                Err(e) => lookup_id(self@, *id) is None && e == ManifestError::NoSuchEntryId(*id),
            },
    {
        proof {
            use_type_invariant(self);
        }
        match self.entries_by_id.get(id) {
            Some(entry) => Ok(entry),
            None => Err(ManifestError::NoSuchEntryId(*id)),
        }
    }

    /// The entry that the index holds for the path: the last that has it.
    pub fn get_entry_by_path(&self, path: &str) -> (found: Result<&Entry, ManifestError>)
        ensures
            match found {
                Ok(entry) => lookup_path(self@, path@) == Some(entry@),
                Err(e) => lookup_path(self@, path@) is None && (e matches ManifestError::NoSuchEntryPath(
                    p,
                ) && p@ == path@),
            },
    {
        proof {
            use_type_invariant(self);
        }
        match self.entries_by_path.get(path) {
            Some(entry) => Ok(entry),
            None => Err(ManifestError::NoSuchEntryPath(path.to_owned())),
        }
    }

    /// The entries whose path begins with `prefix`: for each such path the
    /// entry that answers for it, once. The order means nothing.
    pub fn get_entries_with_prefix(&self, prefix: &str) -> (result: Vec<&Entry>)
        ensures
            answers_prefix(self@, prefix@, ref_views(result@)),
    {
        proof {
            use_type_invariant(self);
        }
        let prefix_chars = chars_of(prefix);
        let mut result: Vec<&Entry> = Vec::new();
        let mut seen: StringHashMap<bool> = StringHashMap::new();
        let mut i: usize = 0;
        while i < self.entries.len()
            invariant
                i <= self.entries@.len(),
                prefix_chars@ == prefix@,
                indexes(self.entries_by_path@, views(self.entries@)),
                forall|k: int|
                    0 <= k < result@.len() ==> {
                        let e = (#[trigger] result@[k])@;
                        &&& prefix@.is_prefix_of(e.path)
                        &&& lookup_path(self@, e.path) == Some(e)
                        &&& seen@.contains_key(e.path)
                    },
                forall|path: Seq<char>| #[trigger]
                    seen@.contains_key(path) ==> exists|k: int|
                        0 <= k < result@.len() && (#[trigger] result@[k])@.path == path,
                forall|j: int|
                    0 <= j < i && prefix@.is_prefix_of((#[trigger] self@[j]).path)
                        ==> seen@.contains_key(self@[j].path),
                forall|j: int, k: int|
                    0 <= j < k < result@.len() ==> (#[trigger] result@[j])@.path != (
                    #[trigger] result@[k])@.path,
            decreases self.entries@.len() - i,
        {
            let entry = &self.entries[i];
            let path = entry.string.as_str();
            assert(self@[i as int] == entry@);
            if starts_with(path, prefix_chars.as_slice()) && !seen.contains_key(path) {
                proof {
                    lemma_lookup_path(self@, path@);
                }
                match self.entries_by_path.get(path) {
                    Some(winner) => {
                        let ghost old_result = result@;
                        let ghost old_seen = seen@;
                        result.push(winner);
                        seen.insert(entry.string.clone(), true);
                        assert(result@[old_result.len() as int] == winner);
                        assert forall|p: Seq<char>| #[trigger]
                            seen@.contains_key(p) implies exists|k: int|
                            0 <= k < result@.len() && (#[trigger] result@[k])@.path == p by {
                            if p == path@ {
                                assert(result@[old_result.len() as int]@.path == p);
                            } else {
                                assert(old_seen.contains_key(p));
                                let k = choose|k: int|
                                    0 <= k < old_result.len() && (#[trigger] old_result[k])@.path
                                        == p;
                                assert(result@[k] == old_result[k]);
                            }
                        }
                        assert forall|j: int, k: int| 0 <= j < k < result@.len() implies (
                        #[trigger] result@[j])@.path != (#[trigger] result@[k])@.path by {
                            if k == old_result.len() {
                                assert(result@[j] == old_result[j]);
                                assert(old_seen.contains_key(old_result[j]@.path));
                            } else {
                                assert(result@[j] == old_result[j]);
                                assert(result@[k] == old_result[k]);
                            }
                        }
                        assert forall|k: int| 0 <= k < result@.len() implies {
                            let e = (#[trigger] result@[k])@;
                            &&& prefix@.is_prefix_of(e.path)
                            &&& lookup_path(self@, e.path) == Some(e)
                            &&& seen@.contains_key(e.path)
                        } by {
                            if k < old_result.len() {
                                assert(result@[k] == old_result[k]);
                            }
                        }
                    },
                    None => {
                        assert(false);
                    },
                }
            }
            i += 1;
        }
        proof {
            let found = ref_views(result@);
            assert forall|path: Seq<char>|
                prefix@.is_prefix_of(path) && (#[trigger] lookup_path(self@, path))
                    is Some implies exists|k: int|
                0 <= k < found.len() && (#[trigger] found[k]).path == path by {
                lemma_lookup_path(self@, path);
                let entry = lookup_path(self@, path)->0;
                let j = choose|j: int| 0 <= j < self@.len() && self@[j] == entry;
                assert(seen@.contains_key(self@[j].path));
                let k = choose|k: int|
                    0 <= k < result@.len() && (#[trigger] result@[k])@.path == path;
                assert(found[k] == result@[k]@);
            }
            assert forall|k: int| 0 <= k < found.len() implies prefix@.is_prefix_of(
                (#[trigger] found[k]).path,
            ) && lookup_path(self@, found[k].path) == Some(found[k]) by {
                assert(found[k] == result@[k]@);
            }
            assert forall|j: int, k: int| 0 <= j < k < found.len() implies (#[trigger] found[j]).path
                != (#[trigger] found[k]).path by {
                assert(found[j] == result@[j]@);
                assert(found[k] == result@[k]@);
            }
        }
        result
    }

    /// The wire type of the state or command `id`.
    ///
    /// Fails with `NoSuchEntryId` where no entry has the id, and with
    /// `WrongDataType` where the entry's tag is outside `0..=5`.
    pub fn get_data_type_for_id(&self, id: &i32) -> (kind: Result<Type, ManifestError>)
        ensures
            kind == data_type_for_id(self@, *id),
    {
        match self.get_entry_by_id(id) {
            Err(_) => Err(ManifestError::NoSuchEntryId(*id)),
            Ok(entry) => match Type::from_tag(entry.data_type) {
                Some(kind) => Ok(kind),
                None => Err(ManifestError::WrongDataType(entry.data_type)),
            },
        }
    }

    /// The number of entries.
    pub fn entries_num(&self) -> (n: usize)
        ensures
            n == self@.len(),
    {
        self.entries.len()
    }
}

impl Clone for Manifest {
    fn clone(&self) -> (copy: Self)
        ensures
            copy@ == self@,
    {
        let mut entries: Vec<Entry> = Vec::new();
        let mut i: usize = 0;
        while i < self.entries.len()
            invariant
                i <= self.entries@.len(),
                entries@ == self.entries@.take(i as int),
            decreases self.entries@.len() - i,
        {
            entries.push(self.entries[i].clone());
            assert(self.entries@.take(i + 1) =~= self.entries@.take(i as int).push(
                self.entries@[i as int],
            ));
            i += 1;
        }
        assert(self.entries@.take(self.entries@.len() as int) =~= self.entries@);
        Manifest::new(entries)
    }
}

/// The entry that `line` records, if it records one.
pub fn parse_record(line: &[char]) -> (entry: Option<Entry>)
    ensures
        match entry {
            Some(e) => record(line@) == Some(e@),
            None => record(line@) is None,
        },
{
    let n = line.len();
    proof {
        reveal_with_fuel(split_from, 4);
    }
    let c1 = find_char(line, ',', 0);
    if c1 == n {
        return None;
    }
    let c2 = find_char(line, ',', c1 + 1);
    if c2 == n {
        return None;
    }
    let c3 = find_char(line, ',', c2 + 1);
    if c3 < n {
        proof {
            lemma_split_nonempty(line@, ',', c3 + 1);
        }
        return None;
    }
    let id = parse_i32(slice_subrange(line, 0, c1));
    let data_type = parse_i32(slice_subrange(line, c1 + 1, c2));
    match (id, data_type) {
        (Some(id), Some(data_type)) => Some(
            Entry { id, data_type, string: string_of(slice_subrange(line, c2 + 1, n)) },
        ),
        _ => None,
    }
}

} // verus!
