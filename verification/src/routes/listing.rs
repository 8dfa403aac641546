//! Listing the objects below a prefix: a walk over the directories of the
//! store that keeps the directories still to read on a stack of its own.
//!
//! The caller reads the directories. It starts a [`Listing`] with
//! [`list_objects`], takes the next directory from [`Listing::next_dir`],
//! hands what it holds to [`Listing::visit`], and, when no directory is
//! left, takes the sorted result from [`Listing::finish`]. A directory
//! that is missing is skipped: its listing is empty. What these steps
//! find together is stated in [`crate::routes::walk`].

use crate::error::ApiError;
use crate::routes::objects::{is_normal_segment, is_valid_key, join_path,
    lemma_child_key_is_valid, resolved, valid_key, ObjectMetadata};
use crate::order::{key_before_or_same, key_le, keys_sorted, lemma_insert_keeps_order,
    lemma_key_le_total};
use crate::text::texts;
use vstd::multiset::Multiset;
use vstd::prelude::*;

verus! {

/// What kind of thing a directory holds under a name.
#[derive(Clone, Copy, Debug, PartialEq, Eq, Structural)]
pub enum EntryKind {
    Dir,
    File,
    /// Neither a directory nor a file.
    Other,
}

/// One entry of a directory.
#[derive(Clone, Debug, PartialEq, Eq)]
pub struct Entry {
    pub name: String,
    pub kind: EntryKind,
    /// The length in bytes, of a file.
    pub size: u64,
    /// When it was last written, in seconds since the epoch.
    pub modified: u64,
}

/// One object of a listing.
#[derive(Clone, Debug, PartialEq, Eq)]
pub struct ListedObject {
    pub key: String,
    pub size: u64,
    pub modified: u64,
}

/// A listed object as plain values.
pub struct Listed {
    pub key: Seq<char>,
    pub size: u64,
    pub modified: u64,
}

impl View for ListedObject {
    type V = Listed;

    open spec fn view(&self) -> Listed {
        Listed { key: self.key@, size: self.size, modified: self.modified }
    }
}

/// Each object of `v` as plain values.
pub open spec fn listed(v: Seq<ListedObject>) -> Seq<Listed> {
    Seq::new(v.len(), |i: int| v[i]@)
}

/// A listing in progress.
#[derive(Debug)]
pub struct Listing {
    /// The directories still to read, as keys; the next one is the last.
    /// The empty key is the root of the store.
    pub pending: Vec<String>,
    /// The objects found so far, as they were found.
    pub found: Vec<ListedObject>,
    /// Whether the directories below the first are read too.
    pub recursive: bool,
}

/// The key of each object of `v`.
pub open spec fn keys_of(v: Seq<Listed>) -> Seq<Seq<char>> {
    Seq::new(v.len(), |i: int| v[i].key)
}

/// Whether the objects stand in the order of their keys.
pub open spec fn sorted_by_key(v: Seq<Listed>) -> bool {
    keys_sorted(keys_of(v))
}

/// The files among `entries`, each as the object it is below the directory `dir`.
pub open spec fn files_in(dir: Seq<char>, entries: Seq<Entry>) -> Seq<Listed>
    decreases entries.len(),
{
    if entries.len() == 0 {
        Seq::empty()
    } else {
        let e = entries.last();
        let rest = files_in(dir, entries.drop_last());
        if e.kind == EntryKind::File {
            rest.push(Listed { key: resolved(dir, e.name@), size: e.size, modified: e.modified })
        } else {
            rest
        }
    }
}

/// The directories among `entries`, each as its key below the directory `dir`.
pub open spec fn dirs_in(dir: Seq<char>, entries: Seq<Entry>) -> Seq<Seq<char>>
    decreases entries.len(),
{
    if entries.len() == 0 {
        Seq::empty()
    } else {
        let e = entries.last();
        let rest = dirs_in(dir, entries.drop_last());
        if e.kind == EntryKind::Dir {
            rest.push(resolved(dir, e.name@))
        } else {
            rest
        }
    }
}

/// Whether a query's `recursive` asks for the directories below: any
/// number but 0 does, and leaving it out does not.
pub open spec fn wants_recursive(recursive: Option<u8>) -> bool {
    match recursive {
        Some(r) => r != 0,
        None => false,
    }
}

/// Whether each entry has a name that is one normal segment.
pub open spec fn well_named(entries: Seq<Entry>) -> bool {
    forall|i: int|
        0 <= i < entries.len() ==> is_normal_segment((#[trigger] entries[i]).name@)
            && !entries[i].name@.contains('/')
}

/// What a directory holds is reached by valid keys: where the directory
/// is the root of the store or has a valid key, and each entry has a name
/// of one normal segment, the key of every file and of every directory
/// that a visit takes from it is valid.
pub proof fn lemma_listed_keys_are_valid(dir: Seq<char>, entries: Seq<Entry>)
    requires
        dir.len() == 0 || valid_key(dir),
        well_named(entries),
    ensures
        forall|i: int|
            0 <= i < files_in(dir, entries).len() ==> valid_key(
                (#[trigger] files_in(dir, entries)[i]).key,
            ),
        forall|i: int|
            0 <= i < dirs_in(dir, entries).len() ==> valid_key(#[trigger] dirs_in(dir, entries)[i]),
    decreases entries.len(),
{
    if entries.len() > 0 {
        let e = entries.last();
        let rest = entries.drop_last();
        assert(well_named(rest)) by {
            assert forall|i: int| 0 <= i < rest.len() implies is_normal_segment(
                (#[trigger] rest[i]).name@,
            ) && !rest[i].name@.contains('/') by {
                assert(rest[i] == entries[i]);
            }
        }
        lemma_listed_keys_are_valid(dir, rest);
        assert(e == entries[entries.len() - 1]);
        lemma_child_key_is_valid(dir, e.name@);
        let files = files_in(dir, entries);
        assert forall|i: int| 0 <= i < files.len() implies valid_key((#[trigger] files[i]).key) by {
            if i < files_in(dir, rest).len() {
                assert(files[i] == files_in(dir, rest)[i]);
            }
        }
        let dirs = dirs_in(dir, entries);
        assert forall|i: int| 0 <= i < dirs.len() implies valid_key(#[trigger] dirs[i]) by {
            if i < dirs_in(dir, rest).len() {
                assert(dirs[i] == dirs_in(dir, rest)[i]);
            }
        }
    }
}

/// Starts a listing of the objects below `prefix`, or of the whole store
/// where there is none. A prefix that is no valid key is refused.
pub fn list_objects(prefix: Option<&str>, recursive: Option<u8>) -> (r: Result<
    Listing,
    ApiError,
>)
    ensures
        match prefix {
            Some(p) if !valid_key(p@) => r matches Err(e) && e == ApiError::InvalidArgument,
            _ => match r {
                Ok(listing) => {
                    &&& texts(listing.pending@) == seq![
                        match prefix {
                            Some(p) => p@,
                            None => Seq::<char>::empty(),
                        },
                    ]
                    &&& listing.found@.len() == 0
                    &&& listing.recursive == wants_recursive(recursive)
                },
                Err(_) => false,
            },
        },
{
    let base = match prefix {
        Some(p) => {
            if !is_valid_key(p) {
                return Err(ApiError::InvalidArgument);
            }
            p.to_owned()
        },
        None => String::new(),
    };
    let recursive = match recursive {
        Some(r) => r != 0,
        None => false,
    };
    let mut pending: Vec<String> = Vec::new();
    pending.push(base);
    Ok(Listing { pending, found: Vec::new(), recursive })
}

/// The listing of a prefix that names a file: that file alone.
pub fn list_file(key: &str, meta: &ObjectMetadata) -> (r: Vec<ListedObject>)
    ensures
        listed(r@) == seq![Listed { key: key@, size: meta.size, modified: meta.modified_secs }],
{
    let mut out: Vec<ListedObject> = Vec::new();
    out.push(ListedObject { key: key.to_owned(), size: meta.size, modified: meta.modified_secs });
    out
}

impl Listing {
    /// Takes the next directory to read off the stack; `None` where the
    /// walk is over.
    pub fn next_dir(&mut self) -> (r: Option<String>)
        ensures
            final(self).found == old(self).found,
            final(self).recursive == old(self).recursive,
            match r {
                Some(dir) => {
                    &&& old(self).pending@.len() > 0
                    &&& dir == old(self).pending@.last()
                    &&& final(self).pending@ == old(self).pending@.drop_last()
                },
                None => old(self).pending@.len() == 0 && final(self).pending@.len() == 0,
            },
    {
        self.pending.pop()
    }

    /// Takes in what the directory `dir` holds: its files join the objects
    /// found, and its directories wait to be read where the listing is
    /// recursive. Entries of another kind are passed over.
    pub fn visit(&mut self, dir: &str, entries: &Vec<Entry>)
        ensures
            final(self).recursive == old(self).recursive,
            listed(final(self).found@) == listed(old(self).found@) + files_in(dir@, entries@),
            texts(final(self).pending@) == texts(old(self).pending@) + (if old(self).recursive {
                dirs_in(dir@, entries@)
            } else {
                Seq::empty()
            }),
    {
        let ghost found0 = listed(self.found@);
        let ghost pending0 = texts(self.pending@);
        let mut i: usize = 0;
        while i < entries.len()
            invariant
                i <= entries.len(),
                self.recursive == old(self).recursive,
                listed(self.found@) == found0 + files_in(dir@, entries@.take(i as int)),
                texts(self.pending@) == pending0 + (if self.recursive {
                    dirs_in(dir@, entries@.take(i as int))
                } else {
                    Seq::empty()
                }),
            decreases entries.len() - i,
        {
            let e = &entries[i];
            assert(entries@.take(i + 1).drop_last() =~= entries@.take(i as int));
            let ghost found1 = listed(self.found@);
            let ghost pending1 = texts(self.pending@);
            match e.kind {
                EntryKind::File => {
                    let key = join_path(dir, e.name.as_str());
                    let item = ListedObject { key, size: e.size, modified: e.modified };
                    self.found.push(item);
                    assert(listed(self.found@) =~= found1.push(item@));
                },
                EntryKind::Dir => {
                    if self.recursive {
                        let key = join_path(dir, e.name.as_str());
                        self.pending.push(key);
                        assert(texts(self.pending@) =~= pending1.push(key@));
                    }
                },
                EntryKind::Other => {},
            }
            i += 1;
        }
        assert(entries@.take(entries.len() as int) =~= entries@);
    }

    /// The objects found, in the order of their keys.
    pub fn finish(self) -> (r: Vec<ListedObject>)
        ensures
            sorted_by_key(listed(r@)),
            listed(r@).to_multiset() == listed(self.found@).to_multiset(),
    {
        sort_by_key(self.found)
    }
}

/// Inserting into a sequence adds one occurrence of what is inserted.
proof fn lemma_insert_to_multiset(s: Seq<Listed>, i: int, x: Listed)
    requires
        0 <= i <= s.len(),
    ensures
        s.insert(i, x).to_multiset() == s.to_multiset().insert(x),
{
    broadcast use vstd::seq_lib::group_to_multiset_ensures;

    let t = s.insert(i, x);
    assert(t.remove(i) =~= s);
    assert(t[i] == x);
    assert(t.contains(x));
    assert(t.to_multiset().remove(x) =~= s.to_multiset());
    assert(t.to_multiset() =~= s.to_multiset().insert(x));
}

/// The objects of `items`, in the order of their keys.
#[verifier::loop_isolation(false)]
pub fn sort_by_key(items: Vec<ListedObject>) -> (r: Vec<ListedObject>)
    ensures
        sorted_by_key(listed(r@)),
        listed(r@).to_multiset() == listed(items@).to_multiset(),
{
    broadcast use vstd::seq_lib::group_to_multiset_ensures;

    let ghost all = listed(items@).to_multiset();
    let mut rest = items;
    let mut out: Vec<ListedObject> = Vec::new();
    assert(listed(out@) =~= Seq::<Listed>::empty());
    assert(listed(out@).to_multiset() =~= Multiset::<Listed>::empty());
    assert(listed(out@).to_multiset().add(listed(rest@).to_multiset()) =~= all);
    while rest.len() > 0
        invariant
            sorted_by_key(listed(out@)),
            listed(out@).to_multiset().add(listed(rest@).to_multiset()) == all,
        decreases rest.len(),
    {
        let ghost rest0 = listed(rest@);
        let ghost out0 = listed(out@);
        let x = rest.pop().unwrap();
        proof {
            assert(listed(rest@) =~= rest0.remove(rest0.len() - 1));
            assert(rest0[rest0.len() - 1] == x@);
            assert(rest0.contains(x@));
        }
        let mut i: usize = 0;
        while i < out.len() && !key_before_or_same(x.key.as_str(), out[i].key.as_str())
            invariant
                i <= out.len(),
                out0 == listed(out@),
                forall|k: int| 0 <= k < i ==> key_le(keys_of(out0)[k], x@.key),
            decreases out.len() - i,
        {
            proof {
                lemma_key_le_total(x@.key, out0[i as int].key);
            }
            i += 1;
        }
        out.insert(i, x);
        proof {
            let out1 = listed(out@);
            assert(out1 =~= out0.insert(i as int, x@));
            lemma_insert_to_multiset(out0, i as int, x@);
            lemma_insert_keeps_order(keys_of(out0), i as int, x@.key);
            assert(keys_of(out1) =~= keys_of(out0).insert(i as int, x@.key));
            assert(rest0.to_multiset() =~= listed(rest@).to_multiset().insert(x@));
            assert(out1.to_multiset().add(listed(rest@).to_multiset()) =~= all);
        }
    }
    assert(listed(rest@) =~= Seq::<Listed>::empty());
    assert(listed(out@).to_multiset() =~= all);
    out
}

} // verus!
