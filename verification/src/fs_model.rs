//! An in-memory model of the filesystem namespace the runner works against:
//! a finite map from absolute path text to file metadata. The runner's
//! collision policies are stated and proved over this model; performing the
//! same probes and renames against a real disk is a caller's interpreter
//! loop around the verified per-job logic.

use vstd::prelude::*;

use crate::text::str_eq;

verus! {

/// A file's last-modified instant: seconds and nanoseconds since the epoch.
#[derive(Clone, Copy, Debug, PartialEq, Eq, Structural)]
pub struct FileTime {
    pub secs: i64,
    pub nanos: u32,
}

/// The map a list of (path, metadata) entries denotes; a later entry for the
/// same path would shadow an earlier one, but well-formed models hold each
/// path once.
pub open spec fn entries_map(es: Seq<(String, FileTime)>) -> Map<Seq<char>, FileTime>
    decreases es.len(),
{
    if es.len() == 0 {
        Map::empty()
    } else {
        entries_map(es.drop_last()).insert(es.last().0@, es.last().1)
    }
}

/// A path is in the map exactly when some entry carries it.
pub proof fn lemma_entries_contains(es: Seq<(String, FileTime)>, p: Seq<char>)
    ensures
        entries_map(es).contains_key(p) <==> exists|j: int|
            0 <= j < es.len() && (#[trigger] es[j]).0@ == p,
    decreases es.len(),
{
    if es.len() > 0 {
        lemma_entries_contains(es.drop_last(), p);
        if es.last().0@ == p {
            assert((es[es.len() - 1]).0@ == p);
        } else if entries_map(es).contains_key(p) {
            let j = choose|j: int|
                0 <= j < es.drop_last().len() && (#[trigger] es.drop_last()[j]).0@ == p;
            assert((es[j]).0@ == p);
        } else {
            assert(forall|j: int|
                0 <= j < es.len() - 1 ==> (#[trigger] es[j]) == es.drop_last()[j]);
        }
    }
}

/// No two entries carry the same path.
pub open spec fn entries_unique(es: Seq<(String, FileTime)>) -> bool {
    forall|i: int, j: int| 0 <= i < j < es.len() ==> (#[trigger] es[i]).0@ != (#[trigger] es[j]).0@
}

/// In a well-formed model the entry carrying a path gives its map value.
pub proof fn lemma_entries_value(es: Seq<(String, FileTime)>, j: int)
    requires
        entries_unique(es),
        0 <= j < es.len(),
    ensures
        entries_map(es).contains_key(es[j].0@),
        entries_map(es)[es[j].0@] == es[j].1,
    decreases es.len(),
{
    if j == es.len() - 1 {
    } else {
        assert(forall|k: int| 0 <= k < es.len() - 1 ==> (#[trigger] es[k]) == es.drop_last()[k]);
        lemma_entries_value(es.drop_last(), j);
        assert(es.last().0@ != es[j].0@);
    }
}

/// Removing the entry at `j` removes exactly its path from the map.
pub proof fn lemma_entries_remove(es: Seq<(String, FileTime)>, j: int)
    requires
        entries_unique(es),
        0 <= j < es.len(),
    ensures
        entries_map(es.remove(j)) == entries_map(es).remove(es[j].0@),
    decreases es.len(),
{
    lemma_entries_contains(es.drop_last(), es[j].0@);
    if j == es.len() - 1 {
        assert(es.remove(j) =~= es.drop_last());
        assert(!entries_map(es.drop_last()).contains_key(es[j].0@));
        assert(entries_map(es.drop_last()).insert(es.last().0@, es.last().1).remove(es[j].0@)
            =~= entries_map(es.drop_last()));
    } else {
        assert(forall|k: int| 0 <= k < es.len() - 1 ==> (#[trigger] es[k]) == es.drop_last()[k]);
        lemma_entries_remove(es.drop_last(), j);
        assert(es.remove(j).drop_last() =~= es.drop_last().remove(j));
        assert(es.remove(j).last() == es.last());
        assert(es.last().0@ != es[j].0@);
        assert(entries_map(es.drop_last()).remove(es[j].0@).insert(es.last().0@, es.last().1)
            =~= entries_map(es.drop_last()).insert(es.last().0@, es.last().1).remove(es[j].0@));
    }
}

/// Removing an entry keeps paths unique, and no surviving entry carries the
/// removed entry's path.
pub proof fn lemma_unique_remove(es: Seq<(String, FileTime)>, j: int)
    requires
        entries_unique(es),
        0 <= j < es.len(),
    ensures
        entries_unique(es.remove(j)),
        forall|k: int| 0 <= k < es.remove(j).len() ==> (#[trigger] es.remove(j)[k]).0@ != es[j].0@,
{
    es.remove_ensures(j);
    assert forall|a: int, b: int|
        0 <= a < b < es.remove(j).len() implies (#[trigger] es.remove(j)[a]).0@ != (
    #[trigger] es.remove(j)[b]).0@ by {
        if a < j {
            assert(es.remove(j)[a] == es[a]);
        } else {
            assert(es.remove(j)[a] == es[a + 1]);
        }
        if b < j {
            assert(es.remove(j)[b] == es[b]);
        } else {
            assert(es.remove(j)[b] == es[b + 1]);
        }
    }
    assert forall|k: int|
        0 <= k < es.remove(j).len() implies (#[trigger] es.remove(j)[k]).0@ != es[j].0@ by {
        if k < j {
            assert(es.remove(j)[k] == es[k]);
        } else {
            assert(es.remove(j)[k] == es[k + 1]);
        }
    }
}

/// The modelled filesystem: which paths exist and their metadata. Its view
/// is a finite map from path text to metadata.
pub struct FsModel {
    entries: Vec<(String, FileTime)>,
}

impl View for FsModel {
    type V = Map<Seq<char>, FileTime>;

    closed spec fn view(&self) -> Map<Seq<char>, FileTime> {
        entries_map(self.entries@)
    }
}

impl FsModel {
    /// Well-formed: each path appears at most once.
    pub closed spec fn wf(&self) -> bool {
        entries_unique(self.entries@)
    }

    /// An empty filesystem.
    pub fn new() -> (r: Self)
        ensures
            r@ == Map::<Seq<char>, FileTime>::empty(),
            r.wf(),
    {
        FsModel { entries: Vec::new() }
    }

    /// The index of the entry carrying `p`, if any.
    fn find(&self, p: &str) -> (r: Option<usize>)
        ensures
            r is Some <==> self@.contains_key(p@),
            r matches Some(j) ==> 0 <= j < self.entries@.len() && self.entries@[j as int].0@ == p@,
    {
        let mut j: usize = 0;
        while j < self.entries.len()
            invariant
                j <= self.entries@.len(),
                forall|k: int| 0 <= k < j ==> (#[trigger] self.entries@[k]).0@ != p@,
            decreases self.entries@.len() - j,
        {
            if str_eq(self.entries[j].0.as_str(), p) {
                proof {
                    lemma_entries_contains(self.entries@, p@);
                }
                return Some(j);
            }
            j = j + 1;
        }
        proof {
            lemma_entries_contains(self.entries@, p@);
        }
        None
    }

    /// Whether a file exists at `p`: the collision probe.
    pub fn probe(&self, p: &str) -> (r: bool)
        ensures
            r == self@.contains_key(p@),
    {
        self.find(p).is_some()
    }

    /// The metadata of the file at `p`, if it exists.
    pub fn mtime_of(&self, p: &str) -> (r: Option<FileTime>)
        requires
            self.wf(),
        ensures
            r is Some <==> self@.contains_key(p@),
            r matches Some(t) ==> self@[p@] == t,
    {
        match self.find(p) {
            Some(j) => {
                proof {
                    lemma_entries_value(self.entries@, j as int);
                }
                Some(self.entries[j].1)
            },
            None => None,
        }
    }

    /// Create or replace the file at `p` with metadata `t`.
    pub fn create(&mut self, p: &str, t: FileTime)
        requires
            old(self).wf(),
        ensures
            final(self)@ == old(self)@.insert(p@, t),
            final(self).wf(),
    {
        let ghost pre = self.entries@;
        match self.find(p) {
            Some(j) => {
                proof {
                    lemma_entries_remove(pre, j as int);
                    lemma_unique_remove(pre, j as int);
                }
                let _ = self.entries.remove(j);
            },
            None => {
                proof {
                    lemma_entries_contains(pre, p@);
                }
            },
        }
        let ghost mid = self.entries@;
        proof {
            assert(forall|k: int| 0 <= k < mid.len() ==> (#[trigger] mid[k]).0@ != p@);
        }
        self.entries.push((p.to_owned(), t));
        proof {
            assert(self.entries@.drop_last() =~= mid);
            assert(self@ =~= old(self)@.insert(p@, t));
            assert forall|a: int, b: int|
                0 <= a < b < self.entries@.len() implies (#[trigger] self.entries@[a]).0@ != (
            #[trigger] self.entries@[b]).0@ by {
                if b < self.entries@.len() - 1 {
                    assert(mid[a].0@ != mid[b].0@);
                } else {
                    assert(mid[a].0@ != p@);
                }
            }
        }
    }

    /// Move the file at `from` to `to`, replacing whatever stood at `to`.
    /// Fails, changing nothing, exactly when `from` does not exist.
    pub fn rename(&mut self, from: &str, to: &str) -> (r: Result<(), ()>)
        requires
            old(self).wf(),
        ensures
            final(self).wf(),
            old(self)@.contains_key(from@) ==> r is Ok && final(self)@ == old(self)@.remove(
                from@,
            ).insert(to@, old(self)@[from@]),
            !old(self)@.contains_key(from@) ==> r is Err && final(self)@ == old(self)@,
    {
        let ghost pre = self.entries@;
        let i = match self.find(from) {
            Some(i) => i,
            None => {
                return Err(());
            },
        };
        proof {
            lemma_entries_value(pre, i as int);
            lemma_entries_remove(pre, i as int);
            lemma_unique_remove(pre, i as int);
        }
        let t = self.entries[i].1;
        let _ = self.entries.remove(i);
        self.create(to, t);
        Ok(())
    }

    /// How many files exist.
    pub fn len(&self) -> (r: usize)
        requires
            self.wf(),
        ensures
            r == self@.dom().len(),
    {
        proof {
            lemma_entries_len(self.entries@);
        }
        self.entries.len()
    }
}

impl FsModel {
    /// A well-formed model holds finitely many files, no more than a vector
    /// can index.
    pub proof fn lemma_dom_finite(&self)
        requires
            self.wf(),
        ensures
            self@.dom().finite(),
            self@.dom().len() <= usize::MAX,
    {
        lemma_entries_len(self.entries@);
        vstd::std_specs::vec::axiom_spec_len(&self.entries);
    }
}

/// A well-formed entry list has as many entries as its map has keys.
pub proof fn lemma_entries_len(es: Seq<(String, FileTime)>)
    requires
        entries_unique(es),
    ensures
        entries_map(es).dom().len() == es.len(),
        entries_map(es).dom().finite(),
    decreases es.len(),
{
    if es.len() > 0 {
        assert(forall|k: int| 0 <= k < es.len() - 1 ==> (#[trigger] es[k]) == es.drop_last()[k]);
        lemma_entries_len(es.drop_last());
        lemma_entries_contains(es.drop_last(), es.last().0@);
        assert(!entries_map(es.drop_last()).contains_key(es.last().0@));
    }
}

} // verus!
