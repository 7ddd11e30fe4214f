//! The record of which files were downloaded, and with which checksum.

use vstd::prelude::*;

use crate::unpacker::bundle::read::string_is;

verus! {

/// The map that a list of distinct (file, checksum) entries stands for.
pub open spec fn entries_map(entries: Seq<(Seq<char>, Seq<char>)>) -> Map<Seq<char>, Seq<char>>
    decreases entries.len(),
{
    if entries.len() == 0 {
        Map::empty()
    } else {
        entries_map(entries.drop_last()).insert(entries.last().0, entries.last().1)
    }
}

/// No file occurs twice among `entries`.
pub open spec fn distinct_keys(entries: Seq<(Seq<char>, Seq<char>)>) -> bool {
    forall|i: int, j: int| 0 <= i < j < entries.len() ==> #[trigger] entries[i].0 != #[trigger] entries[j].0
}

/// Whether `completed` records `file` with the checksum `md5`.
pub open spec fn up_to_date(completed: Map<Seq<char>, Seq<char>>, file: Seq<char>, md5: Seq<char>) -> bool {
    completed.contains_key(file) && completed[file] == md5
}

/// Recording a download makes that file up to date with exactly its
/// checksum, and leaves what is known of every other file as it was.
pub proof fn recorded_file_is_up_to_date(
    completed: Map<Seq<char>, Seq<char>>,
    file: Seq<char>,
    md5: Seq<char>,
    other: Seq<char>,
    other_md5: Seq<char>,
)
    ensures
        up_to_date(completed.insert(file, md5), file, md5),
        other_md5 != md5 ==> !up_to_date(completed.insert(file, md5), file, other_md5),
        other != file ==> up_to_date(completed.insert(file, md5), other, other_md5)
            == up_to_date(completed, other, other_md5),
{
}

/// The entries as text.
pub open spec fn entry_views(entries: Seq<(String, String)>) -> Seq<(Seq<char>, Seq<char>)> {
    entries.map_values(|e: (String, String)| (e.0@, e.1@))
}

proof fn lemma_entries_lookup(entries: Seq<(Seq<char>, Seq<char>)>, i: int)
    requires
        distinct_keys(entries),
        0 <= i < entries.len(),
    ensures
        entries_map(entries).contains_key(entries[i].0),
        entries_map(entries)[entries[i].0] == entries[i].1,
    decreases entries.len(),
{
    if i < entries.len() - 1 {
        let rest = entries.drop_last();
        assert(rest[i] == entries[i]);
        assert(distinct_keys(rest)) by {
            assert forall|a: int, b: int| 0 <= a < b < rest.len() implies #[trigger] rest[a].0 != #[trigger] rest[b].0 by {
                assert(rest[a] == entries[a] && rest[b] == entries[b]);
            }
        }
        lemma_entries_lookup(rest, i);
        assert(entries[i].0 != entries[entries.len() - 1].0);
    }
}

proof fn lemma_entries_absent(entries: Seq<(Seq<char>, Seq<char>)>, key: Seq<char>)
    requires
        forall|i: int| 0 <= i < entries.len() ==> #[trigger] entries[i].0 != key,
    ensures
        !entries_map(entries).contains_key(key),
    decreases entries.len(),
{
    if entries.len() > 0 {
        let rest = entries.drop_last();
        assert forall|i: int| 0 <= i < rest.len() implies #[trigger] rest[i].0 != key by {
            assert(rest[i] == entries[i]);
        }
        lemma_entries_absent(rest, key);
        assert(entries[entries.len() - 1].0 != key);
    }
}

proof fn lemma_entries_update(entries: Seq<(Seq<char>, Seq<char>)>, i: int, value: Seq<char>)
    requires
        distinct_keys(entries),
        0 <= i < entries.len(),
    ensures
        entries_map(entries.update(i, (entries[i].0, value))) == entries_map(entries).insert(entries[i].0, value),
    decreases entries.len(),
{
    let key = entries[i].0;
    let updated = entries.update(i, (key, value));
    let rest = entries.drop_last();
    if i == entries.len() - 1 {
        assert(updated.drop_last() =~= rest);
        assert(entries_map(updated) =~= entries_map(entries).insert(key, value));
    } else {
        assert(distinct_keys(rest)) by {
            assert forall|a: int, b: int| 0 <= a < b < rest.len() implies #[trigger] rest[a].0 != #[trigger] rest[b].0 by {
                assert(rest[a] == entries[a] && rest[b] == entries[b]);
            }
        }
        assert(rest[i] == entries[i]);
        lemma_entries_update(rest, i, value);
        assert(updated.drop_last() =~= rest.update(i, (key, value)));
        let last = entries[entries.len() - 1];
        assert(updated.last() == last);
        assert(last.0 != key);
        assert(entries_map(updated) =~= entries_map(entries).insert(key, value));
    }
}

/// The files downloaded so far and the checksum of each, kept with the
/// path of the file that stores the record. The record is a list of entries
/// in which no file occurs twice, viewed as a map: vstd specifies `HashMap`
/// only for key types that have its key model, and `String` has none.
#[derive(Debug)]
pub struct ProgressTracker {
    progress_file: String,
    completed: Vec<(String, String)>,
}

impl ProgressTracker {
    #[verifier::type_invariant]
    spec fn keys_distinct(self) -> bool {
        distinct_keys(entry_views(self.completed@))
    }

    /// The path of the file that stores the record.
    pub closed spec fn spec_progress_file(self) -> Seq<char> {
        self.progress_file@
    }

    /// The checksum recorded for each downloaded file.
    pub closed spec fn spec_completed(self) -> Map<Seq<char>, Seq<char>> {
        entries_map(entry_views(self.completed@))
    }

    /// An empty record, stored at `progress_file`.
    pub fn new(progress_file: String) -> (t: Self)
        ensures
            t.spec_progress_file() == progress_file@,
            t.spec_completed() == Map::<Seq<char>, Seq<char>>::empty(),
    {
        let t = ProgressTracker { progress_file, completed: Vec::new() };
        proof {
            assert(entry_views(t.completed@) =~= Seq::<(Seq<char>, Seq<char>)>::empty());
        }
        t
    }

    /// The path of the file that stores the record.
    pub fn progress_file(&self) -> (p: &String)
        ensures
            p@ == self.spec_progress_file(),
    {
        &self.progress_file
    }

    /// The entries of the record, each file once.
    pub fn entries(&self) -> (e: &Vec<(String, String)>)
        ensures
            distinct_keys(entry_views(e@)),
            entries_map(entry_views(e@)) == self.spec_completed(),
    {
        proof {
            use_type_invariant(self);
        }
        &self.completed
    }

    /// The position of `file_name` among the entries.
    fn position_of(&self, file_name: &str) -> (r: Option<usize>)
        ensures
            match r {
                Some(i) => i < self.completed@.len() && self.completed@[i as int].0@ == file_name@,
                None => forall|i: int| 0 <= i < self.completed@.len() ==> #[trigger] self.completed@[i].0@ != file_name@,
            },
    {
        let mut k: usize = 0;
        while k < self.completed.len()
            invariant
                k <= self.completed@.len(),
                forall|i: int| 0 <= i < k ==> #[trigger] self.completed@[i].0@ != file_name@,
            decreases self.completed@.len() - k,
        {
            if string_is(&self.completed[k].0, file_name) {
                return Some(k);
            }
            k = k + 1;
        }
        None
    }

    /// Whether `file_name` was downloaded with the checksum `md5`.
    pub fn is_up_to_date(&self, file_name: &str, md5: &str) -> (b: bool)
        ensures
            b == up_to_date(self.spec_completed(), file_name@, md5@),
    {
        proof {
            use_type_invariant(self);
        }
        let ghost views = entry_views(self.completed@);
        match self.position_of(file_name) {
            Some(i) => {
                proof {
                    assert(views[i as int] == (self.completed@[i as int].0@, self.completed@[i as int].1@));
                    lemma_entries_lookup(views, i as int);
                }
                string_is(&self.completed[i].1, md5)
            },
            None => {
                proof {
                    assert forall|i: int| 0 <= i < views.len() implies #[trigger] views[i].0 != file_name@ by {
                        assert(views[i].0 == self.completed@[i].0@);
                    }
                    lemma_entries_absent(views, file_name@);
                }
                false
            },
        }
    }

    /// Records that `file_name` was downloaded with the checksum `md5`,
    /// in place of what was recorded for it before.
    pub fn mark_completed(&mut self, file_name: String, md5: String)
        ensures
            final(self).spec_progress_file() == old(self).spec_progress_file(),
            final(self).spec_completed() == old(self).spec_completed().insert(file_name@, md5@),
    {
        proof {
            use_type_invariant(&*self);
        }
        let ghost views = entry_views(self.completed@);
        let ghost before = self.completed@;
        let ghost key = file_name@;
        let ghost value = md5@;
        let found = self.position_of(file_name.as_str());
        let mut entries: Vec<(String, String)> = Vec::new();
        std::mem::swap(&mut entries, &mut self.completed);
        match found {
            Some(i) => {
                proof {
                    assert(views[i as int].0 == key);
                    lemma_entries_update(views, i as int, value);
                }
                entries.set(i, (file_name, md5));
                proof {
                    assert(entry_views(entries@) =~= views.update(i as int, (key, value)));
                    assert forall|a: int, b: int| 0 <= a < b < entry_views(entries@).len()
                        implies #[trigger] entry_views(entries@)[a].0 != #[trigger] entry_views(entries@)[b].0 by {
                        assert(views[a].0 == before[a].0@);
                        assert(views[b].0 == before[b].0@);
                    }
                }
            },
            None => {
                entries.push((file_name, md5));
                proof {
                    assert(entry_views(entries@) =~= views.push((key, value)));
                    assert(entry_views(entries@).drop_last() =~= views);
                    assert forall|a: int, b: int| 0 <= a < b < entry_views(entries@).len()
                        implies #[trigger] entry_views(entries@)[a].0 != #[trigger] entry_views(entries@)[b].0 by {
                        assert(entry_views(entries@)[a] == views[a]);
                        assert(views[a].0 == before[a].0@);
                        if b < views.len() {
                            assert(entry_views(entries@)[b] == views[b]);
                        }
                    }
                }
            },
        }
        self.completed = entries;
    }
}

} // verus!
