//! The launch history: how often and when each application was launched.

use vstd::prelude::*;
use vstd::string::*;

verus! {

/// What the history says of one application.
#[derive(Clone, Copy, Debug, PartialEq, Eq, Structural)]
pub struct RecentEntry {
    /// How often it was launched.
    pub count: u64,
    /// When it was last launched, in seconds since 1970.
    pub last_epoch: u64,
}

/// The launch history. Every application has at most one entry.
#[derive(Debug)]
pub struct RecentFile {
    pub entries: Vec<(String, RecentEntry)>,
}

/// What is noted of each application, as a map from their names; a later entry
/// counts before an earlier one.
pub open spec fn history<V>(entries: Seq<(String, V)>) -> Map<Seq<char>, V>
    decreases entries.len(),
{
    if entries.len() == 0 {
        Map::empty()
    } else {
        history(entries.drop_last()).insert(entries.last().0@, entries.last().1)
    }
}

/// No name has two entries.
pub open spec fn distinct_names<V>(entries: Seq<(String, V)>) -> bool {
    forall|i: int, j: int|
        0 <= i < j < entries.len() ==> (#[trigger] entries[i]).0@ != (#[trigger] entries[j]).0@
}

impl View for RecentFile {
    type V = Map<Seq<char>, RecentEntry>;

    open spec fn view(&self) -> Map<Seq<char>, RecentEntry> {
        history(self.entries@)
    }
}

/// A name is in the history just where an entry has it.
pub proof fn lemma_history_names<V>(entries: Seq<(String, V)>, name: Seq<char>)
    ensures
        history(entries).contains_key(name) <==> exists|i: int|
            0 <= i < entries.len() && (#[trigger] entries[i]).0@ == name,
    decreases entries.len(),
{
    if entries.len() > 0 {
        let shorter = entries.drop_last();
        lemma_history_names(shorter, name);
        if entries.last().0@ == name {
            assert(entries[entries.len() - 1].0@ == name);
        }
        if exists|i: int| 0 <= i < shorter.len() && (#[trigger] shorter[i]).0@ == name {
            let i = choose|i: int| 0 <= i < shorter.len() && (#[trigger] shorter[i]).0@ == name;
            assert(entries[i].0@ == name);
        }
        if exists|i: int| 0 <= i < entries.len() && (#[trigger] entries[i]).0@ == name {
            let i = choose|i: int| 0 <= i < entries.len() && (#[trigger] entries[i]).0@ == name;
            if i < shorter.len() {
                assert(shorter[i].0@ == name);
            }
        }
    }
}

/// Where names are distinct, the history holds each entry.
pub proof fn lemma_history_entry<V>(entries: Seq<(String, V)>, i: int)
    requires
        distinct_names(entries),
        0 <= i < entries.len(),
    ensures
        history(entries).contains_key(entries[i].0@),
        history(entries)[entries[i].0@] == entries[i].1,
    decreases entries.len(),
{
    let shorter = entries.drop_last();
    if i < shorter.len() {
        lemma_history_entry(shorter, i);
        assert(entries[i].0@ != entries[entries.len() - 1].0@);
    }
}

/// Changing one entry of distinct names changes the history at its name.
proof fn lemma_history_update<V>(entries: Seq<(String, V)>, i: int, e: V)
    requires
        distinct_names(entries),
        0 <= i < entries.len(),
    ensures
        distinct_names(entries.update(i, (entries[i].0, e))),
        history(entries.update(i, (entries[i].0, e))) == history(entries).insert(
            entries[i].0@,
            e,
        ),
    decreases entries.len(),
{
    let changed = entries.update(i, (entries[i].0, e));
    let shorter = entries.drop_last();
    assert(distinct_names(changed)) by {
        assert forall|j: int, k: int| 0 <= j < k < changed.len() implies (#[trigger] changed[j]).0@
            != (#[trigger] changed[k]).0@ by {
            assert(entries[j].0@ != entries[k].0@);
        }
    }
    if i == entries.len() - 1 {
        assert(changed.drop_last() == shorter);
        assert(history(changed) == history(entries).insert(entries[i].0@, e));
    } else {
        lemma_history_update(shorter, i, e);
        assert(changed.drop_last() == shorter.update(i, (shorter[i].0, e)));
        assert(entries[i].0@ != entries[entries.len() - 1].0@);
        assert(history(changed) == history(entries).insert(entries[i].0@, e));
    }
}

fn position<V>(entries: &Vec<(String, V)>, name: &String) -> (r: Option<usize>)
    requires
        distinct_names(entries@),
    ensures
        r matches Some(i) ==> i < entries.len() && entries[i as int].0@ == name@ && history(
            entries@,
        ).contains_key(name@) && history(entries@)[name@] == entries[i as int].1,
        r is None ==> !history(entries@).contains_key(name@),
{
    let mut i: usize = 0;
    while i < entries.len()
        invariant
            i <= entries.len(),
            distinct_names(entries@),
            forall|j: int| 0 <= j < i ==> (#[trigger] entries[j]).0@ != name@,
        decreases entries.len() - i,
    {
        if entries[i].0 == *name {
            proof {
                lemma_history_entry(entries@, i as int);
            }
            return Some(i);
        }
        i += 1;
    }
    proof {
        lemma_history_names(entries@, name@);
    }
    None
}

/// What is noted of the application `name`.
pub fn get_noted<V: Copy>(entries: &Vec<(String, V)>, name: &String) -> (r: Option<V>)
    requires
        distinct_names(entries@),
    ensures
        r == (if history(entries@).contains_key(name@) {
            Some(history(entries@)[name@])
        } else {
            None
        }),
{
    match position(entries, name) {
        Some(i) => Some(entries[i].1),
        None => None,
    }
}

/// Replaces what is noted of the application `name`.
pub fn put_noted<V>(entries: &mut Vec<(String, V)>, name: String, value: V)
    requires
        distinct_names(old(entries)@),
    ensures
        distinct_names(final(entries)@),
        history(final(entries)@) == history(old(entries)@).insert(name@, value),
{
    let found = position(entries, &name);
    match found {
        Some(i) => {
            proof {
                lemma_history_update(entries@, i as int, value);
            }
            entries[i].1 = value;
        },
        None => {
            let ghost before = entries@;
            proof {
                lemma_history_names(before, name@);
            }
            entries.push((name, value));
            assert(entries@.drop_last() == before);
        },
    }
}

impl RecentFile {
    /// Every application has at most one entry.
    pub open spec fn wf(&self) -> bool {
        distinct_names(self.entries@)
    }

    /// What the history says of the application `name`.
    pub fn get(&self, name: &String) -> (r: Option<RecentEntry>)
        requires
            self.wf(),
        ensures
            r == (if self@.contains_key(name@) {
                Some(self@[name@])
            } else {
                None
            }),
    {
        get_noted(&self.entries, name)
    }

    /// Replaces what the history says of the application `name`.
    pub fn put(&mut self, name: String, entry: RecentEntry)
        requires
            old(self).wf(),
        ensures
            final(self).wf(),
            final(self)@ == old(self)@.insert(name@, entry),
    {
        put_noted(&mut self.entries, name, entry);
    }

    /// The entries as a history; of two entries with one name the later counts.
    pub fn from_entries(entries: Vec<(String, RecentEntry)>) -> (r: RecentFile)
        ensures
            r.wf(),
            r@ == history(entries@),
    {
        let mut r = RecentFile { entries: Vec::new() };
        let mut i: usize = 0;
        while i < entries.len()
            invariant
                i <= entries.len(),
                r.wf(),
                r@ == history(entries@.take(i as int)),
            decreases entries.len() - i,
        {
            r.put(entries[i].0.clone(), entries[i].1);
            assert(entries@.take(i + 1).drop_last() == entries@.take(i as int));
            i += 1;
        }
        assert(entries@.take(i as int) == entries@);
        r
    }

    /// What the history says of `name` after one more launch.
    pub open spec fn after_launch(&self, name: Seq<char>, epoch: u64) -> RecentEntry {
        RecentEntry {
            count: if self@.contains_key(name) {
                (self@[name].count + 1) as u64
            } else {
                1
            },
            last_epoch: epoch,
        }
    }

    /// The launches of `name` can still be counted.
    pub open spec fn can_count(&self, name: Seq<char>) -> bool {
        self@.contains_key(name) ==> self@[name].count < u64::MAX
    }

    /// Notes a launch of the application `name` at time `epoch`.
    pub fn record(&mut self, name: &String, epoch: u64)
        requires
            old(self).wf(),
            old(self).can_count(name@),
        ensures
            final(self).wf(),
            final(self)@ == old(self)@.insert(name@, old(self).after_launch(name@, epoch)),
    {
        let count: u64 = match self.get(name) {
            Some(e) => e.count + 1,
            None => 1,
        };
        self.put(name.clone(), RecentEntry { count, last_epoch: epoch });
    }
}

impl Default for RecentFile {
    /// The empty history.
    fn default() -> (r: RecentFile)
        ensures
            r.wf(),
            r@ == Map::<Seq<char>, RecentEntry>::empty(),
    {
        RecentFile { entries: Vec::new() }
    }
}

/// The history at the start: what the file held, or nothing where it could not
/// be read.
pub fn load_recent(saved: Option<Vec<(String, RecentEntry)>>) -> (r: RecentFile)
    ensures
        r.wf(),
        r@ == (match saved {
            Some(entries) => history(entries@),
            None => Map::empty(),
        }),
{
    match saved {
        Some(entries) => RecentFile::from_entries(entries),
        None => RecentFile::default(),
    }
}

} // verus!
