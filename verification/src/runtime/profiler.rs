//! Real-time profiler for performance monitoring

use vstd::prelude::*;

verus! {

/// What the profiler has seen of one name.
#[derive(Clone, Copy, Debug, PartialEq, Eq)]
pub struct ProfileSample {
    pub total_ns: u64,
    pub count: u64,
    pub min_ns: u64,
    pub max_ns: u64,
}

impl ProfileSample {
    /// The sample of a name of which nothing has been recorded yet.
    pub open spec fn fresh() -> ProfileSample {
        ProfileSample { total_ns: 0, count: 0, min_ns: u64::MAX, max_ns: 0 }
    }

    /// The sample with one more measurement of `ns` nanoseconds. Total and
    /// count stay at the largest number once they reach it.
    pub open spec fn with(self, ns: u64) -> ProfileSample {
        ProfileSample {
            total_ns: if self.total_ns + ns > u64::MAX {
                u64::MAX
            } else {
                (self.total_ns + ns) as u64
            },
            count: if self.count + 1 > u64::MAX {
                u64::MAX
            } else {
                (self.count + 1) as u64
            },
            min_ns: if ns < self.min_ns {
                ns
            } else {
                self.min_ns
            },
            max_ns: if ns > self.max_ns {
                ns
            } else {
                self.max_ns
            },
        }
    }

    /// The mean of the measurements in nanoseconds, rounded down; zero
    /// where there is none.
    pub fn avg_ns(&self) -> (r: u64)
        ensures
            r == (if self.count > 0 {
                self.total_ns / self.count
            } else {
                0
            }),
    {
        if self.count > 0 {
            self.total_ns / self.count
        } else {
            0
        }
    }
}

impl Default for ProfileSample {
    fn default() -> (r: ProfileSample)
        ensures
            r == (ProfileSample { total_ns: 0, count: 0, min_ns: 0, max_ns: 0 }),
    {
        ProfileSample { total_ns: 0, count: 0, min_ns: 0, max_ns: 0 }
    }
}

/// A name with what has been recorded under it.
pub struct ProfileEntry {
    pub name: String,
    pub sample: ProfileSample,
}

/// The first place in `entries` that carries `name`, or the number of
/// entries.
pub open spec fn place_of(entries: Seq<ProfileEntry>, name: Seq<char>) -> int
    decreases entries.len(),
{
    if entries.len() == 0 || entries[0].name@ == name {
        0
    } else {
        1 + place_of(entries.skip(1), name)
    }
}

/// A place that carries `name`, or nothing, and has only other names
/// before it is the first place of `name`.
proof fn lemma_place_of(entries: Seq<ProfileEntry>, name: Seq<char>, i: int)
    requires
        0 <= i <= entries.len(),
        forall|j: int| 0 <= j < i ==> entries[j].name@ != name,
        i < entries.len() ==> entries[i].name@ == name,
    ensures
        place_of(entries, name) == i,
    decreases i,
{
    if i > 0 {
        let rest = entries.skip(1);
        assert forall|j: int| 0 <= j < i - 1 implies rest[j].name@ != name by {
            assert(rest[j] == entries[j + 1]);
        }
        if i < entries.len() {
            assert(rest[i - 1] == entries[i]);
        }
        lemma_place_of(rest, name, i - 1);
    }
}

/// The first place of a name lies within the list, carries the name if it
/// is an entry, and has only other names before it.
proof fn lemma_place_of_bounds(entries: Seq<ProfileEntry>, name: Seq<char>)
    ensures
        0 <= place_of(entries, name) <= entries.len(),
        place_of(entries, name) < entries.len() ==> entries[place_of(entries, name)].name@ == name,
        forall|j: int| 0 <= j < place_of(entries, name) ==> entries[j].name@ != name,
    decreases entries.len(),
{
    if entries.len() > 0 && entries[0].name@ != name {
        let rest = entries.skip(1);
        lemma_place_of_bounds(rest, name);
        if place_of(entries, name) < entries.len() {
            assert(rest[place_of(rest, name)] == entries[place_of(entries, name)]);
        }
        assert forall|j: int| 0 <= j < place_of(entries, name) implies entries[j].name@
            != name by {
            if j > 0 {
                assert(rest[j - 1] == entries[j]);
            }
        }
    }
}

/// What is recorded under `name` in `entries`, if anything.
pub open spec fn sample_of(entries: Seq<ProfileEntry>, name: Seq<char>) -> Option<ProfileSample> {
    if place_of(entries, name) < entries.len() {
        Some(entries[place_of(entries, name)].sample)
    } else {
        None
    }
}

/// Performance profiler
pub struct Profiler {
    entries: Vec<ProfileEntry>,
}

impl Profiler {
    /// What is recorded under `name`, if anything.
    pub closed spec fn sample(&self, name: Seq<char>) -> Option<ProfileSample> {
        sample_of(self.entries@, name)
    }

    pub fn new() -> (r: Self)
        ensures
            forall|name: Seq<char>| r.sample(name) is None,
    {
        Profiler { entries: Vec::new() }
    }

    /// The place of the entry that carries `name`, or the number of
    /// entries.
    fn find(&self, name: &String) -> (i: usize)
        ensures
            i == place_of(self.entries@, name@),
            i <= self.entries@.len(),
    {
        let n: usize = self.entries.len();
        let mut i: usize = 0;
        while i < n && !(self.entries[i].name == *name)
            invariant
                i <= n,
                n == self.entries@.len(),
                forall|j: int| 0 <= j < i ==> self.entries@[j].name@ != name@,
            decreases n - i,
        {
            i += 1;
        }
        proof {
            lemma_place_of(self.entries@, name@, i as int);
        }
        i
    }

    /// Record a sample
    pub fn record(&mut self, name: &'static str, ns: u64)
        ensures
            final(self).sample(name@) == Some(
                (match old(self).sample(name@) {
                    Some(sample) => sample,
                    None => ProfileSample::fresh(),
                }).with(ns),
            ),
            forall|other: Seq<char>|
                other != name@ ==> #[trigger] final(self).sample(other) == old(self).sample(other),
    {
        let key: String = name.to_owned();
        let i: usize = self.find(&key);
        let before: ProfileSample = if i < self.entries.len() {
            self.entries[i].sample
        } else {
            ProfileSample { total_ns: 0, count: 0, min_ns: u64::MAX, max_ns: 0 }
        };
        let sample: ProfileSample = ProfileSample {
            total_ns: before.total_ns.saturating_add(ns),
            count: before.count.saturating_add(1),
            min_ns: if ns < before.min_ns { ns } else { before.min_ns },
            max_ns: if ns > before.max_ns { ns } else { before.max_ns },
        };
        if i < self.entries.len() {
            self.entries[i].sample = sample;
        } else {
            self.entries.push(ProfileEntry { name: key, sample });
        }
        proof {
            let old_entries = old(self).entries@;
            let new_entries = self.entries@;
            lemma_place_of_bounds(old_entries, name@);
            assert forall|j: int| 0 <= j < i implies new_entries[j].name@ != name@ by {
                assert(new_entries[j].name@ == old_entries[j].name@);
            }
            lemma_place_of(new_entries, name@, i as int);
            assert forall|other: Seq<char>| other != name@ implies #[trigger] self.sample(other)
                == old(self).sample(other) by {
                lemma_place_of_bounds(old_entries, other);
                let p = place_of(old_entries, other);
                assert forall|j: int| 0 <= j < p implies new_entries[j].name@ != other by {
                    assert(new_entries[j].name@ == old_entries[j].name@);
                }
                if p < old_entries.len() {
                    assert(new_entries[p].name@ == old_entries[p].name@);
                    lemma_place_of(new_entries, other, p);
                } else {
                    assert forall|j: int| 0 <= j < new_entries.len() implies new_entries[j].name@
                        != other by {
                        if j < old_entries.len() {
                            assert(new_entries[j].name@ == old_entries[j].name@);
                        }
                    }
                    lemma_place_of(new_entries, other, new_entries.len() as int);
                }
            }
        }
    }

    /// Get sample by name
    pub fn get(&self, name: &str) -> (r: Option<&ProfileSample>)
        ensures
            match r {
                Some(sample) => self.sample(name@) == Some(*sample),
                None => self.sample(name@) is None,
            },
    {
        let key: String = name.to_owned();
        let i: usize = self.find(&key);
        if i < self.entries.len() {
            Some(&self.entries[i].sample)
        } else {
            None
        }
    }

    /// Reset all samples
    pub fn reset(&mut self)
        ensures
            forall|name: Seq<char>| final(self).sample(name) is None,
    {
        self.entries.clear();
    }

    /// The names under which something is recorded, in the order in which
    /// they first came, each with its sample.
    pub closed spec fn listing(&self) -> Seq<ProfileEntry> {
        self.entries@
    }

    /// The names under which something is recorded, in the order in which
    /// they first came, each with its sample: what `get` finds under a
    /// name is what the first entry of that name holds.
    pub fn entries(&self) -> (r: &[ProfileEntry])
        ensures
            r@ == self.listing(),
            forall|name: Seq<char>| #[trigger] self.sample(name) == sample_of(r@, name),
            forall|i: int| 0 <= i < r@.len() ==> self.sample(r@[i].name@) is Some,
    {
        proof {
            assert forall|i: int| 0 <= i < self.entries@.len() implies self.sample(
                self.entries@[i].name@,
            ) is Some by {
                lemma_place_of_bounds(self.entries@, self.entries@[i].name@);
            }
        }
        self.entries.as_slice()
    }
}

impl Default for Profiler {
    fn default() -> (r: Profiler)
        ensures
            forall|name: Seq<char>| r.sample(name) is None,
    {
        Profiler::new()
    }
}

} // verus!
