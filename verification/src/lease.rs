//! Leases: what an acquisition attempt hands back.

use vstd::prelude::*;
use crate::metadata::{MetadataName, MetadataValue};
use crate::time::Duration;

verus! {

/// One piece of metadata on a lease.
#[derive(Debug)]
pub struct MetadataEntry {
    pub name: String,
    pub value: MetadataValue,
}

/// What releasing a lease does.
#[derive(Debug)]
pub enum LeaseCleanup {
    /// Hands this many permits back to the limiter that granted them.
    ReturnPermits(u32),
    /// Releases the leases of a chain's members, the last one first.
    Leases(Vec<RateLimitLease>),
}

/// The outcome of one acquisition attempt.
///
/// A lease says whether the permits were acquired, carries metadata by name,
/// and may hold a cleanup that the granting limiter carries out when the
/// lease is released. The cleanup leaves the lease when it is taken, so it is
/// carried out at most once.
#[derive(Debug)]
pub struct RateLimitLease {
    is_acquired: bool,
    metadata: Vec<MetadataEntry>,
    on_drop: Option<LeaseCleanup>,
}

/// The map that a list of entries stands for: a later entry replaces an
/// earlier one of the same name.
pub open spec fn metadata_of(entries: Seq<MetadataEntry>) -> Map<Seq<char>, MetadataValue>
    decreases entries.len(),
{
    if entries.len() == 0 {
        Map::empty()
    } else {
        metadata_of(entries.drop_last()).insert(entries.last().name@, entries.last().value)
    }
}

/// A name is in the map exactly if some entry has it, and its value is that
/// of the last such entry.
pub proof fn lemma_metadata_of(entries: Seq<MetadataEntry>, name: Seq<char>)
    ensures
        metadata_of(entries).dom().contains(name) <==> exists|i: int|
            0 <= i < entries.len() && entries[i].name@ == name,
        forall|i: int|
            0 <= i < entries.len() && entries[i].name@ == name && (forall|j: int|
                i < j < entries.len() ==> entries[j].name@ != name) ==> metadata_of(entries)[name]
                == entries[i].value,
    decreases entries.len(),
{
    if entries.len() > 0 {
        let front = entries.drop_last();
        lemma_metadata_of(front, name);
        if entries.last().name@ == name {
            assert(entries[entries.len() - 1].name@ == name);
        } else {
            assert forall|i: int| 0 <= i < entries.len() && entries[i].name@ == name implies 0 <= i
                < front.len() && front[i].name@ == name by {}
            assert forall|i: int|
                0 <= i < entries.len() && entries[i].name@ == name && (forall|j: int|
                    i < j < entries.len() ==> entries[j].name@ != name) implies metadata_of(
                entries,
            )[name] == entries[i].value by {
                assert(front[i].name@ == name);
                assert forall|j: int| i < j < front.len() implies front[j].name@ != name by {
                    assert(entries[j].name@ != name);
                }
            }
        }
    }
}

impl RateLimitLease {
    /// Whether the permits were acquired.
    pub closed spec fn acquired(&self) -> bool {
        self.is_acquired
    }

    /// The metadata, by name.
    pub closed spec fn metadata(&self) -> Map<Seq<char>, MetadataValue> {
        metadata_of(self.metadata@)
    }

    /// The cleanup that is still to be carried out, if any.
    pub closed spec fn cleanup(&self) -> Option<LeaseCleanup> {
        self.on_drop
    }

    /// An acquired lease without metadata whose cleanup is `cleanup`.
    pub open spec fn is_success_with(&self, cleanup: Option<LeaseCleanup>) -> bool {
        &&& self.acquired()
        &&& self.metadata() == Map::<Seq<char>, MetadataValue>::empty()
        &&& self.cleanup() == cleanup
    }

    /// A lease that was not acquired, without cleanup, whose only metadata is
    /// the retry hint, if there is one.
    pub open spec fn is_failure_with(&self, retry_after: Option<Duration>) -> bool {
        &&& !self.acquired()
        &&& self.cleanup() is None
        &&& self.metadata() == retry_metadata(retry_after)
    }

    /// A lease for permits that were acquired and are not handed back.
    pub fn success() -> (lease: RateLimitLease)
        ensures
            lease.is_success_with(None),
    {
        RateLimitLease { is_acquired: true, metadata: Vec::new(), on_drop: None }
    }

    /// A lease for permits that were acquired, with the cleanup to carry out
    /// when it is released.
    pub fn success_with_cleanup(cleanup: LeaseCleanup) -> (lease: RateLimitLease)
        ensures
            lease.is_success_with(Some(cleanup)),
    {
        RateLimitLease { is_acquired: true, metadata: Vec::new(), on_drop: Some(cleanup) }
    }

    /// A lease for a request that was turned down, with the retry hint if
    /// there is one.
    pub fn failed(retry_after: Option<Duration>) -> (lease: RateLimitLease)
        ensures
            lease.is_failure_with(retry_after),
    {
        let mut metadata: Vec<MetadataEntry> = Vec::new();
        if let Some(duration) = retry_after {
            let ghost before = metadata@;
            metadata.push(
                MetadataEntry {
                    name: MetadataName::RETRY_AFTER.to_owned(),
                    value: MetadataValue::Duration(duration),
                },
            );
            assert(metadata@.drop_last() == before);
            assert(metadata_of(before) == Map::<Seq<char>, MetadataValue>::empty());
        }
        assert(metadata_of(metadata@) == retry_metadata(retry_after));
        RateLimitLease { is_acquired: false, metadata, on_drop: None }
    }

    pub fn is_acquired(&self) -> (b: bool)
        ensures
            b == self.acquired(),
    {
        self.is_acquired
    }

    /// The value stored under `name`, if there is one.
    pub fn try_get_metadata(&self, name: &str) -> (value: Option<MetadataValue>)
        ensures
            value == (if self.metadata().dom().contains(name@) {
                Some(self.metadata()[name@])
            } else {
                None
            }),
    {
        let key = name.to_owned();
        let mut i = self.metadata.len();
        while i > 0
            invariant
                i <= self.metadata.len(),
                key@ == name@,
                forall|j: int| i <= j < self.metadata.len() ==> self.metadata@[j].name@ != name@,
            decreases i,
        {
            i -= 1;
            if self.metadata[i].name == key {
                proof {
                    lemma_metadata_of(self.metadata@, name@);
                }
                return Some(self.metadata[i].value);
            }
        }
        proof {
            lemma_metadata_of(self.metadata@, name@);
        }
        None
    }

    /// The retry hint, where the lease carries one.
    pub fn retry_after(&self) -> (hint: Option<Duration>)
        ensures
            hint == (if self.metadata().dom().contains(MetadataName::RETRY_AFTER@) {
                match self.metadata()[MetadataName::RETRY_AFTER@] {
                    MetadataValue::Duration(d) => Some(d),
                    _ => None,
                }
            } else {
                None
            }),
    {
        match self.try_get_metadata(MetadataName::RETRY_AFTER) {
            Some(value) => value.as_duration(),
            None => None,
        }
    }

    /// The names under which the lease carries metadata, each once.
    pub fn metadata_names(&self) -> (names: Vec<String>)
        ensures
            forall|name: Seq<char>|
                self.metadata().dom().contains(name) <==> is_listed(names@, name),
            forall|i: int, j: int| 0 <= i < j < names.len() ==> names[i]@ != names[j]@,
    {
        let mut names: Vec<String> = Vec::new();
        let mut i: usize = 0;
        while i < self.metadata.len()
            invariant
                i <= self.metadata.len(),
                forall|name: Seq<char>|
                    #[trigger] is_named(self.metadata@, i as int, name) <==> is_listed(
                        names@,
                        name,
                    ),
                forall|a: int, b: int| 0 <= a < b < names.len() ==> names[a]@ != names[b]@,
            decreases self.metadata.len() - i,
        {
            let mut known = false;
            let mut j: usize = 0;
            while j < names.len()
                invariant
                    j <= names.len(),
                    i < self.metadata.len(),
                    known <==> exists|k: int|
                        0 <= k < j && names[k]@ == self.metadata@[i as int].name@,
                decreases names.len() - j,
            {
                if names[j] == self.metadata[i].name {
                    known = true;
                }
                j += 1;
            }
            let ghost before = names@;
            let ghost current = self.metadata@[i as int].name@;
            if !known {
                names.push(self.metadata[i].name.clone());
            }
            proof {
                assert forall|name: Seq<char>|
                    #[trigger] is_named(self.metadata@, i + 1, name) <==> is_listed(
                        names@,
                        name,
                    ) by {
                    assert(is_named(self.metadata@, i as int, name) <==> is_listed(before, name));
                    if is_named(self.metadata@, i + 1, name) {
                        let k = choose|k: int|
                            0 <= k < i + 1 && k < self.metadata@.len() && self.metadata@[k].name@ == name;
                        if k < i {
                            assert(is_named(self.metadata@, i as int, name));
                            let m = choose|m: int| 0 <= m < before.len() && before[m]@ == name;
                            assert(names[m]@ == name);
                        } else if known {
                            let m = choose|m: int| 0 <= m < before.len() && before[m]@ == current;
                            assert(names[m]@ == name);
                        } else {
                            assert(names[names.len() - 1]@ == name);
                        }
                    }
                    if is_listed(names@, name) {
                        let k = choose|k: int| 0 <= k < names.len() && names[k]@ == name;
                        if k < before.len() {
                            assert(before[k]@ == name);
                            assert(is_listed(before, name));
                            let m = choose|m: int|
                                0 <= m < i && m < self.metadata@.len() && self.metadata@[m].name@ == name;
                            assert(0 <= m < i + 1 && m < self.metadata@.len() && self.metadata@[m].name@ == name);
                        } else {
                            assert(self.metadata@[i as int].name@ == name);
                        }
                    }
                }
            }
            i += 1;
        }
        proof {
            assert forall|name: Seq<char>|
                self.metadata().dom().contains(name) <==> is_listed(names@, name) by {
                lemma_metadata_of(self.metadata@, name);
                assert(is_named(self.metadata@, i as int, name) <==> is_listed(names@, name));
            }
        }
        names
    }

    /// The lease with `value` stored under `name`, in place of any value that
    /// was there.
    pub fn with_metadata(self, name: &str, value: MetadataValue) -> (lease: RateLimitLease)
        ensures
            lease.acquired() == self.acquired(),
            lease.cleanup() == self.cleanup(),
            lease.metadata() == self.metadata().insert(name@, value),
    {
        let mut lease = self;
        let ghost before = lease.metadata@;
        lease.metadata.push(MetadataEntry { name: name.to_owned(), value });
        assert(lease.metadata@.drop_last() == before);
        lease
    }

    /// Takes the cleanup out of the lease. A second call finds none.
    pub fn take_cleanup(&mut self) -> (cleanup: Option<LeaseCleanup>)
        ensures
            cleanup == old(self).cleanup(),
            final(self).cleanup() is None,
            final(self).acquired() == old(self).acquired(),
            final(self).metadata() == old(self).metadata(),
    {
        self.on_drop.take()
    }
}

/// Whether one of the first `upto` entries has the name.
pub open spec fn is_named(entries: Seq<MetadataEntry>, upto: int, name: Seq<char>) -> bool {
    exists|k: int| 0 <= k < upto && k < entries.len() && entries[k].name@ == name
}

/// Whether the name is in the list.
pub open spec fn is_listed(names: Seq<String>, name: Seq<char>) -> bool {
    exists|k: int| 0 <= k < names.len() && names[k]@ == name
}

/// The metadata of a lease that was turned down with the given retry hint.
pub open spec fn retry_metadata(retry_after: Option<Duration>) -> Map<Seq<char>, MetadataValue> {
    match retry_after {
        Some(duration) => Map::<Seq<char>, MetadataValue>::empty().insert(
            MetadataName::RETRY_AFTER@,
            MetadataValue::Duration(duration),
        ),
        None => Map::empty(),
    }
}

} // verus!
