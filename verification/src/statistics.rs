//! The summary of a sequence of log records, computed in one pass.

use std::collections::HashMap;
use vstd::hash_map::StringHashMap;
use vstd::prelude::*;
use crate::datetime::DateTime;
use crate::log_entry::LogEntry;
use crate::log_level::LogLevel;
use crate::tally::{
    distinct,
    is_leader,
    leader,
    leads,
    lemma_distinct_members,
    lemma_distinct_no_duplicates,
    lemma_leader_occurs_most,
    lemma_occurrences_bound,
    lemma_occurrences_of_only_key,
    lemma_occurrences_push,
    lemma_tally_is_a_map,
    lemma_tally_push,
    occurrences,
    tally,
};

verus! {

broadcast use vstd::std_specs::hash::group_hash_axioms;

/// A fraction of two counts: the numerator over the denominator.
#[derive(Debug, Clone, Copy, PartialEq, Eq, Structural)]
pub struct Ratio {
    pub numerator: usize,
    pub denominator: usize,
}

/// What was found in a sequence of records.
///
/// The levels and the components are listed in the order in which they were
/// first seen, each with the number of records that have it. Where several
/// components share the greatest count, the most active one is the one seen
/// first; where several hours do, the peak hour is the smallest of them.
#[derive(Debug)]
pub struct Statistics {
    pub total_entries: usize,
    pub entries_by_level: Vec<(LogLevel, usize)>,
    pub entries_by_component: Vec<(String, usize)>,
    pub entries_by_hour: HashMap<u8, usize>,
    pub error_count: usize,
    pub error_rate: Ratio,
    pub most_active_component: Option<String>,
    pub peak_hour: Option<u8>,
    pub first_entry: Option<DateTime>,
    pub last_entry: Option<DateTime>,
}

/// The levels of the records, in order.
pub open spec fn levels(entries: Seq<LogEntry>) -> Seq<LogLevel> {
    Seq::new(entries.len(), |i: int| entries[i].level)
}

/// The components of the records, in order.
pub open spec fn components(entries: Seq<LogEntry>) -> Seq<Seq<char>> {
    Seq::new(entries.len(), |i: int| entries[i].component@)
}

/// The hours of the day of the records, in order.
pub open spec fn hours(entries: Seq<LogEntry>) -> Seq<u8> {
    Seq::new(entries.len(), |i: int| entries[i].timestamp.hour)
}

/// The timestamps of the records, in order.
pub open spec fn timestamps(entries: Seq<LogEntry>) -> Seq<DateTime> {
    Seq::new(entries.len(), |i: int| entries[i].timestamp)
}

/// What a list of counted levels holds.
pub open spec fn level_counts(v: Seq<(LogLevel, usize)>) -> Seq<(LogLevel, nat)> {
    Seq::new(v.len(), |i: int| (v[i].0, v[i].1 as nat))
}

/// What a list of counted components holds.
pub open spec fn component_counts(v: Seq<(String, usize)>) -> Seq<(Seq<char>, nat)> {
    Seq::new(v.len(), |i: int| (v[i].0@, v[i].1 as nat))
}

/// The number of records in each hour that has any. An hour without records
/// is no key of the map.
pub open spec fn hour_counts(keys: Seq<u8>) -> Map<u8, usize> {
    Map::new(|h: u8| occurrences(keys, h) > 0, |h: u8| occurrences(keys, h) as usize)
}

/// Whether `h` has the most records of all hours, and more than every
/// smaller hour.
pub open spec fn is_peak(keys: Seq<u8>, h: u8) -> bool {
    &&& occurrences(keys, h) > 0
    &&& forall|other: u8| #[trigger] occurrences(keys, other) <= occurrences(keys, h)
    &&& forall|other: u8| other < h ==> #[trigger] occurrences(keys, other) < occurrences(keys, h)
}

/// Whether `t` is one of `stamps` and none of them is earlier.
pub open spec fn is_earliest(stamps: Seq<DateTime>, t: DateTime) -> bool {
    &&& stamps.contains(t)
    &&& forall|i: int| 0 <= i < stamps.len() ==> !(#[trigger] stamps[i]).precedes(t)
}

/// Whether `t` is one of `stamps` and none of them is later.
pub open spec fn is_latest(stamps: Seq<DateTime>, t: DateTime) -> bool {
    &&& stamps.contains(t)
    &&& forall|i: int| 0 <= i < stamps.len() ==> !t.precedes(#[trigger] stamps[i])
}

/// The share of `errors` in `total`, and zero where `total` is zero.
pub open spec fn error_rate_of(errors: nat, total: nat) -> Ratio {
    if total == 0 {
        Ratio { numerator: 0, denominator: 1 }
    } else {
        Ratio { numerator: errors as usize, denominator: total as usize }
    }
}

/// Whether `index` gives, for each listed component and for nothing else, the
/// place where it is listed.
pub open spec fn places(v: Seq<(String, usize)>, index: Map<Seq<char>, usize>) -> bool {
    &&& forall|j: int|
        0 <= j < v.len() ==> index.contains_key(#[trigger] v[j].0@) && index[v[j].0@] == j
    &&& forall|name: Seq<char>| #[trigger]
        index.contains_key(name) ==> index[name] < v.len() && v[index[name] as int].0@ == name
}

/// Counts one more record of `level`.
fn count_level(counts: &mut Vec<(LogLevel, usize)>, level: LogLevel, Ghost(keys): Ghost<Seq<LogLevel>>)
    requires
        level_counts(old(counts)@) == tally(keys),
        keys.len() < usize::MAX,
    ensures
        level_counts(final(counts)@) == tally(keys.push(level)),
{
    let mut j: usize = 0;
    while j < counts.len()
        invariant
            j <= counts.len(),
            keys.len() < usize::MAX,
            level_counts(counts@) == tally(keys),
            forall|i: int| 0 <= i < j ==> (#[trigger] counts@[i]).0 != level,
        decreases counts.len() - j,
    {
        if counts[j].0 == level {
            proof {
                lemma_tally_push(keys, level);
                lemma_distinct_no_duplicates(keys);
                lemma_occurrences_bound(keys, level);
            }
            assert(level_counts(counts@)[j as int] == tally(keys)[j as int]);
            counts[j].1 = counts[j].1 + 1;
            return ;
        }
        j += 1;
    }
    proof {
        lemma_tally_push(keys, level);
        if distinct(keys).contains(level) {
            let i = choose|i: int| 0 <= i < distinct(keys).len() && distinct(keys)[i] == level;
            assert(level_counts(counts@)[i] == tally(keys)[i]);
        }
    }
    counts.push((level, 1));
}

/// Counts one more record of the component `name`.
fn count_component(
    counts: &mut Vec<(String, usize)>,
    index: &mut StringHashMap<usize>,
    name: &String,
    Ghost(keys): Ghost<Seq<Seq<char>>>,
)
    requires
        component_counts(old(counts)@) == tally(keys),
        places(old(counts)@, old(index)@),
        keys.len() < usize::MAX,
    ensures
        component_counts(final(counts)@) == tally(keys.push(name@)),
        places(final(counts)@, final(index)@),
{
    proof {
        lemma_tally_push(keys, name@);
        lemma_occurrences_bound(keys, name@);
    }
    let found = match index.get(name.as_str()) {
        Some(place) => Some(*place),
        None => None,
    };
    match found {
        Some(j) => {
            assert(component_counts(counts@)[j as int] == tally(keys)[j as int]);
            counts[j].1 = counts[j].1 + 1;
        },
        None => {
            proof {
                if distinct(keys).contains(name@) {
                    let i = choose|i: int|
                        0 <= i < distinct(keys).len() && distinct(keys)[i] == name@;
                    assert(component_counts(counts@)[i] == tally(keys)[i]);
                }
            }
            index.insert(name.clone(), counts.len());
            counts.push((name.clone(), 1));
        },
    }
}

/// Counts one more record in the hour `hour`.
fn count_hour(counts: &mut HashMap<u8, usize>, hour: u8, Ghost(keys): Ghost<Seq<u8>>)
    requires
        old(counts)@ == hour_counts(keys),
        keys.len() < usize::MAX,
    ensures
        final(counts)@ == hour_counts(keys.push(hour)),
{
    proof {
        lemma_occurrences_bound(keys, hour);
    }
    let so_far: usize = match counts.get(&hour) {
        Some(count) => *count,
        None => 0,
    };
    counts.insert(hour, so_far + 1);
    proof {
        assert forall|h: u8|
            occurrences(keys.push(hour), h) == occurrences(keys, h) + if hour == h {
                1nat
            } else {
                0nat
            } by {
            lemma_occurrences_push(keys, hour, h);
        }
    }
}

/// The hour with the greatest count, and the smallest such hour.
fn peak(counts: &HashMap<u8, usize>) -> (r: Option<u8>)
    ensures
        match r {
            None => forall|h: u8| !counts@.contains_key(h),
            Some(best) => {
                &&& counts@.contains_key(best)
                &&& forall|h: u8| #[trigger] counts@.contains_key(h) ==> counts@[h] <= counts@[best]
                &&& forall|h: u8|
                    h < best && #[trigger] counts@.contains_key(h) ==> counts@[h] < counts@[best]
            },
        },
{
    let mut best: Option<(u8, usize)> = None;
    let mut next: u16 = 0;
    while next < 256
        invariant
            next <= 256,
            match best {
                None => forall|h: u8| h < next ==> !counts@.contains_key(h),
                Some((hour, count)) => {
                    &&& hour < next
                    &&& counts@.contains_key(hour)
                    &&& counts@[hour] == count
                    &&& forall|h: u8|
                        h < next && #[trigger] counts@.contains_key(h) ==> counts@[h] <= count
                    &&& forall|h: u8|
                        h < hour && #[trigger] counts@.contains_key(h) ==> counts@[h] < count
                },
            },
        decreases 256 - next,
    {
        let hour: u8 = next as u8;
        match counts.get(&hour) {
            Some(count) => {
                let better = match best {
                    None => true,
                    Some((_, most)) => *count > most,
                };
                if better {
                    best = Some((hour, *count));
                }
            },
            None => {},
        }
        next += 1;
    }
    match best {
        Some((hour, _)) => Some(hour),
        None => None,
    }
}

impl Statistics {
    /// Whether the two lists and the hours are maps of counts: no level and
    /// no component is listed twice, every count that is held is at least
    /// one, and the error rate has a denominator.
    pub open spec fn is_well_formed(&self) -> bool {
        &&& forall|i: int, j: int|
            0 <= i < j < self.entries_by_level@.len() ==> (#[trigger] self.entries_by_level@[i]).0
                != (#[trigger] self.entries_by_level@[j]).0
        &&& forall|i: int, j: int|
            0 <= i < j < self.entries_by_component@.len()
                ==> (#[trigger] self.entries_by_component@[i]).0@
                != (#[trigger] self.entries_by_component@[j]).0@
        &&& forall|i: int|
            0 <= i < self.entries_by_level@.len() ==> (#[trigger] self.entries_by_level@[i]).1 >= 1
        &&& forall|i: int|
            0 <= i < self.entries_by_component@.len() ==> (#[trigger] self.entries_by_component@[i]).1
                >= 1
        &&& forall|h: u8| #[trigger]
            self.entries_by_hour@.contains_key(h) ==> self.entries_by_hour@[h] >= 1
        &&& self.error_rate.denominator >= 1
    }

    /// Whether the statistics are those of `entries`.
    pub open spec fn summarizes(&self, entries: Seq<LogEntry>) -> bool {
        &&& self.total_entries == entries.len()
        &&& level_counts(self.entries_by_level@) == tally(levels(entries))
        &&& component_counts(self.entries_by_component@) == tally(components(entries))
        &&& self.entries_by_hour@ == hour_counts(hours(entries))
        &&& self.error_count == occurrences(levels(entries), LogLevel::Error)
        &&& self.error_rate == error_rate_of(
            occurrences(levels(entries), LogLevel::Error),
            entries.len(),
        )
        &&& match self.most_active_component {
            None => entries.len() == 0,
            Some(name) => leads(tally(components(entries)), name@),
        }
        &&& match self.peak_hour {
            None => entries.len() == 0,
            Some(hour) => is_peak(hours(entries), hour),
        }
        &&& match self.first_entry {
            None => entries.len() == 0,
            Some(t) => is_earliest(timestamps(entries), t),
        }
        &&& match self.last_entry {
            None => entries.len() == 0,
            Some(t) => is_latest(timestamps(entries), t),
        }
    }

    /// Summarizes `entries` in one pass over them.
    pub fn from_entries(entries: &[LogEntry]) -> (stats: Statistics)
        ensures
            stats.summarizes(entries@),
            stats.is_well_formed(),
    {
        let mut entries_by_level: Vec<(LogLevel, usize)> = Vec::new();
        let mut entries_by_component: Vec<(String, usize)> = Vec::new();
        let mut index: StringHashMap<usize> = StringHashMap::new();
        let mut entries_by_hour: HashMap<u8, usize> = HashMap::new();
        let mut error_count: usize = 0;
        let mut first_entry: Option<DateTime> = None;
        let mut last_entry: Option<DateTime> = None;

        let mut i: usize = 0;
        while i < entries.len()
            invariant
                i <= entries.len(),
                level_counts(entries_by_level@) == tally(levels(entries@.take(i as int))),
                component_counts(entries_by_component@) == tally(
                    components(entries@.take(i as int)),
                ),
                places(entries_by_component@, index@),
                entries_by_hour@ == hour_counts(hours(entries@.take(i as int))),
                error_count == occurrences(levels(entries@.take(i as int)), LogLevel::Error),
                match first_entry {
                    None => i == 0,
                    Some(t) => is_earliest(timestamps(entries@.take(i as int)), t),
                },
                match last_entry {
                    None => i == 0,
                    Some(t) => is_latest(timestamps(entries@.take(i as int)), t),
                },
            decreases entries.len() - i,
        {
            let entry = &entries[i];
            let ghost seen = entries@.take(i as int);
            let ghost now = entries@.take(i + 1);
            proof {
                assert(levels(now) =~= levels(seen).push(entry.level));
                assert(components(now) =~= components(seen).push(entry.component@));
                assert(hours(now) =~= hours(seen).push(entry.timestamp.hour));
                lemma_occurrences_push(levels(seen), entry.level, LogLevel::Error);
                lemma_occurrences_bound(levels(seen), LogLevel::Error);
            }
            count_level(&mut entries_by_level, entry.level, Ghost(levels(seen)));
            count_component(
                &mut entries_by_component,
                &mut index,
                &entry.component,
                Ghost(components(seen)),
            );
            count_hour(&mut entries_by_hour, entry.timestamp.hour, Ghost(hours(seen)));
            if entry.level == LogLevel::Error {
                error_count += 1;
            }
            first_entry = Some(
                match first_entry {
                    Some(earliest) => if entry.timestamp < earliest {
                        entry.timestamp
                    } else {
                        earliest
                    },
                    None => entry.timestamp,
                },
            );
            last_entry = Some(
                match last_entry {
                    Some(latest) => if entry.timestamp > latest {
                        entry.timestamp
                    } else {
                        latest
                    },
                    None => entry.timestamp,
                },
            );
            proof {
                let stamps = timestamps(now);
                let first = first_entry->0;
                let last = last_entry->0;
                assert(stamps[i as int] == entry.timestamp);
                assert forall|h: int| 0 <= h < stamps.len() implies !(#[trigger] stamps[h]).precedes(
                    first,
                ) && !last.precedes(stamps[h]) by {
                    if h < i {
                        assert(stamps[h] == timestamps(seen)[h]);
                    }
                }
                if first != entry.timestamp {
                    let h = choose|h: int|
                        0 <= h < timestamps(seen).len() && timestamps(seen)[h] == first;
                    assert(stamps[h] == first);
                }
                if last != entry.timestamp {
                    let h = choose|h: int|
                        0 <= h < timestamps(seen).len() && timestamps(seen)[h] == last;
                    assert(stamps[h] == last);
                }
            }
            i += 1;
        }
        proof {
            assert(entries@.take(i as int) =~= entries@);
        }

        let total_entries = entries.len();
        let error_rate = if total_entries > 0 {
            Ratio { numerator: error_count, denominator: total_entries }
        } else {
            Ratio { numerator: 0, denominator: 1 }
        };
        let most_active_component = match leader(&entries_by_component) {
            Some(j) => {
                proof {
                    let t = tally(components(entries@));
                    assert(is_leader(t, j as int));
                }
                Some(entries_by_component[j].0.clone())
            },
            None => {
                None
            },
        };
        let peak_hour = peak(&entries_by_hour);
        proof {
            let keys = hours(entries@);
            match peak_hour {
                Some(best) => {
                    assert forall|other: u8| #[trigger]
                        occurrences(keys, other) <= occurrences(keys, best) by {
                        lemma_occurrences_bound(keys, other);
                        if occurrences(keys, other) > 0 {
                            assert(entries_by_hour@.contains_key(other));
                        }
                    }
                    assert forall|other: u8| other < best implies #[trigger] occurrences(
                        keys,
                        other,
                    ) < occurrences(keys, best) by {
                        if occurrences(keys, other) > 0 {
                            assert(entries_by_hour@.contains_key(other));
                        }
                    }
                },
                None => {
                    if entries@.len() > 0 {
                        lemma_distinct_members(keys, keys[0]);
                        assert(entries_by_hour@.contains_key(keys[0]));
                    }
                },
            }
        }
        let stats = Statistics {
            total_entries,
            entries_by_level,
            entries_by_component,
            entries_by_hour,
            error_count,
            error_rate,
            most_active_component,
            peak_hour,
            first_entry,
            last_entry,
        };
        proof {
            lemma_summary_is_well_formed(stats, entries@);
        }
        stats
    }
}

/// The levels of a summary are listed once each, with counts of at least
/// one.
proof fn lemma_levels_are_a_map(by_level: Seq<(LogLevel, usize)>, keys: Seq<LogLevel>)
    requires
        level_counts(by_level) == tally(keys),
    ensures
        forall|i: int, j: int|
            0 <= i < j < by_level.len() ==> (#[trigger] by_level[i]).0 != (
            #[trigger] by_level[j]).0,
        forall|i: int| 0 <= i < by_level.len() ==> (#[trigger] by_level[i]).1 >= 1,
{
    let held = level_counts(by_level);
    let t = tally(keys);
    lemma_tally_is_a_map(keys);
    assert(held.len() == by_level.len());
    assert forall|i: int, j: int| 0 <= i < j < by_level.len() implies (#[trigger] by_level[i]).0
        != (#[trigger] by_level[j]).0 by {
        assert(held[i].0 == by_level[i].0 && held[j].0 == by_level[j].0);
        assert(t[i].0 != t[j].0);
    }
    assert forall|i: int| 0 <= i < by_level.len() implies (#[trigger] by_level[i]).1 >= 1 by {
        assert(held[i].1 == by_level[i].1 as nat);
        assert(t[i].1 >= 1);
    }
}

/// The components of a summary are listed once each, with counts of at least
/// one.
proof fn lemma_components_are_a_map(by_component: Seq<(String, usize)>, keys: Seq<Seq<char>>)
    requires
        component_counts(by_component) == tally(keys),
    ensures
        forall|i: int, j: int|
            0 <= i < j < by_component.len() ==> (#[trigger] by_component[i]).0@ != (
            #[trigger] by_component[j]).0@,
        forall|i: int| 0 <= i < by_component.len() ==> (#[trigger] by_component[i]).1 >= 1,
{
    let held = component_counts(by_component);
    let t = tally(keys);
    lemma_tally_is_a_map(keys);
    assert(held.len() == by_component.len());
    assert forall|i: int, j: int| 0 <= i < j < by_component.len() implies (
    #[trigger] by_component[i]).0@ != (#[trigger] by_component[j]).0@ by {
        assert(held[i].0 == by_component[i].0@ && held[j].0 == by_component[j].0@);
        assert(t[i].0 != t[j].0);
    }
    assert forall|i: int| 0 <= i < by_component.len() implies (#[trigger] by_component[i]).1
        >= 1 by {
        assert(held[i].1 == by_component[i].1 as nat);
        assert(t[i].1 >= 1);
    }
}

/// Every hour that a summary holds has a count of at least one.
proof fn lemma_hours_are_counted(by_hour: Map<u8, usize>, keys: Seq<u8>)
    requires
        by_hour == hour_counts(keys),
        keys.len() <= usize::MAX,
    ensures
        forall|h: u8| #[trigger] by_hour.contains_key(h) ==> by_hour[h] >= 1,
{
    assert forall|h: u8| #[trigger] by_hour.contains_key(h) implies by_hour[h] >= 1 by {
        lemma_occurrences_bound(keys, h);
        assert(occurrences(keys, h) > 0);
        assert(by_hour[h] == occurrences(keys, h) as usize);
    }
}

/// A summary of records is well formed.
pub proof fn lemma_summary_is_well_formed(stats: Statistics, entries: Seq<LogEntry>)
    requires
        stats.summarizes(entries),
    ensures
        stats.is_well_formed(),
{
    lemma_levels_are_a_map(stats.entries_by_level@, levels(entries));
    lemma_components_are_a_map(stats.entries_by_component@, components(entries));
    assert(hours(entries).len() == stats.total_entries);
    lemma_hours_are_counted(stats.entries_by_hour@, hours(entries));
    assert(stats.error_rate.denominator >= 1);
}

/// The statistics of no records at all: every count is zero, the error rate
/// is zero, nothing is listed, and there is no most active component, peak
/// hour, first or last record.
pub proof fn lemma_summary_of_nothing(stats: Statistics)
    requires
        stats.summarizes(Seq::empty()),
    ensures
        stats.total_entries == 0,
        stats.error_count == 0,
        stats.error_rate == (Ratio { numerator: 0, denominator: 1 }),
        stats.entries_by_level@.len() == 0,
        stats.entries_by_component@.len() == 0,
        stats.entries_by_hour@ == Map::<u8, usize>::empty(),
        stats.most_active_component is None,
        stats.peak_hour is None,
        stats.first_entry is None,
        stats.last_entry is None,
{
    let none = Seq::<LogEntry>::empty();
    assert(level_counts(stats.entries_by_level@).len() == tally(levels(none)).len());
}

/// Where every record is an error, the error count is the number of records,
/// and the error rate is one: its numerator equals its denominator.
pub proof fn lemma_all_errors(stats: Statistics, entries: Seq<LogEntry>)
    requires
        stats.summarizes(entries),
        entries.len() > 0,
        forall|i: int| 0 <= i < entries.len() ==> entries[i].level == LogLevel::Error,
    ensures
        stats.error_count == entries.len(),
        stats.error_rate.numerator == stats.error_rate.denominator,
{
    lemma_occurrences_of_only_key(levels(entries), LogLevel::Error);
}

/// The first and the last record of a summary are the earliest and the
/// latest timestamp, whatever the order of the records: two sequences that
/// hold the same timestamps, each as often as the other, have the same first
/// and the same last record.
pub proof fn lemma_span_ignores_order(
    one: Statistics,
    other: Statistics,
    a: Seq<LogEntry>,
    b: Seq<LogEntry>,
)
    requires
        one.summarizes(a),
        other.summarizes(b),
        timestamps(a).to_multiset() == timestamps(b).to_multiset(),
    ensures
        one.first_entry == other.first_entry,
        one.last_entry == other.last_entry,
{
    let ta = timestamps(a);
    let tb = timestamps(b);
    ta.to_multiset_ensures();
    tb.to_multiset_ensures();
    if a.len() > 0 {
        let first_a = one.first_entry->0;
        let first_b = other.first_entry->0;
        let last_a = one.last_entry->0;
        let last_b = other.last_entry->0;
        assert(ta.to_multiset().count(first_a) > 0 && tb.to_multiset().count(first_b) > 0);
        assert(ta.to_multiset().count(last_a) > 0 && tb.to_multiset().count(last_b) > 0);
    }
}

/// The most active component of a summary is a component of some record, and
/// no component has more records.
pub proof fn lemma_most_active_occurs_most(
    stats: Statistics,
    entries: Seq<LogEntry>,
    other: Seq<char>,
)
    requires
        stats.summarizes(entries),
        stats.most_active_component is Some,
    ensures
        components(entries).contains(stats.most_active_component->0@),
        occurrences(components(entries), other) <= occurrences(
            components(entries),
            stats.most_active_component->0@,
        ),
{
    lemma_leader_occurs_most(components(entries), stats.most_active_component->0@, other);
}

} // verus!
