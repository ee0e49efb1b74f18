use vstd::prelude::*;

use crate::clock::now_micros;
use crate::ranking::{is_top, top_positions};
use crate::record::PRD;

verus! {

/// How many times `k` occurs in `keys`.
pub open spec fn occurrences(keys: Seq<Seq<char>>, k: Seq<char>) -> nat
    decreases keys.len(),
{
    if keys.len() == 0 {
        0
    } else {
        occurrences(keys.drop_last(), k) + if keys.last() == k {
            1nat
        } else {
            0nat
        }
    }
}

/// `counts` lists each key that occurs in `keys` once, with the number of
/// its occurrences, and no other key.
pub open spec fn tally_of(counts: Seq<(String, usize)>, keys: Seq<Seq<char>>) -> bool {
    &&& counts.map_values(|e: (String, usize)| e.0@).no_duplicates()
    &&& forall|i: int|
        0 <= i < counts.len() ==> (#[trigger] counts[i]).1 == occurrences(keys, counts[i].0@)
            && counts[i].1 > 0
    &&& forall|k: Seq<char>|
        #[trigger] occurrences(keys, k) > 0 ==> exists|i: int|
            0 <= i < counts.len() && (#[trigger] counts[i]).0@ == k
}

/// The status names of the records, in order.
pub open spec fn status_names(records: Seq<PRD>) -> Seq<Seq<char>> {
    records.map_values(|p: PRD| p.status.display_spec())
}

/// The priority names of the records, in order.
pub open spec fn priority_names(records: Seq<PRD>) -> Seq<Seq<char>> {
    records.map_values(|p: PRD| p.priority.display_spec())
}

/// The authors of the records, in order.
pub open spec fn author_names(records: Seq<PRD>) -> Seq<Seq<char>> {
    records.map_values(|p: PRD| p.author@)
}

/// The tags of all records, record after record.
pub open spec fn tag_stream(records: Seq<PRD>) -> Seq<Seq<char>>
    decreases records.len(),
{
    if records.len() == 0 {
        Seq::empty()
    } else {
        tag_stream(records.drop_last()) + records.last().tags_view()
    }
}

/// The sum of the completion percentages of the records.
pub open spec fn completion_total(records: Seq<PRD>) -> nat
    decreases records.len(),
{
    if records.len() == 0 {
        0
    } else {
        completion_total(records.drop_last()) + records.last().completion_percentage as nat
    }
}

/// Statistics over a collection of records.
///
/// The mean completion is `completion_sum / total_prds`, and 0 where there
/// are no records; `last_updated` is the time of computation in
/// microseconds since the Unix epoch.
#[derive(Debug)]
pub struct Analytics {
    pub total_prds: usize,
    pub status_counts: Vec<(String, usize)>,
    pub priority_counts: Vec<(String, usize)>,
    pub top_authors: Vec<(String, usize)>,
    pub tag_frequency: Vec<(String, usize)>,
    pub completion_sum: u128,
    pub last_updated: i64,
}

impl Analytics {
    /// The statistics are those of `records`.
    pub open spec fn describes(self, records: Seq<PRD>) -> bool {
        &&& self.total_prds == records.len()
        &&& tally_of(self.status_counts@, status_names(records))
        &&& tally_of(self.priority_counts@, priority_names(records))
        &&& tally_of(self.top_authors@, author_names(records))
        &&& tally_of(self.tag_frequency@, tag_stream(records))
        &&& self.completion_sum == completion_total(records)
    }

    /// Statistics of no records, computed now.
    pub fn new() -> (r: Analytics)
        ensures
            r.describes(Seq::empty()),
    {
        let now = now_micros();
        Analytics::new_at(now)
    }

    /// Statistics of no records, stamped with `now`.
    pub fn new_at(now: i64) -> (r: Analytics)
        ensures
            r.describes(Seq::empty()),
            r.last_updated == now,
    {
        Analytics {
            total_prds: 0,
            status_counts: Vec::new(),
            priority_counts: Vec::new(),
            top_authors: Vec::new(),
            tag_frequency: Vec::new(),
            completion_sum: 0,
            last_updated: now,
        }
    }

    /// Computes the statistics of `records` now, in one pass.
    pub fn from_records(records: &[PRD]) -> (r: Analytics)
        requires
            forall|i: int| 0 <= i < records@.len() ==> (#[trigger] records@[i]).wf(),
        ensures
            r.describes(records@),
    {
        let now = now_micros();
        Analytics::from_records_at(records, now)
    }

    /// Computes the statistics of `records` in one pass, stamped with `now`.
    pub fn from_records_at(records: &[PRD], now: i64) -> (r: Analytics)
        requires
            forall|i: int| 0 <= i < records@.len() ==> (#[trigger] records@[i]).wf(),
        ensures
            r.describes(records@),
            r.last_updated == now,
    {
        let mut a = Analytics::new_at(now);
        let mut i: usize = 0;
        while i < records.len()
            invariant
                i <= records@.len(),
                forall|j: int| 0 <= j < records@.len() ==> (#[trigger] records@[j]).wf(),
                a.describes(records@.subrange(0, i as int)),
                a.completion_sum <= 100 * i,
                forall|k: Seq<char>|
                    #[trigger] occurrences(tag_stream(records@.subrange(0, i as int)), k) <= i,
            decreases records@.len() - i,
        {
            let p = &records[i];
            let ghost prev = records@.subrange(0, i as int);
            let ghost next = records@.subrange(0, i + 1);
            proof {
                assert(next.drop_last() =~= prev);
                assert(status_names(next) =~= status_names(prev).push(p.status.display_spec()));
                assert(priority_names(next) =~= priority_names(prev).push(p.priority.display_spec()));
                assert(author_names(next) =~= author_names(prev).push(p.author@));
                assert(tag_stream(next) == tag_stream(prev) + p.tags_view());
                lemma_occurrences_len(status_names(prev), p.status.display_spec());
                lemma_occurrences_len(priority_names(prev), p.priority.display_spec());
                lemma_occurrences_len(author_names(prev), p.author@);
            }
            let status_name = p.status.display_name();
            bump(&mut a.status_counts, &status_name, Ghost(status_names(prev)));
            let priority_name = p.priority.display_name();
            bump(&mut a.priority_counts, &priority_name, Ghost(priority_names(prev)));
            bump(&mut a.top_authors, &p.author, Ghost(author_names(prev)));
            let mut t: usize = 0;
            while t < p.tags.len()
                invariant
                    t <= p.tags@.len(),
                    p == records@[i as int],
                    p.wf(),
                    i < records@.len(),
                    prev == records@.subrange(0, i as int),
                    next == records@.subrange(0, i + 1),
                    records@.len() <= usize::MAX,
                    a.total_prds == i,
                    a.completion_sum == completion_total(prev),
                    a.completion_sum <= 100 * i,
                    tally_of(a.status_counts@, status_names(next)),
                    tally_of(a.priority_counts@, priority_names(next)),
                    tally_of(a.top_authors@, author_names(next)),
                    tally_of(a.tag_frequency@, tag_stream(prev) + p.tags_view().subrange(0, t as int)),
                    forall|k: Seq<char>| #[trigger] occurrences(tag_stream(prev), k) <= i,
                decreases p.tags@.len() - t,
            {
                let ghost done = p.tags_view().subrange(0, t as int);
                proof {
                    let tag = p.tags_view()[t as int];
                    assert(p.tags@[t as int]@ == tag);
                    lemma_occurrences_concat(tag_stream(prev), done, tag);
                    assert(!done.contains(tag)) by {
                        if done.contains(tag) {
                            let j = choose|j: int| 0 <= j < done.len() && done[j] == tag;
                            assert(p.tags_view()[j] == p.tags_view()[t as int]);
                        }
                    }
                    assert(done.no_duplicates()) by {
                        assert forall|x: int, y: int| 0 <= x < done.len() && 0 <= y < done.len() && x != y
                            implies done[x] != done[y] by {
                            assert(done[x] == p.tags_view()[x] && done[y] == p.tags_view()[y]);
                        }
                    }
                    lemma_occurrences_unique(done, tag);
                    assert(tag_stream(prev) + p.tags_view().subrange(0, t + 1) =~= (tag_stream(prev)
                        + done).push(tag));
                }
                bump(&mut a.tag_frequency, &p.tags[t], Ghost(tag_stream(prev) + done));
                t = t + 1;
            }
            proof {
                assert(p.tags_view().subrange(0, p.tags@.len() as int) =~= p.tags_view());
                assert(completion_total(next) == completion_total(prev) + p.completion_percentage as nat);
                assert forall|k: Seq<char>| #[trigger] occurrences(tag_stream(next), k) <= i + 1 by {
                    lemma_occurrences_concat(tag_stream(prev), p.tags_view(), k);
                    lemma_occurrences_unique(p.tags_view(), k);
                }
            }
            a.completion_sum = a.completion_sum + p.completion_percentage as u128;
            a.total_prds = a.total_prds + 1;
            i = i + 1;
        }
        assert(records@.subrange(0, i as int) =~= records@);
        a.last_updated = now;
        a
    }
}

/// The counts as ranking keys.
pub open spec fn count_keys(counts: Seq<(String, usize)>) -> Seq<i128> {
    counts.map_values(|e: (String, usize)| e.1 as i128)
}

/// Positions of the `k` largest counts, largest first.
pub fn top_counts(counts: &Vec<(String, usize)>, k: usize) -> (r: Vec<usize>)
    ensures
        is_top(count_keys(counts@), k as nat, r@),
{
    let mut keys: Vec<i128> = Vec::new();
    let mut i: usize = 0;
    while i < counts.len()
        invariant
            i <= counts@.len(),
            keys@ == count_keys(counts@).subrange(0, i as int),
        decreases counts@.len() - i,
    {
        keys.push(counts[i].1 as i128);
        proof {
            assert(keys@ =~= count_keys(counts@).subrange(0, i + 1));
        }
        i = i + 1;
    }
    assert(keys@ =~= count_keys(counts@));
    top_positions(keys.as_slice(), k)
}

/// A key occurs no more often than the stream is long.
proof fn lemma_occurrences_len(keys: Seq<Seq<char>>, k: Seq<char>)
    ensures
        occurrences(keys, k) <= keys.len(),
    decreases keys.len(),
{
    if keys.len() > 0 {
        lemma_occurrences_len(keys.drop_last(), k);
    }
}

/// Occurrences in two streams joined add up.
proof fn lemma_occurrences_concat(a: Seq<Seq<char>>, b: Seq<Seq<char>>, k: Seq<char>)
    ensures
        occurrences(a + b, k) == occurrences(a, k) + occurrences(b, k),
    decreases b.len(),
{
    if b.len() > 0 {
        assert((a + b).drop_last() =~= a + b.drop_last());
        lemma_occurrences_concat(a, b.drop_last(), k);
    } else {
        assert(a + b =~= a);
    }
}

/// Adding a key to a stream adds one occurrence of it and none of another.
proof fn lemma_occurrences_push(keys: Seq<Seq<char>>, x: Seq<char>, k: Seq<char>)
    ensures
        occurrences(keys.push(x), k) == occurrences(keys, k) + if x == k {
            1nat
        } else {
            0nat
        },
{
    assert(keys.push(x).drop_last() =~= keys);
}

/// A key occurs at most once in a stream without repetitions.
proof fn lemma_occurrences_unique(keys: Seq<Seq<char>>, k: Seq<char>)
    requires
        keys.no_duplicates(),
    ensures
        occurrences(keys, k) <= 1,
        occurrences(keys, k) == 1 <==> keys.contains(k),
    decreases keys.len(),
{
    if keys.len() > 0 {
        let front = keys.drop_last();
        assert(front.no_duplicates());
        lemma_occurrences_unique(front, k);
        if keys.last() == k {
            assert(!front.contains(k)) by {
                if front.contains(k) {
                    let j = choose|j: int| 0 <= j < front.len() && front[j] == k;
                    assert(keys[j] == keys[keys.len() - 1]);
                }
            }
        }
        assert(keys.contains(k) <==> front.contains(k) || keys.last() == k) by {
            if keys.contains(k) {
                let j = choose|j: int| 0 <= j < keys.len() && keys[j] == k;
                if j < keys.len() - 1 {
                    assert(front[j] == k);
                }
            }
            if front.contains(k) {
                let j = choose|j: int| 0 <= j < front.len() && front[j] == k;
                assert(keys[j] == k);
            }
        }
    }
}

/// Counts one more occurrence of `key`.
fn bump(counts: &mut Vec<(String, usize)>, key: &String, keys: Ghost<Seq<Seq<char>>>)
    requires
        tally_of(old(counts)@, keys@),
        occurrences(keys@, key@) < usize::MAX,
    ensures
        tally_of(final(counts)@, keys@.push(key@)),
{
    let mut i: usize = 0;
    while i < counts.len()
        invariant
            i <= counts@.len(),
            counts@ == old(counts)@,
            tally_of(counts@, keys@),
            occurrences(keys@, key@) < usize::MAX,
            forall|j: int| 0 <= j < i ==> (#[trigger] counts@[j]).0@ != key@,
        decreases counts@.len() - i,
    {
        if counts[i].0 == *key {
            assert(counts@[i as int].1 == occurrences(keys@, key@));
            let c = counts[i].1;
            let name = counts[i].0.clone();
            let ghost before = counts@;
            counts.set(i, (name, c + 1));
            proof {
                assert forall|j: int| 0 <= j < counts@.len() implies (#[trigger] counts@[j]).1
                    == occurrences(keys@.push(key@), counts@[j].0@) && counts@[j].1 > 0 by {
                    lemma_occurrences_push(keys@, key@, counts@[j].0@);
                    if j != i {
                        assert(counts@[j] == before[j]);
                        let names = before.map_values(|e: (String, usize)| e.0@);
                        assert(names[j] != names[i as int]);
                    }
                }
                assert(counts@.map_values(|e: (String, usize)| e.0@) =~= before.map_values(
                    |e: (String, usize)| e.0@,
                ));
                assert forall|k: Seq<char>| #[trigger] occurrences(keys@.push(key@), k) > 0 implies exists|j: int|
                    0 <= j < counts@.len() && (#[trigger] counts@[j]).0@ == k by {
                    lemma_occurrences_push(keys@, key@, k);
                    if k == key@ {
                        assert(counts@[i as int].0@ == k);
                    } else {
                        assert(occurrences(keys@, k) > 0);
                        let j = choose|j: int| 0 <= j < before.len() && (#[trigger] before[j]).0@ == k;
                        assert(counts@[j].0@ == k);
                    }
                }
            }
            return;
        }
        i = i + 1;
    }
    let ghost before = counts@;
    proof {
        if occurrences(keys@, key@) > 0 {
            let j = choose|j: int| 0 <= j < before.len() && (#[trigger] before[j]).0@ == key@;
            assert(false);
        }
    }
    counts.push((key.clone(), 1));
    proof {
        let names = counts@.map_values(|e: (String, usize)| e.0@);
        let prev = before.map_values(|e: (String, usize)| e.0@);
        assert(names =~= prev.push(key@));
        assert forall|j: int| 0 <= j < counts@.len() implies (#[trigger] counts@[j]).1
            == occurrences(keys@.push(key@), counts@[j].0@) && counts@[j].1 > 0 by {
            lemma_occurrences_push(keys@, key@, counts@[j].0@);
            if j < before.len() {
                assert(counts@[j] == before[j]);
                assert(names[j] != key@);
            }
        }
        assert forall|a: int, b: int| 0 <= a < names.len() && 0 <= b < names.len() && a != b implies names[a] != names[b] by {
            if a < prev.len() && b < prev.len() {
                assert(names[a] == prev[a] && names[b] == prev[b]);
            }
        }
        assert forall|k: Seq<char>| #[trigger] occurrences(keys@.push(key@), k) > 0 implies exists|j: int|
            0 <= j < counts@.len() && (#[trigger] counts@[j]).0@ == k by {
            lemma_occurrences_push(keys@, key@, k);
            if k == key@ {
                assert(counts@[before.len() as int].0@ == k);
            } else {
                assert(occurrences(keys@, k) > 0);
                let j = choose|j: int| 0 <= j < before.len() && (#[trigger] before[j]).0@ == k;
                assert(counts@[j].0@ == k);
            }
        }
    }
}

} // verus!
