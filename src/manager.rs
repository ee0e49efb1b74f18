use vstd::prelude::*;

use std::collections::HashMap;

use crate::analytics::{completion_total, Analytics};
use crate::export::{export_records, export_text};
use crate::clock::{now_micros, rfc3339_of};
use crate::ident::{parse_uuid, random_uuid, v4_marks};
use crate::labels::{PRDStatus, Priority};
use crate::ranking::{is_top, top_positions};
use crate::record::{is_identifier_for, normalized_tag, search_match, stamped, PRD};
use crate::text::{lower_of, lowercase};

verus! {

broadcast use vstd::std_specs::hash::group_hash_axioms;

/// A collection of records in creation order, with an index from each
/// record's UUID value to its position.
pub struct PRDManager {
    prds: Vec<PRD>,
    prd_index: HashMap<u128, usize>,
    analytics: Analytics,
    keys: Ghost<Seq<u128>>,
}

/// The identifiers of a sequence of records, in order.
pub open spec fn ids_of(records: Seq<PRD>) -> Seq<Seq<char>> {
    records.map_values(|p: PRD| p.id@)
}

/// Records with identifiers that are pairwise distinct and each of which
/// keeps its own invariant.
pub open spec fn records_ok(records: Seq<PRD>) -> bool {
    &&& ids_of(records).no_duplicates()
    &&& forall|i: int| 0 <= i < records.len() ==> (#[trigger] records[i]).wf()
}

/// The smallest completion among non-empty `records`.
pub open spec fn min_completion(records: Seq<PRD>) -> u8
    decreases records.len(),
{
    if records.len() <= 1 {
        records[0].completion_percentage
    } else {
        let rest = min_completion(records.drop_last());
        let c = records.last().completion_percentage;
        if c < rest {
            c
        } else {
            rest
        }
    }
}

/// The largest completion among non-empty `records`.
pub open spec fn max_completion(records: Seq<PRD>) -> u8
    decreases records.len(),
{
    if records.len() <= 1 {
        records[0].completion_percentage
    } else {
        let rest = max_completion(records.drop_last());
        let c = records.last().completion_percentage;
        if c > rest {
            c
        } else {
            rest
        }
    }
}

/// The two tags that a fresh record holds once `add_tag` has been given
/// the raw tags `a` and `b`.
pub open spec fn two_tags(a: Seq<char>, b: Seq<char>) -> Seq<Seq<char>> {
    let first = if normalized_tag(a).len() > 0 {
        seq![normalized_tag(a)]
    } else {
        Seq::empty()
    };
    if normalized_tag(b).len() > 0 && !first.contains(normalized_tag(b)) {
        first.push(normalized_tag(b))
    } else {
        first
    }
}

/// A draft, medium-priority record with no progress, the given texts and
/// the two raw tags added.
pub open spec fn is_fresh_sample(
    p: PRD,
    title: Seq<char>,
    description: Seq<char>,
    author: Seq<char>,
    tag_a: Seq<char>,
    tag_b: Seq<char>,
) -> bool {
    &&& p.title@ == title
    &&& p.description@ == description
    &&& p.author@ == author
    &&& p.tags_view() == two_tags(tag_a, tag_b)
    &&& p.status == PRDStatus::Draft
    &&& p.priority == Priority::Medium
    &&& p.completion_percentage == 0
}

/// Title, description, author and the two raw tags of the `j`-th sample.
pub open spec fn sample_text(j: int) -> (Seq<char>, Seq<char>, Seq<char>, Seq<char>, Seq<char>) {
    if j == 0 {
        ("User Authentication System"@, "Implement secure login and registration"@, "Dev Team"@, "security"@, "authentication"@)
    } else if j == 1 {
        ("Dark Mode Theme"@, "Add dark theme option for better UX"@, "UX Team"@, "ui"@, "theme"@)
    } else if j == 2 {
        ("Payment Gateway Integration"@, "Integrate secure payment processing"@, "Product Team"@, "payment"@, "integration"@)
    } else if j == 3 {
        ("API Rate Limiting"@, "Implement API rate limiting for security"@, "Backend Team"@, "api"@, "security"@)
    } else if j == 4 {
        ("Mobile App Redesign"@, "Complete redesign of mobile application"@, "Design Team"@, "mobile"@, "design"@)
    } else if j == 5 {
        ("Real-time Notifications"@, "Add real-time notification system"@, "Full Stack Team"@, "notifications"@, "realtime"@)
    } else if j == 6 {
        ("Performance Optimization"@, "Optimize database queries and caching"@, "Database Team"@, "performance"@, "database"@)
    } else {
        ("Multi-language Support"@, "Add internationalization support"@, "Localization Team"@, "i18n"@, "localization"@)
    }
}

/// Status, priority and completion of the `j`-th sample once loaded.
pub open spec fn sample_state(j: int) -> (PRDStatus, Priority, u8) {
    if j == 1 {
        (PRDStatus::InReview, Priority::Medium, 0)
    } else if j == 2 {
        (PRDStatus::Approved, Priority::High, 0)
    } else if j == 3 {
        (PRDStatus::InDevelopment, Priority::Critical, 65)
    } else if j == 4 {
        (PRDStatus::Testing, Priority::Medium, 90)
    } else if j == 5 {
        (PRDStatus::Implemented, Priority::Medium, 100)
    } else {
        (PRDStatus::Draft, Priority::Medium, 0)
    }
}

/// The record is the `j`-th sample as loaded.
pub open spec fn is_sample(p: PRD, j: int) -> bool {
    &&& p.title@ == sample_text(j).0
    &&& p.description@ == sample_text(j).1
    &&& p.author@ == sample_text(j).2
    &&& p.tags_view() == two_tags(sample_text(j).3, sample_text(j).4)
    &&& p.status == sample_state(j).0
    &&& p.priority == sample_state(j).1
    &&& p.completion_percentage == sample_state(j).2
}

/// `new` is `old` with the record at position `i` alone replaced.
pub open spec fn changed_at(old: Seq<PRD>, new: Seq<PRD>, i: int) -> bool {
    &&& 0 <= i < old.len()
    &&& new.len() == old.len()
    &&& forall|j: int| 0 <= j < old.len() && j != i ==> new[j] == old[j]
}

/// The references of `refs` point at the records of `records`, in order.
pub open spec fn refers_to(refs: Seq<&PRD>, records: Seq<PRD>) -> bool {
    &&& refs.len() == records.len()
    &&& forall|i: int| 0 <= i < refs.len() ==> *#[trigger] refs[i] == records[i]
}

/// Filtering one record more adds that record where it passes.
proof fn lemma_filter_step(s: Seq<PRD>, i: int, pred: spec_fn(PRD) -> bool)
    requires
        0 <= i < s.len(),
    ensures
        s.subrange(0, i + 1).filter(pred) == if pred(s[i]) {
            s.subrange(0, i).filter(pred).push(s[i])
        } else {
            s.subrange(0, i).filter(pred)
        },
{
    reveal(Seq::filter);
    assert(s.subrange(0, i + 1).drop_last() =~= s.subrange(0, i));
}

impl PRDManager {
    /// The records, in creation order.
    pub closed spec fn records(&self) -> Seq<PRD> {
        self.prds@
    }

    /// The statistics as last computed.
    pub closed spec fn analytics(&self) -> Analytics {
        self.analytics
    }

    /// The identifiers of the records, in creation order.
    pub open spec fn ids(&self) -> Seq<Seq<char>> {
        ids_of(self.records())
    }

    /// The manager's invariant: the index maps the UUID value of each
    /// record's identifier to the record's position, and nothing else.
    pub closed spec fn wf(&self) -> bool {
        let keys = self.keys@;
        &&& self.prds@.len() == keys.len()
        &&& keys.no_duplicates()
        &&& forall|i: int|
            0 <= i < keys.len() ==> #[trigger] self.prd_index@.contains_key(keys[i])
                && self.prd_index@[keys[i]] == i
        &&& forall|k: u128| #[trigger] self.prd_index@.contains_key(k) ==> keys.contains(k)
        &&& forall|i: int|
            0 <= i < keys.len() ==> is_identifier_for((#[trigger] self.prds@[i]).id@, keys[i])
        &&& forall|i: int| 0 <= i < keys.len() ==> (#[trigger] self.prds@[i]).wf()
    }

    /// An empty manager.
    pub fn new() -> (r: PRDManager)
        ensures
            r.wf(),
            r.records().len() == 0,
    {
        PRDManager {
            prds: Vec::new(),
            prd_index: HashMap::new(),
            analytics: Analytics::new(),
            keys: Ghost(Seq::empty()),
        }
    }

    /// A non-zero UUID value that the index does not hold; there is always
    /// one among the values 1 to `len + 1`, since the index holds `len` values.
    fn free_key(&self) -> (k: u128)
        requires
            self.wf(),
        ensures
            !self.prd_index@.contains_key(k),
            k != 0,
    {
        let n = self.prds.len() as u128;
        let mut j: u128 = 1;
        while j <= n + 1
            invariant
                self.wf(),
                n == self.prds@.len(),
                n <= usize::MAX,
                1 <= j,
                forall|x: u128| 1 <= x < j ==> #[trigger] self.prd_index@.contains_key(x),
            decreases n + 2 - j,
        {
            if !self.prd_index.contains_key(&j) {
                return j;
            }
            j = j + 1;
        }
        proof {
            let probes = Seq::new((n + 1) as nat, |i: int| (i + 1) as u128);
            assert(probes.no_duplicates());
            probes.unique_seq_to_set();
            self.keys@.lemma_cardinality_of_set();
            assert forall|x: u128| probes.to_set().contains(x) implies self.keys@.to_set().contains(x) by {
                let i = choose|i: int| 0 <= i < probes.len() && probes[i] == x;
                assert(self.prd_index@.contains_key(probes[i]));
            }
            vstd::set_lib::lemma_len_subset(probes.to_set(), self.keys@.to_set());
        }
        0
    }

    /// The position of the record with identifier `id`, if there is one.
    fn position(&self, id: &str) -> (r: Option<usize>)
        requires
            self.wf(),
        ensures
            match r {
                Some(i) => i < self.records().len() && self.records()[i as int].id@ == id@,
                None => !self.ids().contains(id@),
            },
    {
        let len = id.unicode_len();
        if len < 4 {
            return None;
        }
        let rest = id.substring_char(4, len);
        let found = match parse_uuid(rest) {
            Some(k) => match self.prd_index.get(&k) {
                Some(pos) => Some(*pos),
                None => None,
            },
            None => None,
        };
        let ghost q = id@;
        match found {
            Some(pos) => {
                let wanted = String::from_str(id);
                if pos < self.prds.len() && self.prds[pos].id == wanted {
                    return Some(pos);
                }
            },
            None => {},
        }
        proof {
            if self.ids().contains(q) {
                let i = choose|i: int| 0 <= i < self.ids().len() && self.ids()[i] == q;
                assert(self.prds@[i].id@ == q);
                assert(is_identifier_for(self.prds@[i].id@, self.keys@[i]));
                assert(q.subrange(4, q.len() as int) == rest@);
                assert(self.prd_index@.contains_key(self.keys@[i]));
            }
        }
        None
    }

    /// Creates a record and returns its identifier, which no record held
    /// before.
    pub fn create_prd(&mut self, title: String, description: String, author: String) -> (r: String)
        requires
            old(self).wf(),
            old(self).records().len() < usize::MAX,
        ensures
            final(self).wf(),
            !old(self).ids().contains(r@),
            exists|k: u128| k != 0 && is_identifier_for(r@, k),
            records_ok(final(self).records()),
            final(self).records().len() == old(self).records().len() + 1,
            final(self).records().drop_last() == old(self).records(),
            final(self).records().last().id@ == r@,
            final(self).records().last().is_fresh(title@, description@, author@),
    {
        let mut key = random_uuid();
        proof {
            let marks = v4_marks();
            assert(key & marks == marks ==> key != 0) by (bit_vector)
                requires
                    marks == 0x40008000000000000000u128,
            ;
        }
        if self.prd_index.contains_key(&key) {
            key = self.free_key();
        }
        let prd = PRD::with_key(key, title, description, author);
        let id = prd.id.clone();
        let pos = self.prds.len();
        proof {
            if self.ids().contains(id@) {
                let i = choose|i: int| 0 <= i < self.ids().len() && self.ids()[i] == id@;
                assert(is_identifier_for(self.prds@[i].id@, self.keys@[i]));
                assert(self.keys@[i] == key);
                assert(self.prd_index@.contains_key(self.keys@[i]));
            }
        }
        self.prd_index.insert(key, pos);
        self.prds.push(prd);
        self.keys = Ghost(self.keys@.push(key));
        proof {
            assert(self.prds@.drop_last() =~= old(self).prds@);
            assert forall|k: u128| #[trigger] self.prd_index@.contains_key(k) implies self.keys@.contains(k) by {
                if k != key {
                    assert(old(self).keys@.contains(k));
                    let j = choose|j: int| 0 <= j < old(self).keys@.len() && old(self).keys@[j] == k;
                    assert(self.keys@[j] == k);
                } else {
                    assert(self.keys@[pos as int] == k);
                }
            }
            assert forall|i: int, j: int|
                0 <= i < self.keys@.len() && 0 <= j < self.keys@.len() && i != j
                implies self.keys@[i] != self.keys@[j] by {
                if i < pos && j < pos {
                } else if i == pos {
                    assert(old(self).prd_index@.contains_key(old(self).keys@[j]));
                } else {
                    assert(old(self).prd_index@.contains_key(old(self).keys@[i]));
                }
            }
        }
        self.update_analytics();
        proof {
            self.lemma_records_ok();
        }
        id
    }

    /// The record with identifier `id`, if there is one.
    pub fn get_prd(&self, id: &str) -> (r: Option<&PRD>)
        requires
            self.wf(),
        ensures
            match r {
                Some(p) => exists|i: int|
                    0 <= i < self.records().len() && self.records()[i] == *p && p.id@ == id@,
                None => !self.ids().contains(id@),
            },
    {
        match self.position(id) {
            Some(pos) => Some(&self.prds[pos]),
            None => None,
        }
    }

    /// A mutable handle on the record with identifier `id`, if there is one.
    /// The manager stays well-formed where the handle leaves the record's
    /// identifier as it was and keeps the record's invariant.
    pub fn get_prd_mut(&mut self, id: &str) -> (r: Option<&mut PRD>)
        requires
            old(self).wf(),
        ensures
            match r {
                Some(p) => exists|i: int|
                    0 <= i < old(self).records().len() && #[trigger] old(self).records()[i] == *p
                        && p.id@ == id@ && final(self).records() == old(self).records().update(
                        i,
                        *final(p),
                    ) && (final(p).wf() && final(p).id@ == id@ ==> final(self).wf()),
                None => !old(self).ids().contains(id@) && *final(self) == *old(self),
            },
    {
        match self.position(id) {
            Some(pos) => Some(&mut self.prds[pos]),
            None => None,
        }
    }

    /// The update times of the records as ranking keys.
    pub open spec fn update_keys(&self) -> Seq<i128> {
        self.records().map_values(|p: PRD| p.updated_at as i128)
    }

    /// The `k` most recently updated records, latest first.
    pub fn recent_prds(&self, k: usize) -> (r: Vec<&PRD>)
        ensures
            exists|pos: Seq<usize>|
                is_top(self.update_keys(), k as nat, pos) && refers_to(
                    r@,
                    pos.map_values(|i: usize| self.records()[i as int]),
                ),
    {
        let mut keys: Vec<i128> = Vec::new();
        let mut i: usize = 0;
        while i < self.prds.len()
            invariant
                i <= self.prds@.len(),
                keys@ == self.update_keys().subrange(0, i as int),
            decreases self.prds@.len() - i,
        {
            keys.push(self.prds[i].updated_at as i128);
            proof {
                assert(keys@ =~= self.update_keys().subrange(0, i + 1));
            }
            i = i + 1;
        }
        assert(keys@ =~= self.update_keys());
        let pos = top_positions(keys.as_slice(), k);
        let mut out: Vec<&PRD> = Vec::new();
        let mut j: usize = 0;
        while j < pos.len()
            invariant
                j <= pos@.len(),
                is_top(self.update_keys(), k as nat, pos@),
                refers_to(out@, pos@.subrange(0, j as int).map_values(|i: usize| self.records()[i as int])),
            decreases pos@.len() - j,
        {
            out.push(&self.prds[pos[j]]);
            proof {
                let want = pos@.subrange(0, j + 1).map_values(|i: usize| self.records()[i as int]);
                assert forall|x: int| 0 <= x < out@.len() implies *#[trigger] out@[x] == want[x] by {
                    if x < j {
                        assert(pos@.subrange(0, j + 1)[x] == pos@.subrange(0, j as int)[x]);
                    }
                }
            }
            j = j + 1;
        }
        assert(pos@.subrange(0, j as int) =~= pos@);
        out
    }

    /// All records, in creation order.
    pub fn get_all_prds(&self) -> (r: &[PRD])
        ensures
            r@ == self.records(),
    {
        self.prds.as_slice()
    }

    /// The records whose status is `status`, in creation order.
    pub fn get_prds_by_status(&self, status: PRDStatus) -> (r: Vec<&PRD>)
        ensures
            refers_to(r@, self.records().filter(|p: PRD| p.status == status)),
    {
        let ghost pred = |p: PRD| p.status == status;
        let mut out: Vec<&PRD> = Vec::new();
        let mut i: usize = 0;
        while i < self.prds.len()
            invariant
                pred == (|p: PRD| p.status == status),
                i <= self.prds@.len(),
                refers_to(out@, self.prds@.subrange(0, i as int).filter(pred)),
            decreases self.prds@.len() - i,
        {
            proof {
                lemma_filter_step(self.prds@, i as int, pred);
            }
            let ghost before = out@;
            if self.prds[i].status == status {
                out.push(&self.prds[i]);
            }
            proof {
                let f = self.prds@.subrange(0, i + 1).filter(pred);
                assert(pred(self.prds@[i as int]) ==> out@ == before.push(&self.prds@[i as int]));
                assert(!pred(self.prds@[i as int]) ==> out@ == before);
                assert forall|j: int| 0 <= j < out@.len() implies *#[trigger] out@[j] == f[j] by {
                    if j < before.len() {
                        assert(out@[j] == before[j]);
                    }
                }
            }
            i = i + 1;
        }
        assert(self.prds@.subrange(0, i as int) =~= self.prds@);
        out
    }

    /// The records whose priority is `priority`, in creation order.
    pub fn get_prds_by_priority(&self, priority: Priority) -> (r: Vec<&PRD>)
        ensures
            refers_to(r@, self.records().filter(|p: PRD| p.priority == priority)),
    {
        let ghost pred = |p: PRD| p.priority == priority;
        let mut out: Vec<&PRD> = Vec::new();
        let mut i: usize = 0;
        while i < self.prds.len()
            invariant
                pred == (|p: PRD| p.priority == priority),
                i <= self.prds@.len(),
                refers_to(out@, self.prds@.subrange(0, i as int).filter(pred)),
            decreases self.prds@.len() - i,
        {
            proof {
                lemma_filter_step(self.prds@, i as int, pred);
            }
            let ghost before = out@;
            if self.prds[i].priority == priority {
                out.push(&self.prds[i]);
            }
            proof {
                let f = self.prds@.subrange(0, i + 1).filter(pred);
                assert(pred(self.prds@[i as int]) ==> out@ == before.push(&self.prds@[i as int]));
                assert(!pred(self.prds@[i as int]) ==> out@ == before);
                assert forall|j: int| 0 <= j < out@.len() implies *#[trigger] out@[j] == f[j] by {
                    if j < before.len() {
                        assert(out@[j] == before[j]);
                    }
                }
            }
            i = i + 1;
        }
        assert(self.prds@.subrange(0, i as int) =~= self.prds@);
        out
    }

    /// The records that match a search term already lower-cased, in
    /// creation order.
    pub fn search_lowered(&self, lowered: &str) -> (r: Vec<&PRD>)
        ensures
            refers_to(r@, self.records().filter(|p: PRD| search_match(p, lowered@))),
    {
        let ghost pred = |p: PRD| search_match(p, lowered@);
        let mut out: Vec<&PRD> = Vec::new();
        let mut i: usize = 0;
        while i < self.prds.len()
            invariant
                pred == (|p: PRD| search_match(p, lowered@)),
                i <= self.prds@.len(),
                refers_to(out@, self.prds@.subrange(0, i as int).filter(pred)),
            decreases self.prds@.len() - i,
        {
            proof {
                lemma_filter_step(self.prds@, i as int, pred);
            }
            let ghost before = out@;
            if self.prds[i].matches_lowered(lowered) {
                out.push(&self.prds[i]);
            }
            proof {
                let f = self.prds@.subrange(0, i + 1).filter(pred);
                assert(pred(self.prds@[i as int]) ==> out@ == before.push(&self.prds@[i as int]));
                assert(!pred(self.prds@[i as int]) ==> out@ == before);
                assert forall|j: int| 0 <= j < out@.len() implies *#[trigger] out@[j] == f[j] by {
                    if j < before.len() {
                        assert(out@[j] == before[j]);
                    }
                }
            }
            i = i + 1;
        }
        assert(self.prds@.subrange(0, i as int) =~= self.prds@);
        out
    }

    /// The records whose title or description holds the term, or one of
    /// whose tags holds it, ignoring case; in creation order.
    pub fn search_prds(&self, search_term: &str) -> (r: Vec<&PRD>)
        ensures
            refers_to(
                r@,
                self.records().filter(|p: PRD| search_match(p, lower_of(search_term@))),
            ),
    {
        let lowered = lowercase(search_term);
        self.search_lowered(lowered.as_str())
    }

    /// Sets the status of the record with identifier `id` and rebuilds the
    /// statistics; false, with nothing changed, where no record has that
    /// identifier.
    pub fn update_prd_status(&mut self, id: &str, new_status: PRDStatus) -> (r: bool)
        requires
            old(self).wf(),
        ensures
            final(self).wf(),
            r == old(self).ids().contains(id@),
            !r ==> *final(self) == *old(self),
            r ==> exists|i: int|
                changed_at(old(self).records(), final(self).records(), i) && #[trigger] old(
                    self,
                ).records()[i].id@ == id@ && (PRD {
                    status: new_status,
                    updated_at: final(self).records()[i].updated_at,
                    ..old(self).records()[i]
                }) == final(self).records()[i],
    {
        let now = now_micros();
        self.update_prd_status_at(id, new_status, now)
    }

    /// Sets the status of the record with identifier `id`, stamping its
    /// update time with `now`, and rebuilds the statistics; false, with
    /// nothing changed, where no record has that identifier.
    pub fn update_prd_status_at(&mut self, id: &str, new_status: PRDStatus, now: i64) -> (r: bool)
        requires
            old(self).wf(),
            rfc3339_of(now) is Some,
        ensures
            final(self).wf(),
            r == old(self).ids().contains(id@),
            !r ==> *final(self) == *old(self),
            r ==> exists|i: int|
                changed_at(old(self).records(), final(self).records(), i) && #[trigger] old(
                    self,
                ).records()[i].id@ == id@ && (PRD {
                    status: new_status,
                    updated_at: stamped(now, old(self).records()[i].created_at),
                    ..old(self).records()[i]
                }) == final(self).records()[i],
            r ==> final(self).analytics().describes(final(self).records())
                && final(self).analytics().last_updated == now,
    {
        match self.position(id) {
            Some(pos) => {
                assert(old(self).ids()[pos as int] == id@);
                self.prds[pos].update_status_at(new_status, now);
                proof {
                    self.lemma_one_changed(old(self), pos as int);
                }
                self.analytics = Analytics::from_records_at(self.prds.as_slice(), now);
                true
            },
            None => false,
        }
    }

    /// Rebuilds the statistics from the records.
    fn update_analytics(&mut self)
        requires
            old(self).wf(),
        ensures
            final(self).wf(),
            final(self).records() == old(self).records(),
            final(self).analytics.describes(final(self).records()),
    {
        self.analytics = Analytics::from_records(self.prds.as_slice());
    }

    /// Statistics of the records as they are now.
    pub fn get_analytics(&mut self) -> (r: &Analytics)
        requires
            old(self).wf(),
        ensures
            final(self).wf(),
            final(self).records() == old(self).records(),
            r.describes(old(self).records()),
            *r == final(self).analytics(),
    {
        self.update_analytics();
        &self.analytics
    }

    /// Smallest and largest completion and the sum of all completions; the
    /// mean is the sum divided by the number of records. All zero where
    /// there are no records.
    pub fn get_completion_stats(&self) -> (r: (u8, u8, u128))
        requires
            self.wf(),
        ensures
            self.records().len() == 0 ==> r == (0u8, 0u8, 0u128),
            self.records().len() > 0 ==> r.0 == min_completion(self.records()) && r.1
                == max_completion(self.records()),
            r.2 == completion_total(self.records()),
    {
        if self.prds.len() == 0 {
            return (0, 0, 0);
        }
        let mut lo: u8 = self.prds[0].completion_percentage;
        let mut hi: u8 = lo;
        let mut sum: u128 = lo as u128;
        let mut i: usize = 1;
        proof {
            let first = self.prds@.subrange(0, 1);
            assert(first.drop_last() =~= Seq::<PRD>::empty());
            assert(first.last() == self.prds@[0]);
            assert(completion_total(first.drop_last()) == 0);
            assert(completion_total(first) == lo as nat);
        }
        while i < self.prds.len()
            invariant
                1 <= i <= self.prds@.len(),
                self.wf(),
                lo == min_completion(self.prds@.subrange(0, i as int)),
                hi == max_completion(self.prds@.subrange(0, i as int)),
                sum == completion_total(self.prds@.subrange(0, i as int)),
                sum <= 100 * i,
            decreases self.prds@.len() - i,
        {
            let c = self.prds[i].completion_percentage;
            proof {
                assert(self.prds@.subrange(0, i + 1).drop_last() =~= self.prds@.subrange(0, i as int));
                assert(self.prds@[i as int].wf());
            }
            if c < lo {
                lo = c;
            }
            if c > hi {
                hi = c;
            }
            sum = sum + c as u128;
            i = i + 1;
        }
        assert(self.prds@.subrange(0, i as int) =~= self.prds@);
        (lo, hi, sum)
    }

    /// The records as a JSON array of objects, in creation order, with
    /// status and priority as snake-case labels and times in RFC 3339.
    pub fn export_to_json(&self) -> (r: Result<String, serde_json::Error>)
        requires
            self.wf(),
        ensures
            r is Ok,
            r matches Ok(t) ==> t@ == export_text(self.records()),
    {
        export_records(self.prds.as_slice())
    }

    /// Creates a record and adds two tags to it.
    fn add_sample(&mut self, title: &str, description: &str, author: &str, tags: (&str, &str))
        requires
            old(self).wf(),
            old(self).records().len() < usize::MAX,
        ensures
            final(self).wf(),
            final(self).records().len() == old(self).records().len() + 1,
            final(self).records().drop_last() == old(self).records(),
            is_fresh_sample(final(self).records().last(), title@, description@, author@, tags.0@, tags.1@),
    {
        let pos = self.prds.len();
        self.create_prd(String::from_str(title), String::from_str(description), String::from_str(author));
        let ghost created = *self;
        self.prds[pos].add_tag(String::from_str(tags.0));
        proof {
            self.lemma_one_changed(&created, pos as int);
        }
        let ghost tagged = *self;
        self.prds[pos].add_tag(String::from_str(tags.1));
        proof {
            self.lemma_one_changed(&tagged, pos as int);
            assert(created.prds@[pos as int].tags_view() =~= Seq::<Seq<char>>::empty());
            assert(self.prds@.drop_last() =~= old(self).prds@);
        }
    }

    /// Adds eight sample records with two tags each, then moves five of them
    /// to later stages and sets some priorities and completions.
    pub fn load_sample_data(&mut self)
        requires
            old(self).wf(),
            old(self).records().len() + 8 < usize::MAX,
        ensures
            final(self).wf(),
            final(self).records().len() == old(self).records().len() + 8,
            final(self).records().subrange(0, old(self).records().len() as int) == old(self).records(),
            forall|i: int|
                old(self).records().len() <= i < old(self).records().len() + 8 ==> is_sample(
                    #[trigger] final(self).records()[i],
                    i - old(self).records().len(),
                ),
    {
        let base = self.prds.len();
        self.add_sample("User Authentication System", "Implement secure login and registration", "Dev Team", ("security", "authentication"));
        let ghost s0 = self.prds@;
        self.add_sample("Dark Mode Theme", "Add dark theme option for better UX", "UX Team", ("ui", "theme"));
        let ghost s1 = self.prds@;
        self.add_sample("Payment Gateway Integration", "Integrate secure payment processing", "Product Team", ("payment", "integration"));
        let ghost s2 = self.prds@;
        self.add_sample("API Rate Limiting", "Implement API rate limiting for security", "Backend Team", ("api", "security"));
        let ghost s3 = self.prds@;
        self.add_sample("Mobile App Redesign", "Complete redesign of mobile application", "Design Team", ("mobile", "design"));
        let ghost s4 = self.prds@;
        self.add_sample("Real-time Notifications", "Add real-time notification system", "Full Stack Team", ("notifications", "realtime"));
        let ghost s5 = self.prds@;
        self.add_sample("Performance Optimization", "Optimize database queries and caching", "Database Team", ("performance", "database"));
        let ghost s6 = self.prds@;
        self.add_sample("Multi-language Support", "Add internationalization support", "Localization Team", ("i18n", "localization"));
        let ghost added = self.prds@;
        proof {
            let b = base as int;
            assert(s0.len() == b + 1 && is_fresh_sample(s0[b], sample_text(0).0, sample_text(0).1, sample_text(0).2, sample_text(0).3, sample_text(0).4));
            assert(s1[b + 1] == s1.last());
            assert(s2[b + 2] == s2.last());
            assert(s3[b + 3] == s3.last());
            assert(s4[b + 4] == s4.last());
            assert(s5[b + 5] == s5.last());
            assert(s6[b + 6] == s6.last());
            assert(added[b + 7] == added.last());
            assert(added.subrange(0, b) =~= old(self).prds@) by {
                assert(s0.drop_last() == old(self).prds@);
                assert(s1.drop_last() == s0);
                assert(s2.drop_last() == s1);
                assert(s3.drop_last() == s2);
                assert(s4.drop_last() == s3);
                assert(s5.drop_last() == s4);
                assert(s6.drop_last() == s5);
                assert(added.drop_last() == s6);
            }
            assert forall|j: int| 0 <= j < 8 implies #[trigger] is_fresh_sample(
                added[b + j],
                sample_text(j).0,
                sample_text(j).1,
                sample_text(j).2,
                sample_text(j).3,
                sample_text(j).4,
            ) by {
                assert(s1.drop_last() == s0);
                assert(s2.drop_last() == s1);
                assert(s3.drop_last() == s2);
                assert(s4.drop_last() == s3);
                assert(s5.drop_last() == s4);
                assert(s6.drop_last() == s5);
                assert(added.drop_last() == s6);
            }
        }
        let ghost m0 = *self;
        self.prds[base + 1].update_status(PRDStatus::InReview);
        proof { self.lemma_one_changed(&m0, base + 1); }
        let ghost m1 = *self;
        self.prds[base + 2].update_status(PRDStatus::Approved);
        proof { self.lemma_one_changed(&m1, base + 2); }
        let ghost m2 = *self;
        self.prds[base + 3].update_status(PRDStatus::InDevelopment);
        proof { self.lemma_one_changed(&m2, base + 3); }
        let ghost m3 = *self;
        self.prds[base + 4].update_status(PRDStatus::Testing);
        proof { self.lemma_one_changed(&m3, base + 4); }
        let ghost m4 = *self;
        self.prds[base + 5].update_status(PRDStatus::Implemented);
        proof { self.lemma_one_changed(&m4, base + 5); }
        let ghost m5 = *self;
        self.prds[base + 2].set_priority(Priority::High);
        proof { self.lemma_one_changed(&m5, base + 2); }
        let ghost m6 = *self;
        self.prds[base + 3].set_completion_percentage(65);
        proof { self.lemma_one_changed(&m6, base + 3); }
        let ghost m7 = *self;
        self.prds[base + 3].set_priority(Priority::Critical);
        proof { self.lemma_one_changed(&m7, base + 3); }
        let ghost m8 = *self;
        self.prds[base + 4].set_completion_percentage(90);
        proof { self.lemma_one_changed(&m8, base + 4); }
        let ghost m9 = *self;
        self.prds[base + 5].set_completion_percentage(100);
        proof {
            self.lemma_one_changed(&m9, base + 5);
            let b = base as int;
            assert forall|j: int| 0 <= j < b + 8 && !(b + 1 <= j <= b + 5) implies self.prds@[j] == added[j] by {
            }
            assert(self.prds@.subrange(0, b) =~= added.subrange(0, b));
            assert forall|i: int| b <= i < b + 8 implies is_sample(#[trigger] self.prds@[i], i - b) by {
                let j = i - b;
                assert(is_fresh_sample(
                    added[b + j],
                    sample_text(j).0,
                    sample_text(j).1,
                    sample_text(j).2,
                    sample_text(j).3,
                    sample_text(j).4,
                ));
            }
        }
        self.update_analytics();
    }

    /// A manager whose record at position `i` was replaced by one with the
    /// same identity that keeps its invariant is still well-formed.
    proof fn lemma_one_changed(&self, prev: &PRDManager, i: int)
        requires
            prev.wf(),
            self.keys@ == prev.keys@,
            self.prd_index@ == prev.prd_index@,
            changed_at(prev.prds@, self.prds@, i),
            self.prds@[i].id@ == prev.prds@[i].id@,
            self.prds@[i].wf(),
        ensures
            self.wf(),
    {
        assert forall|j: int| 0 <= j < self.keys@.len() implies is_identifier_for(
            (#[trigger] self.prds@[j]).id@,
            self.keys@[j],
        ) && self.prds@[j].wf() by {
            if j != i {
                assert(self.prds@[j] == prev.prds@[j]);
            }
        }
    }

    /// In a well-formed manager the identifiers are pairwise distinct and
    /// every record keeps its own invariant.
    pub proof fn lemma_records_ok(&self)
        requires
            self.wf(),
        ensures
            records_ok(self.records()),
    {
        assert forall|i: int, j: int|
            0 <= i < self.ids().len() && 0 <= j < self.ids().len() && i != j
            implies self.ids()[i] != self.ids()[j] by {
            assert(is_identifier_for(self.prds@[i].id@, self.keys@[i]));
            assert(is_identifier_for(self.prds@[j].id@, self.keys@[j]));
        }
    }
}

/// Filtering a prefix where position `k` alone passes keeps that one
/// element once the prefix reaches past it.
proof fn lemma_filter_only(s: Seq<PRD>, pred: spec_fn(PRD) -> bool, k: int, n: int)
    requires
        0 <= k < s.len(),
        0 <= n <= s.len(),
        pred(s[k]),
        forall|i: int| 0 <= i < s.len() && i != k ==> !pred(#[trigger] s[i]),
    ensures
        s.subrange(0, n).filter(pred) == if n <= k {
            Seq::<PRD>::empty()
        } else {
            seq![s[k]]
        },
    decreases n,
{
    if n == 0 {
        reveal(Seq::filter);
    } else {
        lemma_filter_only(s, pred, k, n - 1);
        lemma_filter_step(s, n - 1, pred);
        if n - 1 == k {
            assert(Seq::<PRD>::empty().push(s[k]) =~= seq![s[k]]);
        }
    }
}

/// A search whose term matches exactly one record, ignoring case, returns
/// that record alone.
pub proof fn lemma_search_single(m: &PRDManager, term: Seq<char>, k: int)
    requires
        0 <= k < m.records().len(),
        search_match(m.records()[k], lower_of(term)),
        forall|i: int|
            0 <= i < m.records().len() && i != k ==> !search_match(
                #[trigger] m.records()[i],
                lower_of(term),
            ),
    ensures
        m.records().filter(|p: PRD| search_match(p, lower_of(term))) == seq![m.records()[k]],
{
    let pred = |p: PRD| search_match(p, lower_of(term));
    lemma_filter_only(m.records(), pred, k, m.records().len() as int);
    assert(m.records().subrange(0, m.records().len() as int) =~= m.records());
}

impl Default for PRDManager {
    fn default() -> (r: PRDManager)
        ensures
            r.wf(),
            r.records().len() == 0,
    {
        PRDManager::new()
    }
}

/// Creation followed by a lookup: a new identifier is held by exactly one
/// record, the last one, which is fresh; every other record keeps its own
/// identifier, and all identifiers stay pairwise distinct.
pub proof fn lemma_created_is_found(
    before: &PRDManager,
    after: &PRDManager,
    id: Seq<char>,
    title: Seq<char>,
    description: Seq<char>,
    author: Seq<char>,
)
    requires
        before.wf(),
        after.wf(),
        !before.ids().contains(id),
        after.records().drop_last() == before.records(),
        after.records().len() == before.records().len() + 1,
        after.records().last().id@ == id,
        after.records().last().is_fresh(title, description, author),
    ensures
        after.ids().contains(id),
        after.ids().no_duplicates(),
        forall|i: int|
            0 <= i < after.records().len() && (#[trigger] after.records()[i]).id@ == id ==> i
                == before.records().len() && after.records()[i].is_fresh(
                title,
                description,
                author,
            ),
{
    after.lemma_records_ok();
    let n = before.records().len() as int;
    assert(after.ids()[n] == id);
    assert forall|i: int|
        0 <= i < after.records().len() && (#[trigger] after.records()[i]).id@ == id implies i
            == n by {
        if i < n {
            assert(after.records()[i] == before.records()[i]);
            assert(before.ids()[i] == id);
        }
    }
}

} // verus!
