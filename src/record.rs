use vstd::prelude::*;

use crate::clock::{now_micros, rfc3339_of};
use crate::ident::{random_uuid, uuid_text, uuid_text_of, uuid_value_of};
use crate::labels::{PRDStatus, Priority};
use crate::text::{contains_text, has_substring, lower_of, lowercase, trim_of, trimmed};

verus! {

/// The tag that a raw tag text stands for: trimmed, then lower-cased.
pub open spec fn normalized_tag(raw: Seq<char>) -> Seq<char> {
    lower_of(trim_of(raw))
}

/// `id` is the identifier made from the UUID value `k`: "PRD-" followed by
/// the UUID's canonical text, from which the value can be read back.
pub open spec fn is_identifier_for(id: Seq<char>, k: u128) -> bool {
    &&& id.len() >= 4
    &&& id.subrange(0, 4) == "PRD-"@
    &&& id.subrange(4, id.len() as int) == uuid_text_of(k)
    &&& uuid_value_of(id.subrange(4, id.len() as int)) == Some(k)
}

/// Completion after a write of `p`: values above 100 are clamped to 100.
pub open spec fn clamped_completion(p: u8) -> u8 {
    if p <= 100 {
        p
    } else {
        100
    }
}

/// Decimal digits of a natural number.
pub open spec fn decimal(n: nat) -> Seq<char>
    decreases n,
{
    if n < 10 {
        seq![digit_char(n)]
    } else {
        decimal(n / 10).push(digit_char(n % 10))
    }
}

/// The decimal digit for a value below ten.
pub open spec fn digit_char(d: nat) -> char {
    if d == 0 { '0' } else if d == 1 { '1' } else if d == 2 { '2' } else if d == 3 { '3' }
    else if d == 4 { '4' } else if d == 5 { '5' } else if d == 6 { '6' } else if d == 7 { '7' }
    else if d == 8 { '8' } else { '9' }
}

fn digit_text(d: u8) -> (r: String)
    requires
        d < 10,
    ensures
        r@ == seq![digit_char(d as nat)],
{
    let s = if d == 0 {
        "0"
    } else if d == 1 {
        "1"
    } else if d == 2 {
        "2"
    } else if d == 3 {
        "3"
    } else if d == 4 {
        "4"
    } else if d == 5 {
        "5"
    } else if d == 6 {
        "6"
    } else if d == 7 {
        "7"
    } else if d == 8 {
        "8"
    } else {
        "9"
    };
    proof {
        reveal_strlit("0");
        reveal_strlit("1");
        reveal_strlit("2");
        reveal_strlit("3");
        reveal_strlit("4");
        reveal_strlit("5");
        reveal_strlit("6");
        reveal_strlit("7");
        reveal_strlit("8");
        reveal_strlit("9");
    }
    let r = String::from_str(s);
    assert(r@ =~= seq![digit_char(d as nat)]);
    r
}

/// The decimal text of a byte value.
pub fn decimal_text(n: u8) -> (r: String)
    ensures
        r@ == decimal(n as nat),
{
    if n < 10 {
        digit_text(n)
    } else if n < 100 {
        let mut r = digit_text(n / 10);
        let low = digit_text(n % 10);
        r.append(low.as_str());
        assert(decimal((n / 10) as nat) == seq![digit_char((n / 10) as nat)]);
        assert(r@ =~= decimal(n as nat));
        r
    } else {
        let mut r = digit_text(n / 100);
        let mid = digit_text((n / 10) % 10);
        let low = digit_text(n % 10);
        r.append(mid.as_str());
        r.append(low.as_str());
        assert(decimal((n / 100) as nat) == seq![digit_char((n / 100) as nat)]);
        assert(((n / 10) as nat) / 10 == (n / 100) as nat);
        assert(decimal((n / 10) as nat) =~= seq![digit_char((n / 100) as nat), digit_char(((n / 10) % 10) as nat)]);
        assert(r@ =~= decimal(n as nat));
        r
    }
}

/// The update time stamped at `now` on a record created at `created`: never
/// earlier than the creation time.
pub open spec fn stamped(now: i64, created: i64) -> i64 {
    if now >= created {
        now
    } else {
        created
    }
}

/// Adding the raw tag `raw` appends to the record's tags: its normalized
/// form is non-empty and not yet present.
pub open spec fn tag_appends(before: PRD, raw: Seq<char>) -> bool {
    normalized_tag(raw).len() > 0 && !before.tags_view().contains(normalized_tag(raw))
}

/// `after` is `before` once `add_tag` has been given the raw tag `raw`:
/// the normalized tag is appended where it is non-empty and new, and the
/// record is otherwise unchanged.
pub open spec fn tag_added(before: PRD, after: PRD, raw: Seq<char>) -> bool {
    let t = normalized_tag(raw);
    if t.len() > 0 && !before.tags_view().contains(t) {
        &&& after.tags_view() == before.tags_view().push(t)
        &&& (PRD { tags: after.tags, updated_at: after.updated_at, ..before }) == after
    } else {
        after == before
    }
}

/// The record matches a search term already lower-cased: its lower-cased
/// title or description holds the term, or one of its lower-cased tags does.
pub open spec fn search_match(p: PRD, lowered: Seq<char>) -> bool {
    ||| has_substring(lower_of(p.title@), lowered)
    ||| has_substring(lower_of(p.description@), lowered)
    ||| exists|j: int| 0 <= j < p.tags@.len() && has_substring(lower_of(#[trigger] p.tags@[j]@), lowered)
}

/// Adding the same raw tag twice: the second addition changes nothing, and
/// the normalized tag, where non-empty, is then held exactly once.
pub proof fn lemma_add_tag_twice(a: PRD, b: PRD, c: PRD, raw: Seq<char>)
    requires
        a.wf(),
        b.wf(),
        tag_added(a, b, raw),
        tag_added(b, c, raw),
    ensures
        c == b,
        normalized_tag(raw).len() > 0 ==> c.tags_view().contains(normalized_tag(raw)),
        c.tags_view().no_duplicates(),
{
    let t = normalized_tag(raw);
    if t.len() > 0 && !a.tags_view().contains(t) {
        assert(b.tags_view()[b.tags_view().len() - 1] == t);
    }
}

/// A product requirement document.
///
/// Timestamps are microseconds since the Unix epoch, in UTC.
#[derive(Debug, Clone)]
pub struct PRD {
    pub id: String,
    pub title: String,
    pub description: String,
    pub author: String,
    pub status: PRDStatus,
    pub priority: Priority,
    pub created_at: i64,
    pub updated_at: i64,
    pub completion_percentage: u8,
    pub tags: Vec<String>,
}

impl PRD {
    /// The tags as texts, in insertion order.
    pub open spec fn tags_view(self) -> Seq<Seq<char>> {
        self.tags@.map_values(|t: String| t@)
    }

    /// The record's invariant: completion within 0..=100, an update time no
    /// earlier than the creation time, both representable as dates, and tags
    /// that are non-empty and pairwise distinct.
    pub open spec fn wf(self) -> bool {
        &&& self.completion_percentage <= 100
        &&& self.created_at <= self.updated_at
        &&& rfc3339_of(self.created_at) is Some
        &&& rfc3339_of(self.updated_at) is Some
        &&& self.tags_view().no_duplicates()
        &&& forall|i: int| 0 <= i < self.tags@.len() ==> #[trigger] self.tags@[i]@.len() > 0
    }

    /// Identifier, descriptive texts and creation time agree.
    pub open spec fn same_identity(self, o: PRD) -> bool {
        &&& self.id@ == o.id@
        &&& self.title@ == o.title@
        &&& self.description@ == o.description@
        &&& self.author@ == o.author@
        &&& self.created_at == o.created_at
    }

    /// A fresh record as creation makes it: draft, medium priority, nothing
    /// done, no tags.
    pub open spec fn is_fresh(self, title: Seq<char>, description: Seq<char>, author: Seq<char>) -> bool {
        &&& self.wf()
        &&& self.title@ == title
        &&& self.description@ == description
        &&& self.author@ == author
        &&& self.status == PRDStatus::Draft
        &&& self.priority == Priority::Medium
        &&& self.completion_percentage == 0
        &&& self.tags@.len() == 0
        &&& self.created_at == self.updated_at
    }

    /// A record whose identifier is made from the UUID value `key`.
    pub(crate) fn with_key(key: u128, title: String, description: String, author: String) -> (r: PRD)
        ensures
            r.is_fresh(title@, description@, author@),
            is_identifier_for(r.id@, key),
    {
        let now = now_micros();
        PRD::with_key_at(key, title, description, author, now)
    }

    /// A fresh record whose identifier is made from the UUID value `key`,
    /// created and last updated at `now`.
    pub fn with_key_at(key: u128, title: String, description: String, author: String, now: i64) -> (r: PRD)
        requires
            rfc3339_of(now) is Some,
        ensures
            r.is_fresh(title@, description@, author@),
            is_identifier_for(r.id@, key),
            r.created_at == now,
            r.updated_at == now,
    {
        let text = uuid_text(key);
        let mut id = String::from_str("PRD-");
        id.append(text.as_str());
        proof {
            reveal_strlit("PRD-");
            assert(id@.subrange(0, 4) =~= "PRD-"@);
            assert(id@.subrange(4, id@.len() as int) =~= text@);
        }
        PRD {
            id,
            title,
            description,
            author,
            status: PRDStatus::Draft,
            priority: Priority::Medium,
            created_at: now,
            updated_at: now,
            completion_percentage: 0,
            tags: Vec::new(),
        }
    }

    /// A new record with a random identifier.
    pub fn new(title: String, description: String, author: String) -> (r: PRD)
        ensures
            r.is_fresh(title@, description@, author@),
            exists|k: u128| is_identifier_for(r.id@, k),
    {
        let key = random_uuid();
        PRD::with_key(key, title, description, author)
    }

    /// Stamps the update time with `now`, or with the creation time where
    /// `now` is earlier.
    pub fn touch_at(&mut self, now: i64)
        requires
            old(self).wf(),
            rfc3339_of(now) is Some,
        ensures
            final(self).wf(),
            (PRD { updated_at: stamped(now, old(self).created_at), ..*old(self) }) == *final(self),
    {
        if now >= self.created_at {
            self.updated_at = now;
        } else {
            self.updated_at = self.created_at;
        }
    }

    /// Sets the status and refreshes the update time.
    pub fn update_status(&mut self, new_status: PRDStatus)
        requires
            old(self).wf(),
        ensures
            final(self).wf(),
            (PRD { status: new_status, updated_at: final(self).updated_at, ..*old(self) })
                == *final(self),
    {
        let now = now_micros();
        self.update_status_at(new_status, now);
    }

    /// Sets the status and stamps the update time with `now`.
    pub fn update_status_at(&mut self, new_status: PRDStatus, now: i64)
        requires
            old(self).wf(),
            rfc3339_of(now) is Some,
        ensures
            final(self).wf(),
            (PRD {
                status: new_status,
                updated_at: stamped(now, old(self).created_at),
                ..*old(self)
            }) == *final(self),
    {
        self.status = new_status;
        self.touch_at(now);
    }

    /// Sets the completion, clamped to 100, and refreshes the update time.
    pub fn set_completion_percentage(&mut self, percentage: u8)
        requires
            old(self).wf(),
        ensures
            final(self).wf(),
            final(self).completion_percentage == clamped_completion(percentage),
            (PRD {
                completion_percentage: final(self).completion_percentage,
                updated_at: final(self).updated_at,
                ..*old(self)
            }) == *final(self),
    {
        let now = now_micros();
        self.set_completion_percentage_at(percentage, now);
    }

    /// Sets the completion, clamped to 100, and stamps the update time with
    /// `now`.
    pub fn set_completion_percentage_at(&mut self, percentage: u8, now: i64)
        requires
            old(self).wf(),
            rfc3339_of(now) is Some,
        ensures
            final(self).wf(),
            (PRD {
                completion_percentage: clamped_completion(percentage),
                updated_at: stamped(now, old(self).created_at),
                ..*old(self)
            }) == *final(self),
    {
        self.completion_percentage = if percentage <= 100 {
            percentage
        } else {
            100
        };
        self.touch_at(now);
    }

    /// Adds a tag after trimming and lower-casing it; an empty or already
    /// present tag leaves the record as it was.
    pub fn add_tag(&mut self, tag: String)
        requires
            old(self).wf(),
        ensures
            final(self).wf(),
            tag_added(*old(self), *final(self), tag@),
    {
        let now = now_micros();
        self.add_tag_at(tag, now);
    }

    /// Adds a tag after trimming and lower-casing it, stamping the update
    /// time with `now`; an empty or already present tag leaves the record as
    /// it was.
    pub fn add_tag_at(&mut self, tag: String, now: i64)
        requires
            old(self).wf(),
            rfc3339_of(now) is Some,
        ensures
            final(self).wf(),
            tag_added(*old(self), *final(self), tag@),
            tag_appends(*old(self), tag@) ==> final(self).updated_at == stamped(
                now,
                old(self).created_at,
            ),
    {
        let trimmed_tag = trimmed(tag.as_str());
        let t = lowercase(trimmed_tag.as_str());
        if t.unicode_len() == 0 {
            return;
        }
        let mut i: usize = 0;
        while i < self.tags.len()
            invariant
                0 <= i <= self.tags@.len(),
                self.wf(),
                t@ == normalized_tag(tag@),
                forall|j: int| 0 <= j < i ==> self.tags_view()[j] != t@,
            decreases self.tags@.len() - i,
        {
            if self.tags[i] == t {
                assert(self.tags_view()[i as int] == t@);
                return;
            }
            i = i + 1;
        }
        let ghost before = self.tags_view();
        self.tags.push(t);
        proof {
            assert(self.tags_view() =~= before.push(t@));
            assert(!before.contains(t@));
        }
        self.touch_at(now);
    }

    /// One line for display: identifier, title, status name and completion.
    pub fn summary(&self) -> (r: String)
        ensures
            r@ == "PRD{ID='"@ + self.id@ + "', Title='"@ + self.title@ + "', Status="@
                + self.status.display_spec() + ", Completion="@ + decimal(
                self.completion_percentage as nat,
            ) + "%}"@,
    {
        let mut r = String::from_str("PRD{ID='");
        r.append(self.id.as_str());
        r.append("', Title='");
        r.append(self.title.as_str());
        r.append("', Status=");
        let status = self.status.display_name();
        r.append(status.as_str());
        r.append(", Completion=");
        let completion = decimal_text(self.completion_percentage);
        r.append(completion.as_str());
        r.append("%}");
        r
    }

    /// Whether the record matches a search term already lower-cased.
    pub fn matches_lowered(&self, lowered: &str) -> (r: bool)
        ensures
            r == search_match(*self, lowered@),
    {
        let title = lowercase(self.title.as_str());
        if contains_text(title.as_str(), lowered) {
            return true;
        }
        let description = lowercase(self.description.as_str());
        if contains_text(description.as_str(), lowered) {
            return true;
        }
        let mut i: usize = 0;
        while i < self.tags.len()
            invariant
                i <= self.tags@.len(),
                !has_substring(lower_of(self.title@), lowered@),
                !has_substring(lower_of(self.description@), lowered@),
                forall|j: int| 0 <= j < i ==> !has_substring(lower_of(#[trigger] self.tags@[j]@), lowered@),
            decreases self.tags@.len() - i,
        {
            let tag = lowercase(self.tags[i].as_str());
            if contains_text(tag.as_str(), lowered) {
                return true;
            }
            i = i + 1;
        }
        false
    }

    /// Sets the priority and refreshes the update time.
    pub fn set_priority(&mut self, priority: Priority)
        requires
            old(self).wf(),
        ensures
            final(self).wf(),
            (PRD { priority: priority, updated_at: final(self).updated_at, ..*old(self) })
                == *final(self),
    {
        let now = now_micros();
        self.set_priority_at(priority, now);
    }

    /// Sets the priority and stamps the update time with `now`.
    pub fn set_priority_at(&mut self, priority: Priority, now: i64)
        requires
            old(self).wf(),
            rfc3339_of(now) is Some,
        ensures
            final(self).wf(),
            (PRD { priority: priority, updated_at: stamped(now, old(self).created_at), ..*old(self) })
                == *final(self),
    {
        self.priority = priority;
        self.touch_at(now);
    }
}

} // verus!
