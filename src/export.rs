use vstd::prelude::*;

use crate::clock::{rfc3339_of, rfc3339_text};
use crate::ident::hex_char;
use crate::record::{decimal, decimal_text, PRD};

verus! {

#[verifier::external_type_specification]
#[verifier::external_body]
pub struct ExJsonError(serde_json::Error);

/// How serde_json writes one character inside a string literal: quote and
/// backslash escaped, the five control characters with short escapes as
/// such, every other character below U+0020 as `\u00` and two lower-case
/// hexadecimal digits, and all else as it is.
pub open spec fn json_escaped_char(c: char) -> Seq<char> {
    let n = c as u32;
    if c == '"' {
        seq!['\\', '"']
    } else if c == '\\' {
        seq!['\\', '\\']
    } else if n == 8 {
        seq!['\\', 'b']
    } else if n == 12 {
        seq!['\\', 'f']
    } else if n == 10 {
        seq!['\\', 'n']
    } else if n == 13 {
        seq!['\\', 'r']
    } else if n == 9 {
        seq!['\\', 't']
    } else if n < 32 {
        seq!['\\', 'u', '0', '0', hex_char((n / 16) as nat), hex_char((n % 16) as nat)]
    } else {
        seq![c]
    }
}

/// The characters of a text, each written as serde_json writes it inside
/// a string literal.
pub open spec fn json_escaped(s: Seq<char>) -> Seq<char>
    decreases s.len(),
{
    if s.len() == 0 {
        Seq::empty()
    } else {
        json_escaped(s.drop_last()) + json_escaped_char(s.last())
    }
}

/// The JSON string literal that `serde_json::to_string` writes for a text.
pub open spec fn json_text_of(s: Seq<char>) -> Seq<char> {
    seq!['"'] + json_escaped(s) + seq!['"']
}

/// Relies on `serde_json::to_string` on a `str`: it writes the string,
/// escaped by its `ESCAPE` table, between quotes into a `Vec<u8>`, which
/// cannot fail.
#[verifier::external_body]
fn json_string(s: &str) -> (r: Result<String, serde_json::Error>)
    ensures
        r is Ok,
        r matches Ok(t) ==> t@ == json_text_of(s@),
{
    serde_json::to_string(s)
}

/// The RFC 3339 text of a representable instant.
pub open spec fn time_text(micros: i64) -> Seq<char> {
    match rfc3339_of(micros) {
        Some(t) => t,
        None => Seq::empty(),
    }
}

/// The items, separated by `sep`.
pub open spec fn joined(items: Seq<Seq<char>>, sep: Seq<char>) -> Seq<char>
    decreases items.len(),
{
    if items.len() == 0 {
        Seq::empty()
    } else if items.len() == 1 {
        items[0]
    } else {
        joined(items.drop_last(), sep) + sep + items.last()
    }
}

/// The tags of a record as a JSON array nested one level in the export:
/// `[]` where there are none, else one string per line.
pub open spec fn tags_json(p: PRD) -> Seq<char> {
    if p.tags@.len() == 0 {
        "[]"@
    } else {
        "[\n      "@ + joined(
            p.tags_view().map_values(|t: Seq<char>| json_text_of(t)),
            ",\n      "@,
        ) + "\n    ]"@
    }
}

/// The JSON object of one record, laid out as an element of the exported
/// array: one field per line, indented by four spaces.
pub open spec fn record_json(p: PRD) -> Seq<char> {
    "{\n    \"id\": "@ + json_text_of(p.id@) + ",\n    \"title\": "@ + json_text_of(p.title@)
        + ",\n    \"description\": "@ + json_text_of(p.description@) + ",\n    \"author\": "@
        + json_text_of(p.author@) + ",\n    \"status\": \""@ + p.status.label_spec()
        + "\",\n    \"priority\": \""@ + p.priority.label_spec() + "\",\n    \"created_at\": "@
        + json_text_of(time_text(p.created_at)) + ",\n    \"updated_at\": "@
        + json_text_of(time_text(p.updated_at)) + ",\n    \"completion_percentage\": "@
        + decimal(p.completion_percentage as nat) + ",\n    \"tags\": "@ + tags_json(p)
        + "\n  }"@
}

/// The JSON array of the records, in order, laid out as serde_json's pretty
/// printer lays it out: `[]` where there are none, else one object after
/// another, indented by two spaces.
pub open spec fn export_text(records: Seq<PRD>) -> Seq<char> {
    if records.len() == 0 {
        "[]"@
    } else {
        "[\n  "@ + joined(records.map_values(|p: PRD| record_json(p)), ",\n  "@) + "\n]"@
    }
}

proof fn lemma_joined_step(items: Seq<Seq<char>>, sep: Seq<char>, i: int)
    requires
        0 <= i < items.len(),
    ensures
        joined(items.subrange(0, i + 1), sep) == if i == 0 {
            items[0]
        } else {
            joined(items.subrange(0, i), sep) + sep + items[i]
        },
{
    assert(items.subrange(0, i + 1).drop_last() =~= items.subrange(0, i));
}

/// Appends the JSON string literal of `s`.
fn push_json_string(out: &mut String, s: &str) -> (r: Result<(), serde_json::Error>)
    ensures
        r is Ok,
        final(out)@ == old(out)@ + json_text_of(s@),
{
    match json_string(s) {
        Ok(t) => {
            out.append(t.as_str());
            Ok(())
        },
        Err(e) => Err(e),
    }
}

/// Writes one record as a JSON object.
pub fn record_to_json(p: &PRD) -> (r: Result<String, serde_json::Error>)
    requires
        p.wf(),
    ensures
        r is Ok,
        r matches Ok(t) ==> t@ == record_json(*p),
{
    let mut out = String::from_str("{\n    \"id\": ");
    if let Err(e) = push_json_string(&mut out, p.id.as_str()) {
        return Err(e);
    }
    out.append(",\n    \"title\": ");
    if let Err(e) = push_json_string(&mut out, p.title.as_str()) {
        return Err(e);
    }
    out.append(",\n    \"description\": ");
    if let Err(e) = push_json_string(&mut out, p.description.as_str()) {
        return Err(e);
    }
    out.append(",\n    \"author\": ");
    if let Err(e) = push_json_string(&mut out, p.author.as_str()) {
        return Err(e);
    }
    out.append(",\n    \"status\": \"");
    let status = p.status.label();
    out.append(status.as_str());
    out.append("\",\n    \"priority\": \"");
    let priority = p.priority.label();
    out.append(priority.as_str());
    out.append("\",\n    \"created_at\": ");
    let created = match rfc3339_text(p.created_at) {
        Some(t) => t,
        None => String::new(),
    };
    if let Err(e) = push_json_string(&mut out, created.as_str()) {
        return Err(e);
    }
    out.append(",\n    \"updated_at\": ");
    let updated = match rfc3339_text(p.updated_at) {
        Some(t) => t,
        None => String::new(),
    };
    if let Err(e) = push_json_string(&mut out, updated.as_str()) {
        return Err(e);
    }
    out.append(",\n    \"completion_percentage\": ");
    let completion = decimal_text(p.completion_percentage);
    out.append(completion.as_str());
    out.append(",\n    \"tags\": ");
    if p.tags.len() == 0 {
        out.append("[]");
    } else {
        out.append("[\n      ");
        let ghost head = out@;
        let ghost items = p.tags_view().map_values(|t: Seq<char>| json_text_of(t));
        let mut i: usize = 0;
        while i < p.tags.len()
            invariant
                i <= p.tags@.len(),
                items == p.tags_view().map_values(|t: Seq<char>| json_text_of(t)),
                out@ == head + joined(items.subrange(0, i as int), ",\n      "@),
            decreases p.tags@.len() - i,
        {
            proof {
                lemma_joined_step(items, ",\n      "@, i as int);
            }
            if i > 0 {
                out.append(",\n      ");
            }
            if let Err(e) = push_json_string(&mut out, p.tags[i].as_str()) {
                return Err(e);
            }
            proof {
                assert(items[i as int] == json_text_of(p.tags@[i as int]@));
            }
            i = i + 1;
        }
        assert(items.subrange(0, i as int) =~= items);
        out.append("\n    ]");
    }
    out.append("\n  }");
    Ok(out)
}

/// Writes the records as a JSON array of objects, in order.
pub fn export_records(records: &[PRD]) -> (r: Result<String, serde_json::Error>)
    requires
        forall|i: int| 0 <= i < records@.len() ==> (#[trigger] records@[i]).wf(),
    ensures
        r is Ok,
        r matches Ok(t) ==> t@ == export_text(records@),
{
    if records.len() == 0 {
        return Ok(String::from_str("[]"));
    }
    let mut out = String::from_str("[\n  ");
    let ghost items = records@.map_values(|p: PRD| record_json(p));
    let mut i: usize = 0;
    while i < records.len()
        invariant
            i <= records@.len(),
            forall|j: int| 0 <= j < records@.len() ==> (#[trigger] records@[j]).wf(),
            items == records@.map_values(|p: PRD| record_json(p)),
            out@ == "[\n  "@ + joined(items.subrange(0, i as int), ",\n  "@),
        decreases records@.len() - i,
    {
        proof {
            lemma_joined_step(items, ",\n  "@, i as int);
        }
        if i > 0 {
            out.append(",\n  ");
        }
        match record_to_json(&records[i]) {
            Ok(t) => out.append(t.as_str()),
            Err(e) => return Err(e),
        }
        i = i + 1;
    }
    assert(items.subrange(0, i as int) =~= items);
    out.append("\n]");
    Ok(out)
}

} // verus!
