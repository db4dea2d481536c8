//! Normalization of a write request into a pattern map and a total.
//!
//! A request may mix the two counters of the earlier layout, any number of
//! further numeric fields, and an explicit total.

use vstd::prelude::*;
use crate::patterns::PatternMap;
use crate::record::{column_total, Tally};
use crate::text::same_text;

verus! {

/// The value of a request field beyond the named ones, as far as the
/// normalization reads it.
#[derive(Clone, Copy, Debug, PartialEq, Eq, Structural)]
pub enum FieldValue {
    /// A number that is a non-negative integer.
    Unsigned(u64),
    /// Anything else: text, a fraction, a negative number, a list, nothing.
    Other,
}

/// A write request.
pub struct SetRequest {
    pub day: String,
    pub count: Option<u32>,
    pub right_count: Option<u32>,
    /// The fields beyond the named ones, in the order of the request.
    pub patterns: Vec<(String, FieldValue)>,
    pub total_messages: Option<u32>,
    pub secret: Option<String>,
}

/// The field names that never name a pattern.
pub open spec fn is_reserved(name: Seq<char>) -> bool {
    ||| name == "day"@
    ||| name == "total_messages"@
    ||| name == "secret"@
    ||| name == "count"@
    ||| name == "right_count"@
}

/// The pattern name under which the counter `count` is kept.
pub open spec fn count_key() -> Seq<char> {
    "absolutely"@
}

/// The pattern name under which the counter `right_count` is kept.
pub open spec fn right_count_key() -> Seq<char> {
    "right"@
}

/// The patterns that the two earlier counters give, each where it is present.
pub open spec fn legacy_counts(count: Option<u32>, right_count: Option<u32>) -> Map<
    Seq<char>,
    u64,
> {
    let first = match count {
        Some(c) => Map::<Seq<char>, u64>::empty().insert(count_key(), c as u64),
        None => Map::<Seq<char>, u64>::empty(),
    };
    match right_count {
        Some(c) => first.insert(right_count_key(), c as u64),
        None => first,
    }
}

/// The patterns after one more field: a non-negative integer under a name
/// that is not reserved is set as that pattern's count, whatever its size;
/// any other field changes nothing.
pub open spec fn with_field(counts: Map<Seq<char>, u64>, name: Seq<char>, value: FieldValue) -> Map<
    Seq<char>,
    u64,
> {
    match value {
        FieldValue::Unsigned(n) => if is_reserved(name) {
            counts
        } else {
            counts.insert(name, n)
        },
        FieldValue::Other => counts,
    }
}

/// The fields of a request, each name by its characters.
pub open spec fn fields_view(fields: Seq<(String, FieldValue)>) -> Seq<(Seq<char>, FieldValue)> {
    Seq::new(fields.len(), |i: int| (fields[i].0@, fields[i].1))
}

/// The patterns after a sequence of fields, taken in order.
pub open spec fn with_fields(
    counts: Map<Seq<char>, u64>,
    fields: Seq<(Seq<char>, FieldValue)>,
) -> Map<Seq<char>, u64>
    decreases fields.len(),
{
    if fields.len() == 0 {
        counts
    } else {
        with_field(with_fields(counts, fields.drop_last()), fields.last().0, fields.last().1)
    }
}

/// What a request asks to be written: the two earlier counters first, then
/// the further fields over them, and the total, zero where it is omitted.
pub open spec fn normalized(req: SetRequest) -> Tally {
    (
        with_fields(legacy_counts(req.count, req.right_count), fields_view(req.patterns@)),
        column_total(req.total_messages),
    )
}

/// Whether `name` is one of the reserved field names.
pub fn is_reserved_name(name: &str) -> (r: bool)
    ensures
        r == is_reserved(name@),
{
    same_text(name, "day") || same_text(name, "total_messages") || same_text(name, "secret")
        || same_text(name, "count") || same_text(name, "right_count")
}

/// Normalizes a request. Nothing is rejected: a field that is no
/// non-negative integer is passed over.
pub fn normalize(req: &SetRequest) -> (r: (PatternMap, u32))
    ensures
        (r.0@, r.1) == normalized(*req),
{
    let mut counts = PatternMap::new();
    if let Some(c) = req.count {
        counts.insert("absolutely".to_owned(), c as u64);
    }
    if let Some(c) = req.right_count {
        counts.insert("right".to_owned(), c as u64);
    }
    let ghost start = counts@;
    let ghost fields = fields_view(req.patterns@);
    let mut i: usize = 0;
    while i < req.patterns.len()
        invariant
            i <= req.patterns.len(),
            fields == fields_view(req.patterns@),
            counts@ == with_fields(start, fields.take(i as int)),
        decreases req.patterns.len() - i,
    {
        proof {
            let next = fields.take(i + 1);
            assert(next.drop_last() =~= fields.take(i as int));
            assert(next.last() == fields[i as int]);
        }
        let name = &req.patterns[i].0;
        match req.patterns[i].1 {
            FieldValue::Unsigned(n) => {
                if !is_reserved_name(name.as_str()) {
                    counts.insert(name.clone(), n);
                }
            },
            FieldValue::Other => {},
        }
        i += 1;
    }
    proof {
        assert(fields.take(i as int) =~= fields);
    }
    let total_messages = match req.total_messages {
        Some(n) => n,
        None => 0,
    };
    (counts, total_messages)
}

/// A field that is no non-negative integer, or whose name is reserved,
/// leaves the patterns as they were.
pub proof fn lemma_field_passed_over(counts: Map<Seq<char>, u64>, name: Seq<char>, value: FieldValue)
    requires
        value is Other || is_reserved(name),
    ensures
        with_field(counts, name, value) == counts,
{
}

/// A name that neither earlier counter sets, and under which every field is
/// passed over, names no pattern of the result.
pub proof fn lemma_passed_over_name_absent(
    counts: Map<Seq<char>, u64>,
    fields: Seq<(Seq<char>, FieldValue)>,
    name: Seq<char>,
)
    requires
        !counts.contains_key(name),
        forall|i: int|
            0 <= i < fields.len() && (#[trigger] fields[i]).0 == name ==> fields[i].1 is Other
                || is_reserved(name),
    ensures
        !with_fields(counts, fields).contains_key(name),
    decreases fields.len(),
{
    if fields.len() > 0 {
        let rest = fields.drop_last();
        assert forall|i: int| 0 <= i < rest.len() && (#[trigger] rest[i]).0 == name implies rest[i].1 is Other
            || is_reserved(name) by {
            assert(rest[i] == fields[i]);
        }
        lemma_passed_over_name_absent(counts, rest, name);
        assert(fields.last() == fields[fields.len() - 1]);
    }
}

} // verus!
