use crate::numeric::{
    all_digits, digits_value, int_literal_value, is_decimal_literal, is_int_literal,
};
use crate::strutil::{is_digit, lower_chars, trim_spec};
use vstd::prelude::*;
use vstd::string::StringExecFns;

verus! {

// Typed metadata extraction: each configured field declares one of five
// value types; the raw text that the completion service returns is
// validated and coerced to that type, or rejected.  This module holds the
// declared types, the typed values, the coercion rules, and the prompt
// construction used to ask for a field's value.

/// The declared value type of a metadata field.
#[derive(Debug, Clone, Copy, PartialEq, Eq, Structural)]
pub enum MetaType {
    Text,
    Integer,
    Number,
    Boolean,
    Date,
}

/// A calendar date as plain day, month and year numbers.
#[derive(Debug, Clone, Copy, PartialEq, Eq, Structural)]
pub struct SimpleDate {
    pub day: u32,
    pub month: u32,
    pub year: i32,
}

/// A typed metadata value: exactly one variant, selected by the field's
/// declared type.  A number keeps its cleaned decimal text, so no
/// floating-point value lives in the library.
#[derive(Debug, Clone, PartialEq, Eq)]
pub enum MetaValue {
    Text(String),
    Integer(i32),
    Number(String),
    Boolean(bool),
    Date(SimpleDate),
}

/// Whether `y` is a leap year in the Gregorian calendar.
pub open spec fn is_leap_year(y: int) -> bool {
    y % 4 == 0 && (y % 100 != 0 || y % 400 == 0)
}

/// Days in month `m` of year `y`.
pub open spec fn days_in_month(m: int, y: int) -> int {
    if m == 2 {
        if is_leap_year(y) {
            29
        } else {
            28
        }
    } else if m == 4 || m == 6 || m == 9 || m == 11 {
        30
    } else {
        31
    }
}

/// A real calendar date within the accepted year range.
pub open spec fn spec_date_valid(d: int, m: int, y: int) -> bool {
    1900 <= y <= 2100 && 1 <= m <= 12 && 1 <= d <= days_in_month(m, y)
}

/// Checks day, month and year for a real calendar date in the accepted
/// year range.
pub fn date_valid(d: u32, m: u32, y: i32) -> (r: bool)
    ensures
        r == spec_date_valid(d as int, m as int, y as int),
{
    if !(1900 <= y && y <= 2100) {
        return false;
    }
    if !(1 <= m && m <= 12) {
        return false;
    }
    let dim: u32 = if m == 2 {
        if y % 4 == 0 && (y % 100 != 0 || y % 400 == 0) {
            29
        } else {
            28
        }
    } else if m == 4 || m == 6 || m == 9 || m == 11 {
        30
    } else {
        31
    };
    1 <= d && d <= dim
}

/// A `/`-separated part holds an unsigned number after trimming.
pub open spec fn u32_part_ok(p: Seq<char>) -> bool {
    trim_spec(p).len() > 0 && all_digits(trim_spec(p)) && digits_value(trim_spec(p)) <= u32::MAX
}

/// A `/`-separated part holds a signed number after trimming.
pub open spec fn i32_part_ok(p: Seq<char>) -> bool {
    is_int_literal(trim_spec(p)) && i32::MIN <= int_literal_value(trim_spec(p)) <= i32::MAX
}

/// Whether `s` splits into exactly three parsable day/month/year parts.
pub open spec fn date_parts_ok(s: Seq<char>) -> bool {
    crate::strutil::split_on(s, '/').len() == 3 && u32_part_ok(crate::strutil::split_on(s, '/')[0])
        && u32_part_ok(crate::strutil::split_on(s, '/')[1]) && i32_part_ok(
        crate::strutil::split_on(s, '/')[2],
    )
}

/// The date denoted by a `DD/MM/YYYY` string, when its three parts parse
/// and form a real calendar date in range.
pub open spec fn spec_parse_date(s: Seq<char>) -> Option<SimpleDate> {
    if date_parts_ok(s) {
        let d = digits_value(trim_spec(crate::strutil::split_on(s, '/')[0]));
        let m = digits_value(trim_spec(crate::strutil::split_on(s, '/')[1]));
        let y = int_literal_value(trim_spec(crate::strutil::split_on(s, '/')[2]));
        if spec_date_valid(d, m, y) {
            Some(SimpleDate { day: d as u32, month: m as u32, year: y as i32 })
        } else {
            Option::None
        }
    } else {
        Option::None
    }
}

/// Parses a `DD/MM/YYYY` string: exactly three `/`-separated parts, each
/// numeric after trimming, forming a real calendar date in range.
pub fn parse_date(raw: &Vec<char>) -> (r: Option<SimpleDate>)
    ensures
        r == spec_parse_date(raw@),
{
    let parts = crate::strutil::split_chars(raw, '/');
    proof {
        assert(parts@.map_values(|p: Vec<char>| p@).len() == parts@.len());
        assert(parts@.len() == crate::strutil::split_on(raw@, '/').len());
    }
    if parts.len() != 3 {
        return Option::None;
    }
    proof {
        assert(parts@[0]@ == crate::strutil::split_on(raw@, '/')[0]);
        assert(parts@[1]@ == crate::strutil::split_on(raw@, '/')[1]);
        assert(parts@[2]@ == crate::strutil::split_on(raw@, '/')[2]);
    }
    let p0 = crate::strutil::trim_chars(&parts[0]);
    let p1 = crate::strutil::trim_chars(&parts[1]);
    let p2 = crate::strutil::trim_chars(&parts[2]);
    let day = match crate::numeric::parse_u32(&p0) {
        Some(d) => d,
        Option::None => {
            return Option::None;
        },
    };
    let month = match crate::numeric::parse_u32(&p1) {
        Some(m) => m,
        Option::None => {
            return Option::None;
        },
    };
    let year = match crate::numeric::parse_i32(&p2) {
        Some(y) => y,
        Option::None => {
            return Option::None;
        },
    };
    if date_valid(day, month, year) {
        Some(SimpleDate { day, month, year })
    } else {
        Option::None
    }
}

/// A `-`-separated part of an ISO date: plain digits.
pub open spec fn iso_part_ok(p: Seq<char>) -> bool {
    p.len() > 0 && all_digits(p) && digits_value(p) <= u32::MAX
}

/// The date denoted by a `YYYY-MM-DD` string, when its three digit parts
/// form a real calendar date in the accepted year range.
pub open spec fn spec_parse_date_iso(s: Seq<char>) -> Option<SimpleDate> {
    if crate::strutil::split_on(s, '-').len() == 3 && iso_part_ok(
        crate::strutil::split_on(s, '-')[0],
    ) && iso_part_ok(crate::strutil::split_on(s, '-')[1]) && iso_part_ok(
        crate::strutil::split_on(s, '-')[2],
    ) {
        let y = digits_value(crate::strutil::split_on(s, '-')[0]);
        let m = digits_value(crate::strutil::split_on(s, '-')[1]);
        let d = digits_value(crate::strutil::split_on(s, '-')[2]);
        if spec_date_valid(d, m, y) {
            Some(SimpleDate { day: d as u32, month: m as u32, year: y as i32 })
        } else {
            Option::None
        }
    } else {
        Option::None
    }
}

/// Reads a date from its `YYYY-MM-DD` text form — the form in which
/// stored date values travel — rejecting anything that is not a real
/// calendar date in the accepted year range.
pub fn parse_date_iso(raw: &str) -> (r: Option<SimpleDate>)
    ensures
        r == spec_parse_date_iso(raw@),
{
    let cs = crate::strutil::chars_of(raw);
    let parts = crate::strutil::split_chars(&cs, '-');
    proof {
        assert(parts@.map_values(|p: Vec<char>| p@).len() == parts@.len());
        assert(parts@.len() == crate::strutil::split_on(raw@, '-').len());
    }
    if parts.len() != 3 {
        return Option::None;
    }
    proof {
        assert(parts@[0]@ == crate::strutil::split_on(raw@, '-')[0]);
        assert(parts@[1]@ == crate::strutil::split_on(raw@, '-')[1]);
        assert(parts@[2]@ == crate::strutil::split_on(raw@, '-')[2]);
    }
    let year = match crate::numeric::parse_u32(&parts[0]) {
        Some(y) => y,
        Option::None => {
            return Option::None;
        },
    };
    let month = match crate::numeric::parse_u32(&parts[1]) {
        Some(m) => m,
        Option::None => {
            return Option::None;
        },
    };
    let day = match crate::numeric::parse_u32(&parts[2]) {
        Some(d) => d,
        Option::None => {
            return Option::None;
        },
    };
    if year > 2100 {
        return Option::None;
    }
    if date_valid(day, month, year as i32) {
        Some(SimpleDate { day, month, year: year as i32 })
    } else {
        Option::None
    }
}

/// The characters kept when cleaning a raw answer for integer parsing:
/// digits and the minus sign.
pub open spec fn kept_int_chars(s: Seq<char>) -> Seq<char>
    decreases s.len(),
{
    if s.len() == 0 {
        Seq::empty()
    } else if is_digit(s.last()) || s.last() == '-' {
        kept_int_chars(s.drop_last()).push(s.last())
    } else {
        kept_int_chars(s.drop_last())
    }
}

/// The characters kept when cleaning a raw answer for number parsing:
/// digits, the minus sign and the decimal point.
pub open spec fn kept_num_chars(s: Seq<char>) -> Seq<char>
    decreases s.len(),
{
    if s.len() == 0 {
        Seq::empty()
    } else if is_digit(s.last()) || s.last() == '-' || s.last() == '.' {
        kept_num_chars(s.drop_last()).push(s.last())
    } else {
        kept_num_chars(s.drop_last())
    }
}

fn clean_int_chars(s: &Vec<char>) -> (r: Vec<char>)
    ensures
        r@ == kept_int_chars(s@),
{
    let mut out: Vec<char> = Vec::new();
    let mut i: usize = 0;
    while i < s.len()
        invariant
            0 <= i <= s@.len(),
            out@ == kept_int_chars(s@.take(i as int)),
        decreases s@.len() - i,
    {
        let c = s[i];
        let u = c as u32;
        proof {
            assert(s@.take(i + 1).drop_last() =~= s@.take(i as int));
            assert(s@.take(i + 1).last() == s@[i as int]);
        }
        if (48 <= u && u <= 57) || c == '-' {
            out.push(c);
        }
        i = i + 1;
    }
    proof {
        assert(s@.take(s@.len() as int) =~= s@);
    }
    out
}

fn clean_num_chars(s: &Vec<char>) -> (r: Vec<char>)
    ensures
        r@ == kept_num_chars(s@),
{
    let mut out: Vec<char> = Vec::new();
    let mut i: usize = 0;
    while i < s.len()
        invariant
            0 <= i <= s@.len(),
            out@ == kept_num_chars(s@.take(i as int)),
        decreases s@.len() - i,
    {
        let c = s[i];
        let u = c as u32;
        proof {
            assert(s@.take(i + 1).drop_last() =~= s@.take(i as int));
            assert(s@.take(i + 1).last() == s@[i as int]);
        }
        if (48 <= u && u <= 57) || c == '-' || c == '.' {
            out.push(c);
        }
        i = i + 1;
    }
    proof {
        assert(s@.take(s@.len() as int) =~= s@);
    }
    out
}

/// A raw answer that reports no value, compared without regard to case.
pub open spec fn is_not_found(s: Seq<char>) -> bool {
    lower_chars(s) == "not found"@
}

/// Lower-case answers accepted as the boolean true.
pub open spec fn is_truthy(l: Seq<char>) -> bool {
    l == "true"@ || l == "yes"@ || l == "1"@
}

fn lowered(raw: &str) -> (r: Vec<char>)
    ensures
        r@ == lower_chars(raw@),
{
    let cs = crate::strutil::chars_of(raw);
    crate::strutil::to_lower(&cs)
}

fn matches_not_found(raw: &str) -> (r: bool)
    ensures
        r == is_not_found(raw@),
{
    let l = lowered(raw);
    let pat = crate::strutil::chars_of("not found");
    crate::strutil::chars_eq(&l, &pat)
}

/// Validates and coerces a raw completion answer against a field's
/// declared type.  "Not found" answers and failed parses yield no value;
/// an unrecognised boolean answer falls back to `false` explicitly.
/// On which raw answers a declared type yields a value: booleans always
/// do, the others reject "not found", the numeric sentinel, and anything
/// their parse refuses.
pub open spec fn spec_coerce_some(raw: Seq<char>, ty: MetaType) -> bool {
    match ty {
        MetaType::Text => !is_not_found(raw),
        MetaType::Integer => !is_not_found(raw) && raw != "-1"@ && is_int_literal(
            kept_int_chars(raw),
        ) && i32::MIN <= int_literal_value(kept_int_chars(raw)) <= i32::MAX,
        MetaType::Number => !is_not_found(raw) && raw != "-1"@ && is_decimal_literal(
            kept_num_chars(raw),
        ),
        MetaType::Boolean => true,
        MetaType::Date => !is_not_found(raw) && spec_parse_date(raw) is Some,
    }
}

/// Which typed value a raw answer coerces to, when one is produced.
pub open spec fn spec_value_matches(raw: Seq<char>, ty: MetaType, v: MetaValue) -> bool {
    match ty {
        MetaType::Text => v matches MetaValue::Text(t) && t@ == raw,
        MetaType::Integer => v matches MetaValue::Integer(n) && n == int_literal_value(
            kept_int_chars(raw),
        ),
        MetaType::Number => v matches MetaValue::Number(t) && t@ == kept_num_chars(raw),
        MetaType::Boolean => v == MetaValue::Boolean(is_truthy(lower_chars(raw))),
        MetaType::Date => v matches MetaValue::Date(d) && Some(d) == spec_parse_date(raw),
    }
}

pub fn coerce(raw: &str, ty: MetaType) -> (r: Option<MetaValue>)
    ensures
        r is Some <==> spec_coerce_some(raw@, ty),
        r matches Some(v) ==> spec_value_matches(raw@, ty, v),
{
    match ty {
        MetaType::Text => {
            if matches_not_found(raw) {
                Option::None
            } else {
                Some(MetaValue::Text(String::from_str(raw)))
            }
        },
        MetaType::Integer => {
            if matches_not_found(raw) || crate::strutil::str_eq(raw, "-1") {
                Option::None
            } else {
                let cs = crate::strutil::chars_of(raw);
                let cleaned = clean_int_chars(&cs);
                match crate::numeric::parse_i32(&cleaned) {
                    Some(v) => Some(MetaValue::Integer(v)),
                    Option::None => Option::None,
                }
            }
        },
        MetaType::Number => {
            if matches_not_found(raw) || crate::strutil::str_eq(raw, "-1") {
                Option::None
            } else {
                let cs = crate::strutil::chars_of(raw);
                let cleaned = clean_num_chars(&cs);
                if crate::numeric::is_decimal(&cleaned) {
                    Some(MetaValue::Number(crate::strutil::string_from_chars(&cleaned)))
                } else {
                    Option::None
                }
            }
        },
        MetaType::Boolean => {
            let l = lowered(raw);
            let t = crate::strutil::chars_of("true");
            let y = crate::strutil::chars_of("yes");
            let one = crate::strutil::chars_of("1");
            let truthy = crate::strutil::chars_eq(&l, &t) || crate::strutil::chars_eq(&l, &y)
                || crate::strutil::chars_eq(&l, &one);
            Some(MetaValue::Boolean(truthy))
        },
        MetaType::Date => {
            if matches_not_found(raw) {
                Option::None
            } else {
                let cs = crate::strutil::chars_of(raw);
                match parse_date(&cs) {
                    Some(d) => Some(MetaValue::Date(d)),
                    Option::None => Option::None,
                }
            }
        },
    }
}

/// The declared type named by a field definition, compared without regard
/// to case; anything unrecognised counts as text.
pub open spec fn spec_meta_type_of(l: Seq<char>) -> MetaType {
    if l == "string"@ {
        MetaType::Text
    } else if l == "integer"@ {
        MetaType::Integer
    } else if l == "number"@ {
        MetaType::Number
    } else if l == "boolean"@ {
        MetaType::Boolean
    } else if l == "date"@ {
        MetaType::Date
    } else {
        MetaType::Text
    }
}

/// Reads a field's declared type from its stored name.
pub fn meta_type_from_name(name: &str) -> (r: MetaType)
    ensures
        r == spec_meta_type_of(lower_chars(name@)),
{
    let l = lowered(name);
    if crate::strutil::chars_eq(&l, &crate::strutil::chars_of("string")) {
        MetaType::Text
    } else if crate::strutil::chars_eq(&l, &crate::strutil::chars_of("integer")) {
        MetaType::Integer
    } else if crate::strutil::chars_eq(&l, &crate::strutil::chars_of("number")) {
        MetaType::Number
    } else if crate::strutil::chars_eq(&l, &crate::strutil::chars_of("boolean")) {
        MetaType::Boolean
    } else if crate::strutil::chars_eq(&l, &crate::strutil::chars_of("date")) {
        MetaType::Date
    } else {
        MetaType::Text
    }
}

/// The stored name of a declared type.
pub open spec fn spec_type_name(ty: MetaType) -> Seq<char> {
    match ty {
        MetaType::Text => "STRING"@,
        MetaType::Integer => "INTEGER"@,
        MetaType::Number => "NUMBER"@,
        MetaType::Boolean => "BOOLEAN"@,
        MetaType::Date => "DATE"@,
    }
}

/// Renders a declared type under its stored name.
pub fn name_of_type(ty: MetaType) -> (r: String)
    ensures
        r@ == spec_type_name(ty),
{
    match ty {
        MetaType::Text => String::from_str("STRING"),
        MetaType::Integer => String::from_str("INTEGER"),
        MetaType::Number => String::from_str("NUMBER"),
        MetaType::Boolean => String::from_str("BOOLEAN"),
        MetaType::Date => String::from_str("DATE"),
    }
}

/// The typed value column that a declared type selects.
pub open spec fn spec_column_name(ty: MetaType) -> Seq<char> {
    match ty {
        MetaType::Text => "metadata_value_string"@,
        MetaType::Integer => "metadata_value_int"@,
        MetaType::Number => "metadata_value_float"@,
        MetaType::Boolean => "metadata_value_boolean"@,
        MetaType::Date => "metadata_value_date"@,
    }
}

/// Names the single value column matching a declared type.
pub fn column_for_type(ty: MetaType) -> (r: String)
    ensures
        r@ == spec_column_name(ty),
{
    match ty {
        MetaType::Text => String::from_str("metadata_value_string"),
        MetaType::Integer => String::from_str("metadata_value_int"),
        MetaType::Number => String::from_str("metadata_value_float"),
        MetaType::Boolean => String::from_str("metadata_value_boolean"),
        MetaType::Date => String::from_str("metadata_value_date"),
    }
}

/// The expected-output hint derived from a declared type.
pub open spec fn spec_hint_for(ty: MetaType) -> Seq<char> {
    match ty {
        MetaType::Date => "date in DD/MM/YYYY format"@,
        MetaType::Number => "number (no currency symbol)"@,
        MetaType::Integer => "number as an integer"@,
        MetaType::Boolean => "'true' or 'false'"@,
        MetaType::Text => "value"@,
    }
}

/// The expected-output hint a prompt carries for a declared type.
pub fn hint_for(ty: MetaType) -> (r: String)
    ensures
        r@ == spec_hint_for(ty),
{
    match ty {
        MetaType::Date => String::from_str("date in DD/MM/YYYY format"),
        MetaType::Number => String::from_str("number (no currency symbol)"),
        MetaType::Integer => String::from_str("number as an integer"),
        MetaType::Boolean => String::from_str("'true' or 'false'"),
        MetaType::Text => String::from_str("value"),
    }
}

/// The extraction prompt before the document context is filled in: the
/// `{text}` marker stands where the context will go.
pub open spec fn spec_prompt_template(desc: Seq<char>, ty: MetaType) -> Seq<char> {
    "You are an expert document analyzer. Extract the "@ + desc
        + " from this text. Return ONLY the "@ + spec_hint_for(ty)
        + " or 'Not found' if it cannot be determined. Text: "@ + "{text}"@
}

/// The extraction prompt with the gathered context in place of the
/// `{text}` marker.
pub open spec fn spec_prompt_filled(desc: Seq<char>, ty: MetaType, context: Seq<char>) -> Seq<
    char,
> {
    "You are an expert document analyzer. Extract the "@ + desc
        + " from this text. Return ONLY the "@ + spec_hint_for(ty)
        + " or 'Not found' if it cannot be determined. Text: "@ + context
}

/// Builds the prompt template recorded for an extraction attempt.
pub fn build_prompt_template(description: &str, ty: MetaType) -> (r: String)
    ensures
        r@ == spec_prompt_template(description@, ty),
{
    let mut out = String::from_str("You are an expert document analyzer. Extract the ");
    out.append(description);
    out.append(" from this text. Return ONLY the ");
    let hint = hint_for(ty);
    out.append(hint.as_str());
    out.append(" or 'Not found' if it cannot be determined. Text: ");
    out.append("{text}");
    out
}

/// Builds the prompt actually sent: the template with the context in
/// place of the marker.
pub fn build_prompt(description: &str, ty: MetaType, context: &str) -> (r: String)
    ensures
        r@ == spec_prompt_filled(description@, ty, context@),
{
    let mut out = String::from_str("You are an expert document analyzer. Extract the ");
    out.append(description);
    out.append(" from this text. Return ONLY the ");
    let hint = hint_for(ty);
    out.append(hint.as_str());
    out.append(" or 'Not found' if it cannot be determined. Text: ");
    out.append(context);
    out
}

/// The gathered context: every chunk's text, each introduced by a section
/// marker.
pub open spec fn spec_context_of(chunks: Seq<Seq<char>>) -> Seq<char>
    decreases chunks.len(),
{
    if chunks.len() == 0 {
        Seq::empty()
    } else {
        spec_context_of(chunks.drop_last()) + "\n\n---SECTION---\n\n"@ + chunks.last()
    }
}

/// Concatenates retrieved chunk texts into one extraction context,
/// separated by section markers.
pub fn build_context(chunks: &Vec<String>) -> (r: String)
    ensures
        r@ == spec_context_of(chunks@.map_values(|c: String| c@)),
{
    let mut out = String::new();
    let mut i: usize = 0;
    while i < chunks.len()
        invariant
            0 <= i <= chunks@.len(),
            out@ == spec_context_of(chunks@.map_values(|c: String| c@).take(i as int)),
        decreases chunks@.len() - i,
    {
        out.append("\n\n---SECTION---\n\n");
        out.append(chunks[i].as_str());
        proof {
            let all = chunks@.map_values(|c: String| c@);
            assert(all.take(i + 1).drop_last() =~= all.take(i as int));
            assert(all.take(i + 1).last() == all[i as int]);
        }
        i = i + 1;
    }
    proof {
        let all = chunks@.map_values(|c: String| c@);
        assert(all.take(all.len() as int) =~= all);
    }
    out
}

/// Confidence reported for values the completion provider extracts: a
/// fixed constant, not a learned score.
pub open spec fn spec_confidence_text() -> Seq<char> {
    "0.95"@
}

/// The provenance comment recorded beside an upserted value.
pub open spec fn spec_comment_for(model: Seq<char>) -> Seq<char> {
    "Extracted by model: "@ + model + ". Confidence: "@ + spec_confidence_text()
}

/// Builds the provenance comment naming the model and its fixed
/// confidence.
pub fn comment_for(model: &str) -> (r: String)
    ensures
        r@ == spec_comment_for(model@),
{
    let mut out = String::from_str("Extracted by model: ");
    out.append(model);
    out.append(". Confidence: ");
    out.append("0.95");
    out
}

} // verus!
