use crate::metadata::{MetaValue, SimpleDate};
use crate::numeric::dec_str;
use crate::retrieval::dec_str_i64;
use vstd::prelude::*;
use vstd::string::StringExecFns;

verus! {

// Assembly of the answer-synthesis request: each retrieved chunk is
// rendered with its document's metadata into one context block, and the
// user content pairs that context with the question.

/// `w` zero characters.
pub open spec fn zeros(w: int) -> Seq<char>
    decreases w,
{
    if w <= 0 {
        Seq::empty()
    } else {
        zeros(w - 1).push('0')
    }
}

/// The decimal rendering of `n`, left-padded with zeros to width `w`.
pub open spec fn zero_padded(n: int, w: int) -> Seq<char> {
    if dec_str(n).len() >= w {
        dec_str(n)
    } else {
        zeros(w - dec_str(n).len() as int) + dec_str(n)
    }
}

/// Renders a number zero-padded to the given width.
pub fn pad_number(n: u64, w: usize) -> (r: Vec<char>)
    ensures
        r@ == zero_padded(n as int, w as int),
{
    let digits = crate::numeric::u64_to_dec(n);
    if digits.len() >= w {
        proof {
            assert(digits@ == zero_padded(n as int, w as int));
        }
        return digits;
    }
    let mut out: Vec<char> = Vec::new();
    let mut i: usize = 0;
    let fill = w - digits.len();
    while i < fill
        invariant
            0 <= i <= fill,
            out@ == zeros(i as int),
        decreases fill - i,
    {
        out.push('0');
        i = i + 1;
    }
    let mut j: usize = 0;
    while j < digits.len()
        invariant
            0 <= j <= digits@.len(),
            out@ == zeros(fill as int) + digits@.take(j as int),
        decreases digits@.len() - j,
    {
        out.push(digits[j]);
        proof {
            assert(zeros(fill as int) + digits@.take(j + 1) =~= (zeros(fill as int)
                + digits@.take(j as int)).push(digits@[j as int]));
        }
        j = j + 1;
    }
    proof {
        assert(digits@.take(digits@.len() as int) =~= digits@);
    }
    out
}

/// A date in `YYYY-MM-DD` form; a negative year carries a leading minus.
pub open spec fn spec_date_iso(d: SimpleDate) -> Seq<char> {
    (if d.year >= 0 {
        zero_padded(d.year as int, 4)
    } else {
        seq!['-'] + zero_padded(-(d.year as int), 4)
    }) + seq!['-'] + zero_padded(d.month as int, 2) + seq!['-'] + zero_padded(d.day as int, 2)
}

/// Renders a date in `YYYY-MM-DD` form.
pub fn date_iso(d: &SimpleDate) -> (r: String)
    ensures
        r@ == spec_date_iso(*d),
{
    let mut out: Vec<char> = Vec::new();
    if d.year >= 0 {
        let y = pad_number(d.year as u64, 4);
        let mut i: usize = 0;
        while i < y.len()
            invariant
                0 <= i <= y@.len(),
                out@ == y@.take(i as int),
            decreases y@.len() - i,
        {
            out.push(y[i]);
            proof {
                assert(y@.take(i + 1) =~= y@.take(i as int).push(y@[i as int]));
            }
            i = i + 1;
        }
        proof {
            assert(y@.take(y@.len() as int) =~= y@);
        }
    } else {
        out.push('-');
        let m: u64 = if d.year == i32::MIN {
            0x8000_0000u64
        } else {
            (-d.year) as u64
        };
        let y = pad_number(m, 4);
        let mut i: usize = 0;
        while i < y.len()
            invariant
                0 <= i <= y@.len(),
                out@ == seq!['-'] + y@.take(i as int),
            decreases y@.len() - i,
        {
            out.push(y[i]);
            proof {
                assert(seq!['-'] + y@.take(i + 1) =~= (seq!['-'] + y@.take(i as int)).push(
                    y@[i as int],
                ));
            }
            i = i + 1;
        }
        proof {
            assert(y@.take(y@.len() as int) =~= y@);
        }
    }
    out.push('-');
    let mo = pad_number(d.month as u64, 2);
    let mut i: usize = 0;
    let ghost head = out@;
    while i < mo.len()
        invariant
            0 <= i <= mo@.len(),
            out@ == head + mo@.take(i as int),
        decreases mo@.len() - i,
    {
        out.push(mo[i]);
        proof {
            assert(head + mo@.take(i + 1) =~= (head + mo@.take(i as int)).push(mo@[i as int]));
        }
        i = i + 1;
    }
    proof {
        assert(mo@.take(mo@.len() as int) =~= mo@);
    }
    out.push('-');
    let da = pad_number(d.day as u64, 2);
    let mut j: usize = 0;
    let ghost head2 = out@;
    while j < da.len()
        invariant
            0 <= j <= da@.len(),
            out@ == head2 + da@.take(j as int),
        decreases da@.len() - j,
    {
        out.push(da[j]);
        proof {
            assert(head2 + da@.take(j + 1) =~= (head2 + da@.take(j as int)).push(da@[j as int]));
        }
        j = j + 1;
    }
    proof {
        assert(da@.take(da@.len() as int) =~= da@);
        assert(out@ =~= spec_date_iso(*d));
    }
    crate::strutil::string_from_chars(&out)
}

/// How a stored typed value reads in an answer context.
pub open spec fn spec_rendered_value(v: MetaValue) -> Seq<char> {
    match v {
        MetaValue::Text(s) => s@,
        MetaValue::Integer(n) => dec_str_i64(n as int),
        MetaValue::Number(s) => s@,
        MetaValue::Boolean(b) => if b {
            "true"@
        } else {
            "false"@
        },
        MetaValue::Date(d) => spec_date_iso(d),
    }
}

/// Renders a typed metadata value as answer-context text.
pub fn render_meta_value(v: &MetaValue) -> (r: String)
    ensures
        r@ == spec_rendered_value(*v),
{
    match v {
        MetaValue::Text(s) => s.clone(),
        MetaValue::Integer(n) => {
            let d = crate::retrieval::i64_to_dec(*n as i64);
            crate::strutil::string_from_chars(&d)
        },
        MetaValue::Number(s) => s.clone(),
        MetaValue::Boolean(b) => if *b {
            String::from_str("true")
        } else {
            String::from_str("false")
        },
        MetaValue::Date(d) => date_iso(d),
    }
}

/// One metadata line of a context block.
pub open spec fn spec_meta_line(name: Seq<char>, v: MetaValue) -> Seq<char> {
    name + ": "@ + spec_rendered_value(v)
}

/// Renders one `name: value` metadata line.
pub fn meta_line(name: &str, v: &MetaValue) -> (r: String)
    ensures
        r@ == spec_meta_line(name@, *v),
{
    let mut out = String::from_str(name);
    out.append(": ");
    let val = render_meta_value(v);
    out.append(val.as_str());
    out
}

/// Parts joined with a separator.
pub open spec fn spec_joined(parts: Seq<Seq<char>>, sep: Seq<char>) -> Seq<char>
    decreases parts.len(),
{
    if parts.len() == 0 {
        Seq::empty()
    } else if parts.len() == 1 {
        parts[0]
    } else {
        spec_joined(parts.drop_last(), sep) + sep + parts.last()
    }
}

/// Joins strings with a separator.
pub fn join_with(parts: &Vec<String>, sep: &str) -> (r: String)
    ensures
        r@ == spec_joined(parts@.map_values(|p: String| p@), sep@),
{
    let mut out = String::new();
    let mut i: usize = 0;
    while i < parts.len()
        invariant
            0 <= i <= parts@.len(),
            out@ == spec_joined(parts@.map_values(|p: String| p@).take(i as int), sep@),
        decreases parts@.len() - i,
    {
        if i > 0 {
            out.append(sep);
        }
        out.append(parts[i].as_str());
        proof {
            let all = parts@.map_values(|p: String| p@);
            assert(all.take(i + 1).drop_last() =~= all.take(i as int));
            assert(all.take(i + 1).last() == all[i as int]);
            if i == 0 {
                assert(out@ =~= spec_joined(all.take(1), sep@));
            }
        }
        i = i + 1;
    }
    proof {
        let all = parts@.map_values(|p: String| p@);
        assert(all.take(all.len() as int) =~= all);
    }
    out
}

/// One retrieved chunk rendered for the answer context: the document's
/// name, its metadata lines, and the chunk's text.
pub open spec fn spec_context_block(
    doc_name: Seq<char>,
    meta_block: Seq<char>,
    content: Seq<char>,
) -> Seq<char> {
    "Document: "@ + doc_name + "\nMetadata:\n"@ + meta_block + "\nContent: "@ + content
}

/// Renders one chunk's context block.
pub fn context_block(doc_name: &str, meta_block: &str, content: &str) -> (r: String)
    ensures
        r@ == spec_context_block(doc_name@, meta_block@, content@),
{
    let mut out = String::from_str("Document: ");
    out.append(doc_name);
    out.append("\nMetadata:\n");
    out.append(meta_block);
    out.append("\nContent: ");
    out.append(content);
    out
}

/// The user content of the answer request: the context, then the
/// question.
pub open spec fn spec_chat_user_content(context: Seq<char>, question: Seq<char>) -> Seq<char> {
    "Context: "@ + context + "\n\nQuestion: "@ + question
}

/// Builds the user content of the answer request.
pub fn chat_user_content(context: &str, question: &str) -> (r: String)
    ensures
        r@ == spec_chat_user_content(context@, question@),
{
    let mut out = String::from_str("Context: ");
    out.append(context);
    out.append("\n\nQuestion: ");
    out.append(question);
    out
}

} // verus!
