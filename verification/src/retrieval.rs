use crate::metadata::{spec_column_name, MetaType};
use crate::numeric::{dec_str, is_decimal_literal};
use crate::strutil::{count_char, lower_chars};
use vstd::prelude::*;
use vstd::string::StringExecFns;

verus! {

// The retrieval query build: each request-supplied filter becomes a typed,
// parameter-bound clause; user-controlled values ride only in the
// positional parameter list, never in the SQL text.  A predicate whose
// operator or value does not fit the field's declared type is dropped,
// and the query still runs with the remaining filters.

/// A comparison operator of a metadata predicate.
#[derive(Debug, Clone, Copy, PartialEq, Eq, Structural)]
pub enum FilterOp {
    Equals,
    NotEquals,
    Contains,
    NotContains,
    Greater,
    Less,
    GreaterOrEqual,
    LessOrEqual,
}

/// A request-supplied filter value, as a plain tagged value.  A number
/// arrives as its decimal text.
#[derive(Debug, Clone, PartialEq, Eq)]
pub enum FilterValue {
    Text(String),
    Int(i64),
    Number(String),
    Bool(bool),
}

/// A value bound to one positional parameter of the query.  The variant
/// records the SQL cast the placeholder carries.
#[derive(Debug, Clone, PartialEq, Eq)]
pub enum SqlParam {
    PText(String),
    PInt(i64),
    PBool(bool),
    /// Decimal text, bound with a `::float8` cast.
    PNum(String),
    /// Date text, bound with a `::date` cast.
    PDate(String),
    /// Vector literal text, bound with a `::vector` cast.
    PVector(String),
}

/// The ghost face of a bound parameter.
pub enum ParamV {
    VText(Seq<char>),
    VInt(int),
    VBool(bool),
    VNum(Seq<char>),
    VDate(Seq<char>),
    VVector(Seq<char>),
}

/// What a bound parameter holds, for specifications.
pub open spec fn param_view(p: SqlParam) -> ParamV {
    match p {
        SqlParam::PText(s) => ParamV::VText(s@),
        SqlParam::PInt(n) => ParamV::VInt(n as int),
        SqlParam::PBool(b) => ParamV::VBool(b),
        SqlParam::PNum(s) => ParamV::VNum(s@),
        SqlParam::PDate(s) => ParamV::VDate(s@),
        SqlParam::PVector(s) => ParamV::VVector(s@),
    }
}

/// The operator named by a request, if any.
pub open spec fn spec_op_of(name: Seq<char>) -> Option<FilterOp> {
    if name == "eq"@ {
        Some(FilterOp::Equals)
    } else if name == "neq"@ {
        Some(FilterOp::NotEquals)
    } else if name == "contains"@ {
        Some(FilterOp::Contains)
    } else if name == "not_contains"@ {
        Some(FilterOp::NotContains)
    } else if name == "gt"@ {
        Some(FilterOp::Greater)
    } else if name == "lt"@ {
        Some(FilterOp::Less)
    } else if name == "gte"@ {
        Some(FilterOp::GreaterOrEqual)
    } else if name == "lte"@ {
        Some(FilterOp::LessOrEqual)
    } else {
        Option::None
    }
}

/// Parses an operator name.
pub fn op_of_name(name: &str) -> (r: Option<FilterOp>)
    ensures
        r == spec_op_of(name@),
{
    if crate::strutil::str_eq(name, "eq") {
        Some(FilterOp::Equals)
    } else if crate::strutil::str_eq(name, "neq") {
        Some(FilterOp::NotEquals)
    } else if crate::strutil::str_eq(name, "contains") {
        Some(FilterOp::Contains)
    } else if crate::strutil::str_eq(name, "not_contains") {
        Some(FilterOp::NotContains)
    } else if crate::strutil::str_eq(name, "gt") {
        Some(FilterOp::Greater)
    } else if crate::strutil::str_eq(name, "lt") {
        Some(FilterOp::Less)
    } else if crate::strutil::str_eq(name, "gte") {
        Some(FilterOp::GreaterOrEqual)
    } else if crate::strutil::str_eq(name, "lte") {
        Some(FilterOp::LessOrEqual)
    } else {
        Option::None
    }
}

/// The operators a declared type supports: text allows equality and
/// containment; booleans only equality; numbers, integers and dates the
/// six comparisons.
pub open spec fn op_supported(ty: MetaType, op: FilterOp) -> bool {
    match ty {
        MetaType::Text => op == FilterOp::Equals || op == FilterOp::NotEquals || op
            == FilterOp::Contains || op == FilterOp::NotContains,
        MetaType::Boolean => op == FilterOp::Equals || op == FilterOp::NotEquals,
        _ => op == FilterOp::Equals || op == FilterOp::NotEquals || op == FilterOp::Greater || op
            == FilterOp::Less || op == FilterOp::GreaterOrEqual || op == FilterOp::LessOrEqual,
    }
}

/// Lower-case text accepted as the boolean false.
pub open spec fn is_falsy(l: Seq<char>) -> bool {
    l == "false"@ || l == "no"@ || l == "0"@
}

/// Whether a request value can be bound against a field of the given
/// declared type.
pub open spec fn value_accepted(ty: MetaType, v: FilterValue) -> bool {
    match ty {
        MetaType::Text => v is Text,
        MetaType::Integer => match v {
            FilterValue::Int(_) => true,
            FilterValue::Text(s) => crate::numeric::is_int_literal(s@) && i32::MIN
                <= crate::numeric::int_literal_value(s@) <= i32::MAX,
            _ => false,
        },
        MetaType::Number => match v {
            FilterValue::Int(_) => true,
            FilterValue::Text(s) => is_decimal_literal(s@),
            FilterValue::Number(s) => is_decimal_literal(s@),
            _ => false,
        },
        MetaType::Date => match v {
            FilterValue::Text(s) => count_char(s@, '-') == 2 && s@.len() >= 8,
            _ => false,
        },
        MetaType::Boolean => match v {
            FilterValue::Bool(_) => true,
            FilterValue::Text(s) => crate::metadata::is_truthy(lower_chars(s@)) || is_falsy(
                lower_chars(s@),
            ),
            _ => false,
        },
    }
}

/// The decimal rendering of a signed number.
pub open spec fn dec_str_i64(n: int) -> Seq<char> {
    if n >= 0 {
        dec_str(n)
    } else {
        seq!['-'] + dec_str(-n)
    }
}

/// Renders a signed number in decimal.
pub fn i64_to_dec(n: i64) -> (r: Vec<char>)
    ensures
        r@ == dec_str_i64(n as int),
{
    if n >= 0 {
        let d = crate::numeric::u64_to_dec(n as u64);
        proof {
            assert(d@ == dec_str(n as int));
        }
        d
    } else {
        let m: u64 = if n == i64::MIN {
            0x8000_0000_0000_0000u64
        } else {
            (-n) as u64
        };
        let digits = crate::numeric::u64_to_dec(m);
        let mut out: Vec<char> = Vec::new();
        out.push('-');
        let mut i: usize = 0;
        while i < digits.len()
            invariant
                0 <= i <= digits@.len(),
                out@ == seq!['-'] + digits@.take(i as int),
            decreases digits@.len() - i,
        {
            out.push(digits[i]);
            proof {
                assert(seq!['-'] + digits@.take(i + 1) =~= (seq!['-'] + digits@.take(
                    i as int,
                )).push(digits@[i as int]));
            }
            i = i + 1;
        }
        proof {
            assert(digits@.take(digits@.len() as int) =~= digits@);
            assert(out@ =~= dec_str_i64(n as int));
        }
        out
    }
}

/// The parameter a request value becomes for a field of the given type.
pub open spec fn spec_param_of(ty: MetaType, v: FilterValue) -> ParamV {
    match ty {
        MetaType::Text => match v {
            FilterValue::Text(s) => ParamV::VText(s@),
            _ => ParamV::VBool(false),
        },
        MetaType::Integer => match v {
            FilterValue::Int(n) => ParamV::VInt(n as int),
            FilterValue::Text(s) => ParamV::VInt(crate::numeric::int_literal_value(s@)),
            _ => ParamV::VBool(false),
        },
        MetaType::Number => match v {
            FilterValue::Int(n) => ParamV::VNum(dec_str_i64(n as int)),
            FilterValue::Text(s) => ParamV::VNum(s@),
            FilterValue::Number(s) => ParamV::VNum(s@),
            _ => ParamV::VBool(false),
        },
        MetaType::Date => match v {
            FilterValue::Text(s) => ParamV::VDate(s@),
            _ => ParamV::VBool(false),
        },
        MetaType::Boolean => match v {
            FilterValue::Bool(b) => ParamV::VBool(b),
            FilterValue::Text(s) => ParamV::VBool(crate::metadata::is_truthy(lower_chars(s@))),
            _ => ParamV::VBool(false),
        },
    }
}

/// One translated metadata predicate: the typed value column, the
/// operator, and the value bound as a parameter.
#[derive(Debug, Clone, PartialEq, Eq)]
pub struct MetaCondition {
    pub column: String,
    pub op: FilterOp,
    pub param: SqlParam,
}

/// Translates a metadata predicate against a field's declared type.
/// Yields nothing — the predicate is dropped — when the operator is
/// unknown, unsupported for the type, or the value does not fit it.
pub fn metadata_filter_condition(ty: MetaType, op_name: &str, value: &FilterValue) -> (r: Option<
    MetaCondition,
>)
    ensures
        r is Some <==> (spec_op_of(op_name@) matches Some(op) && op_supported(ty, op)
            && value_accepted(ty, *value)),
        r matches Some(c) ==> (Some(c.op) == spec_op_of(op_name@) && c.column@ == spec_column_name(
            ty,
        ) && param_view(c.param) == spec_param_of(ty, *value)),
{
    let op = match op_of_name(op_name) {
        Some(op) => op,
        Option::None => {
            return Option::None;
        },
    };
    let supported = match ty {
        MetaType::Text => matches!(op, FilterOp::Equals | FilterOp::NotEquals | FilterOp::Contains
            | FilterOp::NotContains),
        MetaType::Boolean => matches!(op, FilterOp::Equals | FilterOp::NotEquals),
        _ => matches!(op, FilterOp::Equals | FilterOp::NotEquals | FilterOp::Greater
            | FilterOp::Less | FilterOp::GreaterOrEqual | FilterOp::LessOrEqual),
    };
    if !supported {
        return Option::None;
    }
    let param: SqlParam = match ty {
        MetaType::Text => {
            match value {
                FilterValue::Text(s) => SqlParam::PText(s.clone()),
                _ => {
                    return Option::None;
                },
            }
        },
        MetaType::Integer => {
            match value {
                FilterValue::Int(n) => SqlParam::PInt(*n),
                FilterValue::Text(s) => {
                    let cs = crate::strutil::chars_of(s.as_str());
                    match crate::numeric::parse_i32(&cs) {
                        Some(v) => SqlParam::PInt(v as i64),
                        Option::None => {
                            return Option::None;
                        },
                    }
                },
                _ => {
                    return Option::None;
                },
            }
        },
        MetaType::Number => {
            match value {
                FilterValue::Int(n) => {
                    let d = i64_to_dec(*n);
                    SqlParam::PNum(crate::strutil::string_from_chars(&d))
                },
                FilterValue::Text(s) => {
                    let cs = crate::strutil::chars_of(s.as_str());
                    if crate::numeric::is_decimal(&cs) {
                        SqlParam::PNum(s.clone())
                    } else {
                        return Option::None;
                    }
                },
                FilterValue::Number(s) => {
                    let cs = crate::strutil::chars_of(s.as_str());
                    if crate::numeric::is_decimal(&cs) {
                        SqlParam::PNum(s.clone())
                    } else {
                        return Option::None;
                    }
                },
                _ => {
                    return Option::None;
                },
            }
        },
        MetaType::Date => {
            match value {
                FilterValue::Text(s) => {
                    let cs = crate::strutil::chars_of(s.as_str());
                    let dashes = crate::strutil::count_occurrences(&cs, '-');
                    if dashes == 2 && cs.len() >= 8 {
                        SqlParam::PDate(s.clone())
                    } else {
                        return Option::None;
                    }
                },
                _ => {
                    return Option::None;
                },
            }
        },
        MetaType::Boolean => {
            match value {
                FilterValue::Bool(b) => SqlParam::PBool(*b),
                FilterValue::Text(s) => {
                    let cs = crate::strutil::chars_of(s.as_str());
                    let l = crate::strutil::to_lower(&cs);
                    let truthy = crate::strutil::chars_eq(&l, &crate::strutil::chars_of("true"))
                        || crate::strutil::chars_eq(&l, &crate::strutil::chars_of("yes"))
                        || crate::strutil::chars_eq(&l, &crate::strutil::chars_of("1"));
                    let falsy = crate::strutil::chars_eq(&l, &crate::strutil::chars_of("false"))
                        || crate::strutil::chars_eq(&l, &crate::strutil::chars_of("no"))
                        || crate::strutil::chars_eq(&l, &crate::strutil::chars_of("0"));
                    if truthy {
                        SqlParam::PBool(true)
                    } else if falsy {
                        SqlParam::PBool(false)
                    } else {
                        return Option::None;
                    }
                },
                _ => {
                    return Option::None;
                },
            }
        },
    };
    let column = crate::metadata::column_for_type(ty);
    Some(MetaCondition { column, op, param })
}

/// The positional placeholder for parameter `idx`.
pub open spec fn spec_placeholder(idx: int) -> Seq<char> {
    "$"@ + dec_str(idx)
}

/// Renders the positional placeholder for parameter `idx`.
pub fn placeholder(idx: u64) -> (r: String)
    ensures
        r@ == spec_placeholder(idx as int),
{
    let d = crate::numeric::u64_to_dec(idx);
    let mut out = String::from_str("$");
    let ds = crate::strutil::string_from_chars(&d);
    out.append(ds.as_str());
    out
}

/// The SQL spelling of a comparison operator.
pub open spec fn spec_op_sql(op: FilterOp) -> Seq<char> {
    match op {
        FilterOp::Equals => " = "@,
        FilterOp::NotEquals => " != "@,
        FilterOp::Greater => " > "@,
        FilterOp::Less => " < "@,
        FilterOp::GreaterOrEqual => " >= "@,
        FilterOp::LessOrEqual => " <= "@,
        FilterOp::Contains => " ILIKE "@,
        FilterOp::NotContains => " NOT ILIKE "@,
    }
}

/// The cast a bound parameter's placeholder carries.
pub open spec fn spec_cast_of(pv: ParamV) -> Seq<char> {
    match pv {
        ParamV::VNum(_) => "::float8"@,
        ParamV::VDate(_) => "::date"@,
        ParamV::VVector(_) => "::vector"@,
        _ => Seq::empty(),
    }
}

/// The SQL text of one translated predicate: the value appears only as a
/// placeholder, never as text.
pub open spec fn spec_cond_sql(col: Seq<char>, op: FilterOp, pv: ParamV, idx: int) -> Seq<char> {
    if op == FilterOp::Contains || op == FilterOp::NotContains {
        "dm."@ + col + spec_op_sql(op) + "'%' || "@ + spec_placeholder(idx) + " || '%'"@
    } else {
        "dm."@ + col + spec_op_sql(op) + spec_placeholder(idx) + spec_cast_of(pv)
    }
}

/// Renders one translated predicate against parameter `idx`.
pub fn render_condition(c: &MetaCondition, idx: u64) -> (r: String)
    ensures
        r@ == spec_cond_sql(c.column@, c.op, param_view(c.param), idx as int),
{
    let mut out = String::from_str("dm.");
    out.append(c.column.as_str());
    match c.op {
        FilterOp::Equals => out.append(" = "),
        FilterOp::NotEquals => out.append(" != "),
        FilterOp::Greater => out.append(" > "),
        FilterOp::Less => out.append(" < "),
        FilterOp::GreaterOrEqual => out.append(" >= "),
        FilterOp::LessOrEqual => out.append(" <= "),
        FilterOp::Contains => out.append(" ILIKE "),
        FilterOp::NotContains => out.append(" NOT ILIKE "),
    }
    let ph = placeholder(idx);
    let contains_like = matches!(c.op, FilterOp::Contains | FilterOp::NotContains);
    if contains_like {
        out.append("'%' || ");
        out.append(ph.as_str());
        out.append(" || '%'");
    } else {
        out.append(ph.as_str());
        match &c.param {
            SqlParam::PNum(_) => out.append("::float8"),
            SqlParam::PDate(_) => out.append("::date"),
            SqlParam::PVector(_) => out.append("::vector"),
            _ => (),
        }
    }
    proof {
        assert(out@ =~= spec_cond_sql(c.column@, c.op, param_view(c.param), idx as int));
    }
    out
}

/// One metadata predicate of a retrieval request: the field it names, the
/// operator, the field's declared type as stored, and the value.
#[derive(Debug, Clone, PartialEq, Eq)]
pub struct MetaFilter {
    pub field_uuid: String,
    pub op_name: String,
    pub field_type: MetaType,
    pub value: FilterValue,
}

/// The structured filters of a retrieval request.
#[derive(Debug, Clone, PartialEq, Eq)]
pub struct RetrievalFilters {
    pub start_date: Option<String>,
    pub end_date: Option<String>,
    pub tags: Vec<String>,
    pub metadata: Vec<MetaFilter>,
    pub document_uuid: Option<String>,
}

/// A built query: the SQL text and the values bound to its positional
/// parameters, in order.
#[derive(Debug, Clone, PartialEq, Eq)]
pub struct BuiltQuery {
    pub sql: String,
    pub params: Vec<SqlParam>,
}

/// Whether a metadata predicate survives translation.
pub open spec fn spec_cond_available(m: MetaFilter) -> bool {
    &&& spec_op_of(m.op_name@) is Some
    &&& op_supported(m.field_type, spec_op_of(m.op_name@).unwrap())
    &&& value_accepted(m.field_type, m.value)
}

/// The scoping subquery of one surviving metadata predicate, with the
/// field id at `idx` and the value at `idx + 1`.
pub open spec fn spec_meta_frag(m: MetaFilter, idx: int) -> Seq<char> {
    "EXISTS (SELECT 1 FROM document_library.document_metadatas dm WHERE dm.document_uuid = d.document_uuid AND dm.metadata_uuid = "@
        + spec_placeholder(idx) + " AND "@ + spec_cond_sql(
        spec_column_name(m.field_type),
        spec_op_of(m.op_name@).unwrap(),
        spec_param_of(m.field_type, m.value),
        idx + 1,
    ) + ")"@
}

/// The fragments and parameters of the metadata predicates, numbering
/// parameters from `idx0`; predicates that do not translate are dropped.
pub open spec fn meta_fold(ms: Seq<MetaFilter>, idx0: int) -> (Seq<Seq<char>>, Seq<ParamV>)
    decreases ms.len(),
{
    if ms.len() == 0 {
        (Seq::empty(), Seq::empty())
    } else {
        let pre = meta_fold(ms.drop_last(), idx0);
        if spec_cond_available(ms.last()) {
            (
                pre.0.push(spec_meta_frag(ms.last(), idx0 + pre.1.len())),
                pre.1 + seq![
                    ParamV::VText(ms.last().field_uuid@),
                    spec_param_of(ms.last().field_type, ms.last().value),
                ],
            )
        } else {
            pre
        }
    }
}

/// Filter dropping: a metadata predicate whose operator is unknown or
/// unsupported for its field's declared type, or whose value does not fit
/// it, contributes neither SQL nor parameters; the query is built from
/// the remaining filters alone, and no error is raised.
pub proof fn lemma_unsupported_predicate_dropped(ms: Seq<MetaFilter>, m: MetaFilter, idx0: int)
    requires
        !spec_cond_available(m),
    ensures
        meta_fold(ms.push(m), idx0) == meta_fold(ms, idx0),
{
    assert(ms.push(m).drop_last() =~= ms);
    assert(ms.push(m).last() == m);
}

/// A translated predicate list never binds more than two parameters per
/// predicate.
pub proof fn lemma_meta_fold_len(ms: Seq<MetaFilter>, idx0: int)
    ensures
        meta_fold(ms, idx0).0.len() <= ms.len(),
        meta_fold(ms, idx0).1.len() <= 2 * ms.len(),
    decreases ms.len(),
{
    if ms.len() > 0 {
        lemma_meta_fold_len(ms.drop_last(), idx0);
    }
}

/// The parameters of the tag-containment clause: each tag's text, in
/// order.
pub open spec fn tag_params(ts: Seq<String>) -> Seq<ParamV>
    decreases ts.len(),
{
    if ts.len() == 0 {
        Seq::empty()
    } else {
        tag_params(ts.drop_last()).push(ParamV::VText(ts.last()@))
    }
}

/// The placeholder list of the tag-containment clause, one placeholder
/// per tag starting at `idx`.
pub open spec fn spec_tag_list(n: int, idx: int) -> Seq<char>
    decreases n,
{
    if n <= 0 {
        Seq::empty()
    } else if n == 1 {
        spec_placeholder(idx)
    } else {
        spec_tag_list(n - 1, idx) + ", "@ + spec_placeholder(idx + n - 1)
    }
}

/// Whether an optional request string is present and non-empty.
pub open spec fn opt_present(o: Option<String>) -> bool {
    match o {
        Some(s) => s@.len() > 0,
        Option::None => false,
    }
}

/// The characters of an optional request string.
pub open spec fn opt_str(o: Option<String>) -> Seq<char> {
    match o {
        Some(s) => s@,
        Option::None => Seq::empty(),
    }
}

/// The WHERE fragments and bound parameters of a request's filters, in
/// their fixed order, numbering parameters from `idx0`.
pub open spec fn spec_where_plan(f: RetrievalFilters, idx0: int) -> (Seq<Seq<char>>, Seq<ParamV>) {
    let sp: (Seq<Seq<char>>, Seq<ParamV>) = if opt_present(f.start_date) {
        (
            seq!["d.creation_date >= "@ + spec_placeholder(idx0) + "::timestamp"@],
            seq![ParamV::VText(opt_str(f.start_date))],
        )
    } else {
        (Seq::empty(), Seq::empty())
    };
    let i1 = idx0 + sp.1.len();
    let ep: (Seq<Seq<char>>, Seq<ParamV>) = if opt_present(f.end_date) {
        (
            seq!["d.creation_date <= "@ + spec_placeholder(i1) + "::timestamp"@],
            seq![ParamV::VText(opt_str(f.end_date))],
        )
    } else {
        (Seq::empty(), Seq::empty())
    };
    let i2 = i1 + ep.1.len();
    let tg: (Seq<Seq<char>>, Seq<ParamV>) = if f.tags@.len() > 0 {
        (
            seq!["d.tags @> ARRAY["@ + spec_tag_list(f.tags@.len() as int, i2) + "]"@],
            tag_params(f.tags@),
        )
    } else {
        (Seq::empty(), Seq::empty())
    };
    let i3 = i2 + tg.1.len();
    let mf = meta_fold(f.metadata@, i3);
    let i4 = i3 + mf.1.len();
    let dc: (Seq<Seq<char>>, Seq<ParamV>) = if opt_present(f.document_uuid) {
        (
            seq!["d.document_uuid = "@ + spec_placeholder(i4)],
            seq![ParamV::VText(opt_str(f.document_uuid))],
        )
    } else {
        (Seq::empty(), Seq::empty())
    };
    (sp.0 + ep.0 + tg.0 + mf.0 + dc.0, sp.1 + ep.1 + tg.1 + mf.1 + dc.1)
}

/// Fragments joined with AND.
pub open spec fn spec_join_and(frags: Seq<Seq<char>>) -> Seq<char>
    decreases frags.len(),
{
    if frags.len() == 0 {
        Seq::empty()
    } else if frags.len() == 1 {
        frags[0]
    } else {
        spec_join_and(frags.drop_last()) + " AND "@ + frags.last()
    }
}

/// The fixed SELECT-and-join skeleton: chunks joined to their embeddings
/// and documents, scoped through the access-grant chain to the identity
/// bound at the first parameter.
pub open spec fn spec_base_sql() -> Seq<char> {
    "SELECT d.document_uuid, d.document_name, d.document_location, d.document_hash, d.document_type, d.document_status, d.tags, dc.document_chunk_uuid, dc.embebed_text, emb.document_embeding_uuid, emb.embeder_type, emb.embedding_token, emb.embedding_time FROM document_library.document_embeding_mistral_generic emb INNER JOIN document_library.document_chunks dc ON dc.document_chunk_uuid = emb.document_chunk_uuid INNER JOIN document_library.documents d ON d.document_uuid = dc.document_uuid INNER JOIN document_library.document_security_groups dsg ON dsg.document_uuid = d.document_uuid INNER JOIN document_library.security_groups sg ON sg.security_group_uuid = dsg.security_group_uuid INNER JOIN document_library.user_security_groups usg ON usg.security_group_uuid = sg.security_group_uuid INNER JOIN document_library.users u ON u.user_uuid = usg.user_uuid AND u.sso_unique_id = $1"@
}

/// The complete SQL text of a retrieval request.
pub open spec fn spec_retrieval_sql(f: RetrievalFilters) -> Seq<char> {
    spec_base_sql() + (if spec_where_plan(f, 3).0.len() > 0 {
        " WHERE "@ + spec_join_and(spec_where_plan(f, 3).0)
    } else {
        Seq::empty()
    }) + " ORDER BY emb.embedding <-> $2::vector LIMIT "@ + spec_placeholder(
        3 + spec_where_plan(f, 3).1.len() as int,
    )
}

/// The complete parameter list of a retrieval request: the identity, the
/// question's embedding, the filter values in order, and the row limit.
pub open spec fn spec_retrieval_params(
    f: RetrievalFilters,
    identity: Seq<char>,
    embedding: Seq<char>,
    top_k: int,
) -> Seq<ParamV> {
    seq![ParamV::VText(identity), ParamV::VVector(embedding)] + spec_where_plan(f, 3).1 + seq![
        ParamV::VInt(top_k),
    ]
}


/// The parameter list seen through its ghost face.
pub open spec fn params_view(ps: Seq<SqlParam>) -> Seq<ParamV>
    decreases ps.len(),
{
    if ps.len() == 0 {
        Seq::empty()
    } else {
        params_view(ps.drop_last()).push(param_view(ps.last()))
    }
}

/// Fragment strings seen as character sequences.
pub open spec fn strs_view(ss: Seq<String>) -> Seq<Seq<char>>
    decreases ss.len(),
{
    if ss.len() == 0 {
        Seq::empty()
    } else {
        strs_view(ss.drop_last()).push(ss.last()@)
    }
}

/// The ghost face keeps the parameter count and order.
pub proof fn lemma_params_view_len(ps: Seq<SqlParam>)
    ensures
        params_view(ps).len() == ps.len(),
        forall|i: int| 0 <= i < ps.len() ==> params_view(ps)[i] == param_view(ps[i]),
    decreases ps.len(),
{
    if ps.len() > 0 {
        lemma_params_view_len(ps.drop_last());
        assert(forall|i: int| 0 <= i < ps.len() - 1 ==> ps.drop_last()[i] == ps[i]);
    }
}

/// The tag parameters keep the tags' count and order.
pub proof fn lemma_tag_params_index(ts: Seq<String>)
    ensures
        tag_params(ts).len() == ts.len(),
        forall|i: int| 0 <= i < ts.len() ==> tag_params(ts)[i] == ParamV::VText(ts[i]@),
    decreases ts.len(),
{
    if ts.len() > 0 {
        lemma_tag_params_index(ts.drop_last());
        assert(forall|i: int| 0 <= i < ts.len() - 1 ==> ts.drop_last()[i] == ts[i]);
    }
}

/// The fragment view keeps the fragment count.
pub proof fn lemma_strs_view_len(ss: Seq<String>)
    ensures
        strs_view(ss).len() == ss.len(),
        forall|i: int| 0 <= i < ss.len() ==> strs_view(ss)[i] == ss[i]@,
    decreases ss.len(),
{
    if ss.len() > 0 {
        lemma_strs_view_len(ss.drop_last());
        assert(forall|i: int| 0 <= i < ss.len() - 1 ==> ss.drop_last()[i] == ss[i]);
    }
}


fn add_date_bound(frags: &mut Vec<String>, params: &mut Vec<SqlParam>, s: &String, lower: bool)
    requires
        old(params)@.len() <= 1000000,
    ensures
        strs_view(final(frags)@) == strs_view(old(frags)@).push(
            (if lower {
                "d.creation_date >= "@
            } else {
                "d.creation_date <= "@
            }) + spec_placeholder(old(params)@.len() as int + 1) + "::timestamp"@,
        ),
        params_view(final(params)@) == params_view(old(params)@).push(ParamV::VText(s@)),
        final(params)@.len() == old(params)@.len() as int + 1,
{
    let idx = params.len() as u64 + 1;
    let mut t = if lower {
        String::from_str("d.creation_date >= ")
    } else {
        String::from_str("d.creation_date <= ")
    };
    t.append(placeholder(idx).as_str());
    t.append("::timestamp");
    let ghost fprev = frags@;
    let ghost pprev = params@;
    frags.push(t);
    params.push(SqlParam::PText(s.clone()));
    proof {
        assert(frags@.drop_last() =~= fprev);
        assert(params@.drop_last() =~= pprev);
    }
}

fn add_doc_clause(frags: &mut Vec<String>, params: &mut Vec<SqlParam>, s: &String)
    requires
        old(params)@.len() <= 1000000,
    ensures
        strs_view(final(frags)@) == strs_view(old(frags)@).push(
            "d.document_uuid = "@ + spec_placeholder(old(params)@.len() as int + 1),
        ),
        params_view(final(params)@) == params_view(old(params)@).push(ParamV::VText(s@)),
        final(params)@.len() == old(params)@.len() as int + 1,
{
    let idx = params.len() as u64 + 1;
    let mut t = String::from_str("d.document_uuid = ");
    t.append(placeholder(idx).as_str());
    let ghost fprev = frags@;
    let ghost pprev = params@;
    frags.push(t);
    params.push(SqlParam::PText(s.clone()));
    proof {
        assert(frags@.drop_last() =~= fprev);
        assert(params@.drop_last() =~= pprev);
    }
}

fn add_tags_clause(frags: &mut Vec<String>, params: &mut Vec<SqlParam>, tags: &Vec<String>)
    requires
        tags@.len() > 0,
        tags@.len() <= 65000,
        old(params)@.len() <= 1000000,
    ensures
        strs_view(final(frags)@) == strs_view(old(frags)@).push(
            "d.tags @> ARRAY["@ + spec_tag_list(tags@.len() as int, old(params)@.len() as int + 1)
                + "]"@,
        ),
        params_view(final(params)@) == params_view(old(params)@) + tag_params(tags@),
        final(params)@.len() == old(params)@.len() + tags@.len(),
{
    let ghost p0 = params@;
    let ghost i2 = params@.len() + 1 as int;
    let mut lst = String::new();
    let mut j: usize = 0;
    while j < tags.len()
        invariant
            0 < tags@.len() <= 65000,
            0 <= j <= tags@.len(),
            p0.len() <= 1000000,
            i2 == p0.len() + 1,
            params@.len() == p0.len() + j,
            j == 0 ==> lst@ == Seq::<char>::empty(),
            j > 0 ==> lst@ == spec_tag_list(j as int, i2 as int),
            params_view(params@) == params_view(p0) + tag_params(tags@.take(j as int)),
        decreases tags@.len() - j,
    {
        if j > 0 {
            lst.append(", ");
        }
        let idx = params.len() as u64 + 1;
        lst.append(placeholder(idx).as_str());
        let ghost pprev = params@;
        params.push(SqlParam::PText(tags[j].clone()));
        proof {
            assert(params@.drop_last() =~= pprev);
            lemma_params_view_len(pprev);
            lemma_params_view_len(params@);
            lemma_tag_params_index(tags@.take(j as int));
            lemma_tag_params_index(tags@.take(j + 1));
            lemma_params_view_len(p0);
            assert(params_view(params@) =~= params_view(p0) + tag_params(tags@.take(j + 1)));
            assert(lst@ =~= spec_tag_list(j + 1, i2 as int));
        }
        j = j + 1;
    }
    let mut t = String::from_str("d.tags @> ARRAY[");
    t.append(lst.as_str());
    t.append("]");
    let ghost fprev = frags@;
    frags.push(t);
    proof {
        assert(frags@.drop_last() =~= fprev);
        assert(tags@.take(tags@.len() as int) =~= tags@);
        lemma_tag_params_index(tags@);
    }
}

#[verifier::rlimit(60)]
fn add_meta_clauses(frags: &mut Vec<String>, params: &mut Vec<SqlParam>, ms: &Vec<MetaFilter>)
    requires
        ms@.len() <= 30000,
        old(params)@.len() <= 1000000,
    ensures
        strs_view(final(frags)@) == strs_view(old(frags)@) + meta_fold(
            ms@,
            old(params)@.len() as int + 1,
        ).0,
        params_view(final(params)@) == params_view(old(params)@) + meta_fold(
            ms@,
            old(params)@.len() as int + 1,
        ).1,
        final(params)@.len() == old(params)@.len() + meta_fold(ms@, old(params)@.len() as int + 1).1.len(),
{
    let ghost p0 = params@;
    let ghost f0 = frags@;
    let ghost i3 = params@.len() + 1 as int;
    let mut k: usize = 0;
    while k < ms.len()
        invariant
            0 <= k <= ms@.len(),
            ms@.len() <= 30000,
            p0.len() <= 1000000,
            i3 == p0.len() + 1,
            params@.len() == p0.len() + meta_fold(ms@.take(k as int), i3).1.len(),
            meta_fold(ms@.take(k as int), i3).1.len() <= 2 * k,
            strs_view(frags@) == strs_view(f0) + meta_fold(ms@.take(k as int), i3).0,
            params_view(params@) == params_view(p0) + meta_fold(ms@.take(k as int), i3).1,
        decreases ms@.len() - k,
    {
        let mf = &ms[k];
        let cond = metadata_filter_condition(mf.field_type, mf.op_name.as_str(), &mf.value);
        proof {
            assert(ms@.take(k + 1).drop_last() =~= ms@.take(k as int));
            assert(ms@.take(k + 1).last() == ms@[k as int]);
        }
        match cond {
            Some(c) => {
                let idx = params.len() as u64 + 1;
                let mut t = String::from_str(
                    "EXISTS (SELECT 1 FROM document_library.document_metadatas dm WHERE dm.document_uuid = d.document_uuid AND dm.metadata_uuid = ",
                );
                t.append(placeholder(idx).as_str());
                t.append(" AND ");
                let csql = render_condition(&c, idx + 1);
                t.append(csql.as_str());
                t.append(")");
                proof {
                    let pre = meta_fold(ms@.take(k as int), i3);
                    assert(spec_cond_available(ms@[k as int]));
                    assert(t@ =~= spec_meta_frag(ms@[k as int], i3 + pre.1.len()));
                }
                let ghost fprev = frags@;
                frags.push(t);
                let uuid_param = SqlParam::PText(mf.field_uuid.clone());
                let ghost pprev = params@;
                params.push(uuid_param);
                let ghost pmid = params@;
                params.push(c.param);
                proof {
                    assert(frags@.drop_last() =~= fprev);
                    assert(pmid.drop_last() =~= pprev);
                    assert(params@.drop_last() =~= pmid);
                    lemma_strs_view_len(fprev);
                    lemma_strs_view_len(frags@);
                    lemma_params_view_len(p0);
                    lemma_params_view_len(pprev);
                    lemma_params_view_len(pmid);
                    lemma_params_view_len(params@);
                    let pre = meta_fold(ms@.take(k as int), i3);
                    let post = meta_fold(ms@.take(k + 1), i3);
                    assert(post.0 == pre.0.push(spec_meta_frag(ms@[k as int], i3 + pre.1.len())));
                    assert(strs_view(frags@) =~= strs_view(f0) + post.0);
                    assert(post.1 == pre.1 + seq![
                        ParamV::VText(ms@[k as int].field_uuid@),
                        spec_param_of(ms@[k as int].field_type, ms@[k as int].value),
                    ]);
                    assert(params_view(params@) =~= params_view(p0) + post.1);
                }
            },
            Option::None => {
                proof {
                    assert(!spec_cond_available(ms@[k as int]));
                    assert(meta_fold(ms@.take(k + 1), i3) == meta_fold(ms@.take(k as int), i3));
                }
            },
        }
        k = k + 1;
    }
    proof {
        assert(ms@.take(ms@.len() as int) =~= ms@);
    }
}

fn append_where_clause(sql: &mut String, frags: &Vec<String>)
    ensures
        final(sql)@ == old(sql)@ + (if strs_view(frags@).len() > 0 {
            " WHERE "@ + spec_join_and(strs_view(frags@))
        } else {
            Seq::<char>::empty()
        }),
{
    let ghost s0 = sql@;
    proof {
        lemma_strs_view_len(frags@);
    }
    if frags.len() > 0 {
        sql.append(" WHERE ");
        sql.append(frags[0].as_str());
        proof {
            assert(strs_view(frags@).take(1) =~= seq![frags@[0]@]);
            assert(spec_join_and(strs_view(frags@).take(1)) == frags@[0]@);
        }
        let mut j: usize = 1;
        while j < frags.len()
            invariant
                1 <= j <= frags@.len(),
                frags@.len() > 0,
                sql@ == s0 + " WHERE "@ + spec_join_and(strs_view(frags@).take(j as int)),
            decreases frags@.len() - j,
        {
            sql.append(" AND ");
            sql.append(frags[j].as_str());
            proof {
                lemma_strs_view_len(frags@);
                assert(strs_view(frags@).take(j + 1).drop_last() =~= strs_view(frags@).take(
                    j as int,
                ));
                assert(strs_view(frags@).take(j + 1).last() == frags@[j as int]@);
                assert(sql@ =~= s0 + " WHERE "@ + spec_join_and(strs_view(frags@).take(j + 1)));
            }
            j = j + 1;
        }
        proof {
            assert(strs_view(frags@).take(strs_view(frags@).len() as int) =~= strs_view(frags@));
            assert(sql@ =~= s0 + (" WHERE "@ + spec_join_and(strs_view(frags@))));
        }
    } else {
        proof {
            assert(sql@ =~= s0 + Seq::<char>::empty());
        }
    }
}

/// Builds the scoped nearest-neighbour query for a retrieval request:
/// the fixed join skeleton, one typed parameter-bound clause per
/// surviving filter, ordering by vector distance, and the row limit as
/// the final parameter.  Every request-supplied value is bound as a
/// parameter; the SQL text is a function of the filters' shape alone.
/// The bounds keep the parameter count within what the database wire
/// protocol can number.
#[verifier::rlimit(100)]
pub fn build_retrieval_query(
    f: &RetrievalFilters,
    identity: &str,
    embedding_text: &str,
    top_k: i64,
) -> (r: BuiltQuery)
    requires
        f.tags@.len() <= 65000,
        f.metadata@.len() <= 30000,
    ensures
        r.sql@ == spec_retrieval_sql(*f),
        params_view(r.params@) == spec_retrieval_params(
            *f,
            identity@,
            embedding_text@,
            top_k as int,
        ),
{
    let ghost base_params = seq![ParamV::VText(identity@), ParamV::VVector(embedding_text@)];
    let mut frags: Vec<String> = Vec::new();
    let mut params: Vec<SqlParam> = Vec::new();
    params.push(SqlParam::PText(String::from_str(identity)));
    params.push(SqlParam::PVector(String::from_str(embedding_text)));
    proof {
        lemma_params_view_len(params@);
        assert(params_view(params@) =~= base_params);
        assert(strs_view(frags@) =~= Seq::<Seq<char>>::empty());
    }
    // start-of-range filter on the document creation timestamp
    match &f.start_date {
        Some(s) => {
            if !s.as_str().is_empty() {
                add_date_bound(&mut frags, &mut params, s, true);
            }
        },
        Option::None => {},
    }
    let ghost sp: (Seq<Seq<char>>, Seq<ParamV>) = if opt_present(f.start_date) {
        (
            seq!["d.creation_date >= "@ + spec_placeholder(3) + "::timestamp"@],
            seq![ParamV::VText(opt_str(f.start_date))],
        )
    } else {
        (Seq::empty(), Seq::empty())
    };
    proof {
        assert(strs_view(frags@) =~= sp.0);
        assert(params_view(params@) =~= base_params + sp.1);
        lemma_params_view_len(params@);
    }
    let ghost i1 = 3 + sp.1.len() as int;
    // end-of-range filter on the document creation timestamp
    match &f.end_date {
        Some(s) => {
            if !s.as_str().is_empty() {
                add_date_bound(&mut frags, &mut params, s, false);
            }
        },
        Option::None => {},
    }
    let ghost ep: (Seq<Seq<char>>, Seq<ParamV>) = if opt_present(f.end_date) {
        (
            seq!["d.creation_date <= "@ + spec_placeholder(i1) + "::timestamp"@],
            seq![ParamV::VText(opt_str(f.end_date))],
        )
    } else {
        (Seq::empty(), Seq::empty())
    };
    proof {
        assert(strs_view(frags@) =~= sp.0 + ep.0);
        assert(params_view(params@) =~= base_params + sp.1 + ep.1);
        lemma_params_view_len(params@);
    }
    let ghost i2 = i1 + ep.1.len() as int;
    // tag containment: one placeholder per requested tag
    if f.tags.len() > 0 {
        add_tags_clause(&mut frags, &mut params, &f.tags);
    }
    let ghost tg: (Seq<Seq<char>>, Seq<ParamV>) = if f.tags@.len() > 0 {
        (
            seq!["d.tags @> ARRAY["@ + spec_tag_list(f.tags@.len() as int, i2) + "]"@],
            tag_params(f.tags@),
        )
    } else {
        (Seq::empty(), Seq::empty())
    };
    proof {
        if f.tags@.len() == 0 {
            assert(tag_params(f.tags@) =~= Seq::<ParamV>::empty());
        }
        lemma_tag_params_index(f.tags@);
        assert(strs_view(frags@) =~= sp.0 + ep.0 + tg.0);
        assert(params_view(params@) =~= base_params + sp.1 + ep.1 + tg.1);
        lemma_params_view_len(params@);
    }
    let ghost i3 = i2 + tg.1.len() as int;
    // typed metadata predicates; those that do not translate are dropped
    add_meta_clauses(&mut frags, &mut params, &f.metadata);
    let ghost mfp = meta_fold(f.metadata@, i3);
    proof {
        lemma_meta_fold_len(f.metadata@, i3);
        assert(strs_view(frags@) =~= sp.0 + ep.0 + tg.0 + mfp.0);
        assert(params_view(params@) =~= base_params + sp.1 + ep.1 + tg.1 + mfp.1);
        lemma_params_view_len(params@);
    }
    let ghost i4 = i3 + mfp.1.len() as int;
    // optional restriction to a single document
    match &f.document_uuid {
        Some(s) => {
            if !s.as_str().is_empty() {
                add_doc_clause(&mut frags, &mut params, s);
            }
        },
        Option::None => {},
    }
    let ghost dc: (Seq<Seq<char>>, Seq<ParamV>) = if opt_present(f.document_uuid) {
        (
            seq!["d.document_uuid = "@ + spec_placeholder(i4)],
            seq![ParamV::VText(opt_str(f.document_uuid))],
        )
    } else {
        (Seq::empty(), Seq::empty())
    };
    let ghost plan = spec_where_plan(*f, 3);
    proof {
        assert(strs_view(frags@) =~= sp.0 + ep.0 + tg.0 + mfp.0 + dc.0);
        assert(params_view(params@) =~= base_params + sp.1 + ep.1 + tg.1 + mfp.1 + dc.1);
        assert(plan.0 =~= sp.0 + ep.0 + tg.0 + mfp.0 + dc.0);
        assert(plan.1 =~= sp.1 + ep.1 + tg.1 + mfp.1 + dc.1);
        lemma_params_view_len(params@);
        lemma_strs_view_len(frags@);
    }
    // assemble: skeleton, WHERE clause, distance ordering, row limit
    let mut sql = String::from_str(
        "SELECT d.document_uuid, d.document_name, d.document_location, d.document_hash, d.document_type, d.document_status, d.tags, dc.document_chunk_uuid, dc.embebed_text, emb.document_embeding_uuid, emb.embeder_type, emb.embedding_token, emb.embedding_time FROM document_library.document_embeding_mistral_generic emb INNER JOIN document_library.document_chunks dc ON dc.document_chunk_uuid = emb.document_chunk_uuid INNER JOIN document_library.documents d ON d.document_uuid = dc.document_uuid INNER JOIN document_library.document_security_groups dsg ON dsg.document_uuid = d.document_uuid INNER JOIN document_library.security_groups sg ON sg.security_group_uuid = dsg.security_group_uuid INNER JOIN document_library.user_security_groups usg ON usg.security_group_uuid = sg.security_group_uuid INNER JOIN document_library.users u ON u.user_uuid = usg.user_uuid AND u.sso_unique_id = $1",
    );
    append_where_clause(&mut sql, &frags);
    sql.append(" ORDER BY emb.embedding <-> $2::vector LIMIT ");
    let limit_idx = params.len() as u64 + 1;
    sql.append(placeholder(limit_idx).as_str());
    let ghost pprev = params@;
    params.push(SqlParam::PInt(top_k));
    proof {
        assert(params@.drop_last() =~= pprev);
        assert(sql@ =~= spec_retrieval_sql(*f));
        assert(params_view(params@) =~= spec_retrieval_params(
            *f,
            identity@,
            embedding_text@,
            top_k as int,
        ));
    }
    BuiltQuery { sql, params }
}

} // verus!
