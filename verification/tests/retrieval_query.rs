use document_library::metadata::MetaType;
use document_library::retrieval::{
    build_retrieval_query, metadata_filter_condition, op_of_name, FilterOp, FilterValue,
    MetaFilter, RetrievalFilters, SqlParam,
};

fn no_filters() -> RetrievalFilters {
    RetrievalFilters {
        start_date: None,
        end_date: None,
        tags: Vec::new(),
        metadata: Vec::new(),
        document_uuid: None,
    }
}

const BASE_SQL: &str = "SELECT d.document_uuid, d.document_name, d.document_location, d.document_hash, d.document_type, d.document_status, d.tags, dc.document_chunk_uuid, dc.embebed_text, emb.document_embeding_uuid, emb.embeder_type, emb.embedding_token, emb.embedding_time FROM document_library.document_embeding_mistral_generic emb INNER JOIN document_library.document_chunks dc ON dc.document_chunk_uuid = emb.document_chunk_uuid INNER JOIN document_library.documents d ON d.document_uuid = dc.document_uuid INNER JOIN document_library.document_security_groups dsg ON dsg.document_uuid = d.document_uuid INNER JOIN document_library.security_groups sg ON sg.security_group_uuid = dsg.security_group_uuid INNER JOIN document_library.user_security_groups usg ON usg.security_group_uuid = sg.security_group_uuid INNER JOIN document_library.users u ON u.user_uuid = usg.user_uuid AND u.sso_unique_id = $1";

#[test]
fn bare_query_binds_identity_embedding_and_limit() {
    let q = build_retrieval_query(&no_filters(), "alice@example.com", "[0.1,0.2]", 20);
    assert_eq!(
        q.sql,
        format!("{} ORDER BY emb.embedding <-> $2::vector LIMIT $3", BASE_SQL)
    );
    assert_eq!(
        q.params,
        vec![
            SqlParam::PText(String::from("alice@example.com")),
            SqlParam::PVector(String::from("[0.1,0.2]")),
            SqlParam::PInt(20),
        ]
    );
}

#[test]
fn unsupported_operator_for_boolean_field_is_dropped() {
    let mut f = no_filters();
    f.metadata.push(MetaFilter {
        field_uuid: String::from("field-1"),
        op_name: String::from("gt"),
        field_type: MetaType::Boolean,
        value: FilterValue::Bool(true),
    });
    let q = build_retrieval_query(&f, "alice@example.com", "[0.1]", 5);
    // the predicate contributes neither SQL nor parameters, and the query
    // still carries the remaining structure
    assert!(!q.sql.contains("EXISTS"));
    assert!(!q.sql.contains("WHERE"));
    assert_eq!(q.params.len(), 3);
    assert_eq!(q.sql, format!("{} ORDER BY emb.embedding <-> $2::vector LIMIT $3", BASE_SQL));
}

#[test]
fn dropped_predicate_keeps_remaining_filters() {
    let mut f = no_filters();
    f.start_date = Some(String::from("2024-01-01"));
    f.metadata.push(MetaFilter {
        field_uuid: String::from("field-1"),
        op_name: String::from("gt"),
        field_type: MetaType::Boolean,
        value: FilterValue::Bool(true),
    });
    f.metadata.push(MetaFilter {
        field_uuid: String::from("field-2"),
        op_name: String::from("gte"),
        field_type: MetaType::Integer,
        value: FilterValue::Int(10),
    });
    let q = build_retrieval_query(&f, "alice@example.com", "[0.1]", 5);
    assert_eq!(
        q.sql,
        format!(
            "{} WHERE d.creation_date >= $3::timestamp AND EXISTS (SELECT 1 FROM \
             document_library.document_metadatas dm WHERE dm.document_uuid = d.document_uuid \
             AND dm.metadata_uuid = $4 AND dm.metadata_value_int >= $5) ORDER BY emb.embedding \
             <-> $2::vector LIMIT $6",
            BASE_SQL
        )
    );
    assert_eq!(
        q.params,
        vec![
            SqlParam::PText(String::from("alice@example.com")),
            SqlParam::PVector(String::from("[0.1]")),
            SqlParam::PText(String::from("2024-01-01")),
            SqlParam::PText(String::from("field-2")),
            SqlParam::PInt(10),
            SqlParam::PInt(5),
        ]
    );
}

#[test]
fn tags_bind_one_placeholder_each() {
    let mut f = no_filters();
    f.tags.push(String::from("contract"));
    f.tags.push(String::from("2024"));
    let q = build_retrieval_query(&f, "bob", "[1.0]", 7);
    assert_eq!(
        q.sql,
        format!(
            "{} WHERE d.tags @> ARRAY[$3, $4] ORDER BY emb.embedding <-> $2::vector LIMIT $5",
            BASE_SQL
        )
    );
    assert_eq!(q.params[2], SqlParam::PText(String::from("contract")));
    assert_eq!(q.params[3], SqlParam::PText(String::from("2024")));
}

#[test]
fn document_restriction_binds_the_uuid() {
    let mut f = no_filters();
    f.document_uuid = Some(String::from("doc-9"));
    let q = build_retrieval_query(&f, "bob", "[1.0]", 7);
    assert_eq!(
        q.sql,
        format!(
            "{} WHERE d.document_uuid = $3 ORDER BY emb.embedding <-> $2::vector LIMIT $4",
            BASE_SQL
        )
    );
    assert_eq!(q.params[2], SqlParam::PText(String::from("doc-9")));
}

#[test]
fn string_contains_uses_parameterised_pattern() {
    let c = metadata_filter_condition(
        MetaType::Text,
        "contains",
        &FilterValue::Text(String::from("Rob'); DROP TABLE docs;--")),
    )
    .unwrap();
    assert_eq!(c.op, FilterOp::Contains);
    assert_eq!(c.column, "metadata_value_string");
    // the hostile value rides only in the bound parameter
    assert_eq!(c.param, SqlParam::PText(String::from("Rob'); DROP TABLE docs;--")));
}

#[test]
fn operator_support_follows_declared_type() {
    assert!(metadata_filter_condition(
        MetaType::Boolean,
        "gt",
        &FilterValue::Bool(true)
    )
    .is_none());
    assert!(metadata_filter_condition(
        MetaType::Text,
        "lt",
        &FilterValue::Text(String::from("x"))
    )
    .is_none());
    assert!(metadata_filter_condition(
        MetaType::Integer,
        "contains",
        &FilterValue::Int(3)
    )
    .is_none());
    assert!(metadata_filter_condition(MetaType::Date, "lte", &FilterValue::Text(String::from("2024-05-01"))).is_some());
}

#[test]
fn unknown_operator_is_dropped() {
    assert_eq!(op_of_name("between"), None);
    assert!(metadata_filter_condition(
        MetaType::Integer,
        "between",
        &FilterValue::Int(3)
    )
    .is_none());
}

#[test]
fn values_that_do_not_fit_the_type_are_dropped() {
    // malformed date text
    assert!(metadata_filter_condition(
        MetaType::Date,
        "eq",
        &FilterValue::Text(String::from("yesterday"))
    )
    .is_none());
    // unparsable integer text
    assert!(metadata_filter_condition(
        MetaType::Integer,
        "eq",
        &FilterValue::Text(String::from("ten"))
    )
    .is_none());
    // but parsable text is coerced
    let c = metadata_filter_condition(
        MetaType::Integer,
        "eq",
        &FilterValue::Text(String::from("17")),
    )
    .unwrap();
    assert_eq!(c.param, SqlParam::PInt(17));
    // boolean text forms
    let cb = metadata_filter_condition(
        MetaType::Boolean,
        "neq",
        &FilterValue::Text(String::from("Yes")),
    )
    .unwrap();
    assert_eq!(cb.param, SqlParam::PBool(true));
}

#[test]
fn number_fields_accept_integers_and_decimal_text() {
    let c = metadata_filter_condition(MetaType::Number, "lt", &FilterValue::Int(-3)).unwrap();
    assert_eq!(c.param, SqlParam::PNum(String::from("-3")));
    let d = metadata_filter_condition(
        MetaType::Number,
        "gte",
        &FilterValue::Number(String::from("12.75")),
    )
    .unwrap();
    assert_eq!(d.param, SqlParam::PNum(String::from("12.75")));
    assert!(metadata_filter_condition(
        MetaType::Number,
        "gte",
        &FilterValue::Number(String::from("12.7.5"))
    )
    .is_none());
}
