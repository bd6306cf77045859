use document_library::metadata::{
    build_context, build_prompt_template, coerce, column_for_type, comment_for, date_valid,
    hint_for, meta_type_from_name, name_of_type, parse_date_iso, MetaType, MetaValue, SimpleDate,
};

#[test]
fn integer_coercion_strips_units() {
    let r = coerce("42 kg", MetaType::Integer);
    assert_eq!(r, Some(MetaValue::Integer(42)));
}

#[test]
fn not_found_yields_no_value() {
    assert_eq!(coerce("not found", MetaType::Text), None);
    assert_eq!(coerce("Not Found", MetaType::Integer), None);
    assert_eq!(coerce("NOT FOUND", MetaType::Number), None);
    assert_eq!(coerce("not found", MetaType::Date), None);
}

#[test]
fn invalid_calendar_date_yields_no_value() {
    assert_eq!(coerce("31/02/2024", MetaType::Date), None);
}

#[test]
fn real_dates_are_accepted_with_leap_years() {
    assert_eq!(
        coerce("29/02/2024", MetaType::Date),
        Some(MetaValue::Date(SimpleDate { day: 29, month: 2, year: 2024 }))
    );
    assert_eq!(coerce("29/02/2023", MetaType::Date), None);
    assert_eq!(
        coerce(" 7/ 3/1999", MetaType::Date),
        Some(MetaValue::Date(SimpleDate { day: 7, month: 3, year: 1999 }))
    );
}

#[test]
fn date_out_of_range_years_are_rejected() {
    assert_eq!(coerce("01/01/1899", MetaType::Date), None);
    assert_eq!(coerce("01/01/2101", MetaType::Date), None);
    assert_eq!(coerce("01-01-2000", MetaType::Date), None);
}

#[test]
fn truthy_answers_coerce_to_true() {
    for raw in ["true", "yes", "1", "TRUE", "Yes"] {
        assert_eq!(coerce(raw, MetaType::Boolean), Some(MetaValue::Boolean(true)));
    }
}

#[test]
fn falsy_and_invalid_answers_coerce_to_false() {
    for raw in ["false", "no", "0", "banana", "maybe"] {
        assert_eq!(coerce(raw, MetaType::Boolean), Some(MetaValue::Boolean(false)));
    }
}

#[test]
fn number_coercion_keeps_cleaned_decimal_text() {
    assert_eq!(
        coerce("12.5 EUR", MetaType::Number),
        Some(MetaValue::Number(String::from("12.5")))
    );
    assert_eq!(coerce("no digits here", MetaType::Number), None);
    assert_eq!(coerce("1.2.3", MetaType::Number), None);
}

#[test]
fn sentinel_minus_one_yields_no_value() {
    assert_eq!(coerce("-1", MetaType::Integer), None);
    assert_eq!(coerce("-1", MetaType::Number), None);
}

#[test]
fn integer_coercion_rejects_out_of_range() {
    assert_eq!(coerce("2147483648", MetaType::Integer), None);
    assert_eq!(coerce("-2147483648", MetaType::Integer), Some(MetaValue::Integer(i32::MIN)));
}

#[test]
fn text_coercion_keeps_the_answer() {
    assert_eq!(
        coerce("Alice Smith", MetaType::Text),
        Some(MetaValue::Text(String::from("Alice Smith")))
    );
}

#[test]
fn declared_types_parse_from_stored_names() {
    assert_eq!(meta_type_from_name("STRING"), MetaType::Text);
    assert_eq!(meta_type_from_name("integer"), MetaType::Integer);
    assert_eq!(meta_type_from_name("Number"), MetaType::Number);
    assert_eq!(meta_type_from_name("BOOLEAN"), MetaType::Boolean);
    assert_eq!(meta_type_from_name("date"), MetaType::Date);
    assert_eq!(meta_type_from_name("mystery"), MetaType::Text);
    assert_eq!(name_of_type(MetaType::Number), "NUMBER");
}

#[test]
fn each_declared_type_selects_its_column() {
    assert_eq!(column_for_type(MetaType::Text), "metadata_value_string");
    assert_eq!(column_for_type(MetaType::Integer), "metadata_value_int");
    assert_eq!(column_for_type(MetaType::Number), "metadata_value_float");
    assert_eq!(column_for_type(MetaType::Boolean), "metadata_value_boolean");
    assert_eq!(column_for_type(MetaType::Date), "metadata_value_date");
}

#[test]
fn prompt_template_carries_description_and_type_hint() {
    let p = build_prompt_template("total invoice amount", MetaType::Number);
    assert_eq!(
        p,
        "You are an expert document analyzer. Extract the total invoice amount from this text. \
         Return ONLY the number (no currency symbol) or 'Not found' if it cannot be determined. \
         Text: {text}"
    );
    assert_eq!(hint_for(MetaType::Date), "date in DD/MM/YYYY format");
    assert_eq!(hint_for(MetaType::Boolean), "'true' or 'false'");
    assert_eq!(hint_for(MetaType::Text), "value");
}

#[test]
fn context_joins_chunks_with_section_markers() {
    let chunks = vec![String::from("first"), String::from("second")];
    let ctx = build_context(&chunks);
    assert_eq!(ctx, "\n\n---SECTION---\n\nfirst\n\n---SECTION---\n\nsecond");
    let none: Vec<String> = Vec::new();
    assert_eq!(build_context(&none), "");
}

#[test]
fn provenance_comment_names_model_and_fixed_confidence() {
    assert_eq!(
        comment_for("gpt-4o-mini"),
        "Extracted by model: gpt-4o-mini. Confidence: 0.95"
    );
}

#[test]
fn date_validity_follows_the_calendar() {
    assert!(date_valid(31, 1, 2024));
    assert!(!date_valid(31, 4, 2024));
    assert!(date_valid(29, 2, 2000));
    assert!(!date_valid(29, 2, 1900));
    assert!(!date_valid(0, 1, 2024));
    assert!(!date_valid(1, 13, 2024));
}

#[test]
fn iso_dates_read_back_exactly() {
    assert_eq!(
        parse_date_iso("2024-05-01"),
        Some(SimpleDate { day: 1, month: 5, year: 2024 })
    );
    assert_eq!(parse_date_iso("2024-02-30"), None);
    assert_eq!(parse_date_iso("2024-5-1"), Some(SimpleDate { day: 1, month: 5, year: 2024 }));
    assert_eq!(parse_date_iso("01/05/2024"), None);
    assert_eq!(parse_date_iso("2024-05"), None);
    assert_eq!(parse_date_iso("1899-01-01"), None);
}
