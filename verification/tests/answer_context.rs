use document_library::answer::{
    chat_user_content, context_block, date_iso, join_with, meta_line, render_meta_value,
};
use document_library::catalog::Catalog;
use document_library::ledger::{LedgerEntry, QueryKind, QueryLedger};
use document_library::metadata::{MetaValue, SimpleDate};

const TS: &str = "2024-05-01T12:00:00Z";

#[test]
fn dates_render_iso_with_zero_padding() {
    assert_eq!(date_iso(&SimpleDate { day: 7, month: 3, year: 1999 }), "1999-03-07");
    assert_eq!(date_iso(&SimpleDate { day: 31, month: 12, year: 2024 }), "2024-12-31");
}

#[test]
fn typed_values_render_for_the_answer_context() {
    assert_eq!(render_meta_value(&MetaValue::Text(String::from("Alice"))), "Alice");
    assert_eq!(render_meta_value(&MetaValue::Integer(-42)), "-42");
    assert_eq!(render_meta_value(&MetaValue::Number(String::from("12.5"))), "12.5");
    assert_eq!(render_meta_value(&MetaValue::Boolean(true)), "true");
    assert_eq!(
        render_meta_value(&MetaValue::Date(SimpleDate { day: 1, month: 2, year: 2020 })),
        "2020-02-01"
    );
}

#[test]
fn context_blocks_carry_name_metadata_and_content() {
    let l1 = meta_line("author", &MetaValue::Text(String::from("Alice")));
    let l2 = meta_line("pages", &MetaValue::Integer(12));
    let block = join_with(&vec![l1, l2], "\n");
    assert_eq!(block, "author: Alice\npages: 12");
    let entry = context_block("report.pdf", &block, "chunk text here");
    assert_eq!(
        entry,
        "Document: report.pdf\nMetadata:\nauthor: Alice\npages: 12\nContent: chunk text here"
    );
    let user = chat_user_content(&entry, "who wrote it?");
    assert!(user.starts_with("Context: Document: report.pdf"));
    assert!(user.ends_with("\n\nQuestion: who wrote it?"));
}

#[test]
fn join_with_handles_empty_and_single() {
    let none: Vec<String> = Vec::new();
    assert_eq!(join_with(&none, ", "), "");
    assert_eq!(join_with(&vec![String::from("one")], ", "), "one");
}

#[test]
fn ledger_records_invocations_and_answer_chunks() {
    let mut ledger = QueryLedger::new_ledger();
    let e = ledger.record_entry(LedgerEntry {
        uuid: String::from("ledger-1"),
        kind: QueryKind::Retrieval,
        query_text: String::from("what is the total?"),
        field_uuid: None,
        tags: vec![String::from("invoice")],
        answer: None,
    });
    assert_eq!(e, 0);
    ledger.record_answer_chunks(e, &vec![4, 7, 9]);
    assert_eq!(ledger.links.len(), 3);
    assert_eq!(ledger.links[0].ledger_index, 0);
    assert_eq!(ledger.links[0].chunk_index, 4);
    assert_eq!(ledger.links[2].chunk_index, 9);
    let e2 = ledger.record_entry(LedgerEntry {
        uuid: String::from("ledger-2"),
        kind: QueryKind::MetadataExtraction,
        query_text: String::from("extract the author"),
        field_uuid: Some(String::from("field-author")),
        tags: Vec::new(),
        answer: None,
    });
    assert_eq!(e2, 1);
    assert_eq!(ledger.entries.len(), 2);
}

#[test]
fn document_lookups_by_name_and_chunk_listing() {
    let mut cat = Catalog::new_catalog(String::from("g"));
    let a = cat.ingest_document("a.txt", "in/a.txt", "TXT", &vec![1u8], "aaa", 2, 1, TS);
    let b = cat.ingest_document("b.txt", "in/b.txt", "TXT", &vec![2u8], "bbbbb", 2, 1, TS);
    assert_eq!(cat.find_document_by_name("a.txt"), Some(a.doc_index));
    assert_eq!(cat.find_document_by_name("b.txt"), Some(b.doc_index));
    assert_eq!(cat.find_document_by_name("c.txt"), None);
    let chunks_b = cat.chunks_of_document(b.doc_index);
    assert!(chunks_b.len() > 1);
    assert!(chunks_b.iter().all(|ci| cat.chunks[*ci].doc_index == b.doc_index));
    let mv = cat.upsert_metadata(b.doc_index, "f", MetaValue::Boolean(true), "l", "c");
    let metas = cat.metadata_of_document(b.doc_index);
    assert_eq!(metas, vec![mv]);
    assert_eq!(cat.metadata_of_document(a.doc_index), Vec::<usize>::new());
}
