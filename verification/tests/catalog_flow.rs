use document_library::catalog::{Catalog, DocStatus, IngestOutcome};
use document_library::codec::encode_vector;
use document_library::metadata::{MetaType, MetaValue};

const TS: &str = "2024-05-01T12:00:00Z";

fn body(n: usize) -> Vec<u8> {
    (0..n).map(|i| (i % 251) as u8).collect()
}

fn sample_text(n: usize) -> String {
    let mut s = String::new();
    let chars: Vec<char> = "the quick brown fox jumps over the lazy dog ".chars().collect();
    for i in 0..n {
        s.push(chars[i % chars.len()]);
    }
    s
}

#[test]
fn ingesting_same_bytes_twice_marks_a_duplicate_and_skips_chunking() {
    let mut cat = Catalog::new_catalog(String::from("all-documents"));
    let bytes = body(4000);
    let text = sample_text(2500);
    let first = cat.ingest_document("report.pdf", "in/report.pdf", "PDF", &bytes, &text, 1000, 100, TS);
    assert_eq!(first.outcome, IngestOutcome::NewDocument);
    let chunks_after_first = cat.chunks.len();
    let embeddings_after_first = cat.embeddings.len();
    assert_eq!(chunks_after_first, 3);
    assert_eq!(embeddings_after_first, 3);

    // same content under a different object key
    let second = cat.ingest_document("copy-of-report.pdf", "in/copy.pdf", "PDF", &bytes, &text, 1000, 100, TS);
    assert_eq!(second.outcome, IngestOutcome::DuplicateDocument);
    assert_eq!(second.doc_index, first.doc_index);
    // no new document, chunk or embedding rows
    assert_eq!(cat.docs.len(), 1);
    assert_eq!(cat.chunks.len(), chunks_after_first);
    assert_eq!(cat.embeddings.len(), embeddings_after_first);
    // the one document is renamed and marked duplicate
    assert_eq!(cat.docs[0].name, "copy-of-report.pdf");
    assert_eq!(cat.docs[0].status, DocStatus::Duplicate);
    // exactly one non-duplicate document ever held this hash
    let active = cat
        .docs
        .iter()
        .filter(|d| d.status != DocStatus::Duplicate)
        .count();
    assert_eq!(active, 0); // the sole holder is now marked duplicate
}

#[test]
fn different_content_yields_two_documents() {
    let mut cat = Catalog::new_catalog(String::from("all-documents"));
    let r1 = cat.ingest_document("a.pdf", "in/a.pdf", "PDF", &body(100), &sample_text(50), 1000, 100, TS);
    let r2 = cat.ingest_document("b.pdf", "in/b.pdf", "PDF", &body(101), &sample_text(60), 1000, 100, TS);
    assert_eq!(r1.outcome, IngestOutcome::NewDocument);
    assert_eq!(r2.outcome, IngestOutcome::NewDocument);
    assert_eq!(cat.docs.len(), 2);
    assert_ne!(cat.docs[0].hash, cat.docs[1].hash);
}

#[test]
fn new_document_is_granted_to_the_default_group() {
    let mut cat = Catalog::new_catalog(String::from("all-documents"));
    let r = cat.ingest_document("a.pdf", "in/a.pdf", "PDF", &body(10), "tiny", 1000, 100, TS);
    assert_eq!(cat.doc_grants.len(), 1);
    assert_eq!(cat.doc_grants[0].doc_index, r.doc_index);
    assert_eq!(cat.doc_grants[0].group, "all-documents");
}

#[test]
fn embedding_upsert_updates_rather_than_duplicates() {
    let mut cat = Catalog::new_catalog(String::from("g"));
    cat.ingest_document("a.pdf", "in/a.pdf", "PDF", &body(10), "tiny", 1000, 100, TS);
    assert_eq!(cat.embeddings.len(), 1); // placeholder row
    let v1 = vec![1.0f32.to_bits(), 2.0f32.to_bits()];
    let row = cat.upsert_embedding(0, "mistral_generic", v1.clone(), 12);
    assert_eq!(cat.embeddings.len(), 1); // updated in place
    assert_eq!(cat.embeddings[row].vector, Some(v1));
    let v2 = vec![3.0f32.to_bits()];
    let row2 = cat.upsert_embedding(0, "mistral_generic", v2.clone(), 15);
    assert_eq!(cat.embeddings.len(), 1);
    assert_eq!(row2, row);
    assert_eq!(cat.embeddings[row2].vector, Some(v2));
    // a different embedder gets its own row
    cat.upsert_embedding(0, "other_model", vec![0], 1);
    assert_eq!(cat.embeddings.len(), 2);
}

#[test]
fn metadata_upsert_keeps_one_row_per_document_and_field() {
    let mut cat = Catalog::new_catalog(String::from("g"));
    cat.ingest_document("a.pdf", "in/a.pdf", "PDF", &body(10), "tiny", 1000, 100, TS);
    let r1 = cat.upsert_metadata(0, "field-1", MetaValue::Integer(42), "ledger-1", "first run");
    assert_eq!(cat.meta_values.len(), 1);
    let r2 = cat.upsert_metadata(0, "field-1", MetaValue::Integer(43), "ledger-2", "second run");
    assert_eq!(cat.meta_values.len(), 1);
    assert_eq!(r1, r2);
    assert_eq!(cat.meta_values[r2].value, MetaValue::Integer(43));
    assert_eq!(cat.meta_values[r2].ledger_uuid, "ledger-2");
    cat.upsert_metadata(0, "field-2", MetaValue::Boolean(true), "ledger-3", "other field");
    assert_eq!(cat.meta_values.len(), 2);
}

#[test]
fn ungranted_document_never_appears_in_results() {
    let mut cat = Catalog::new_catalog(String::from("g"));
    let visible_doc =
        cat.ingest_document("a.pdf", "in/a.pdf", "PDF", &body(10), "alpha", 1000, 100, TS);
    let hidden_doc = cat.ingest_document("b.pdf", "in/b.pdf", "PDF", &body(11), "beta", 1000, 100, TS);
    // alice is in the default group; no grant links bob anywhere
    cat.add_user_grant(String::from("g"), String::from("alice"));

    assert!(cat.visible(visible_doc.doc_index, "alice"));
    assert!(cat.visible(hidden_doc.doc_index, "alice"));
    assert!(!cat.visible(visible_doc.doc_index, "bob"));

    // revoke by building a catalog where only doc 0 is granted
    let mut scoped = Catalog::new_catalog(String::from("g"));
    let d0 = scoped.ingest_document("a.pdf", "in/a.pdf", "PDF", &body(10), "alpha", 1000, 100, TS);
    let d1 = scoped.ingest_document("b.pdf", "in/b.pdf", "PDF", &body(11), "beta", 1000, 100, TS);
    scoped.add_user_grant(String::from("private"), String::from("alice"));
    scoped.grant_document(d0.doc_index, String::from("private"));
    // doc d1 keeps only the default-group grant, which alice lacks

    // chunk 1 (of the hidden document) is the nearest by far
    let candidates = vec![(0usize, 900u64), (1usize, 5u64)];
    let got = scoped.retrieve_scoped(&candidates, "alice", &None, 10);
    assert_eq!(got.len(), 1);
    assert_eq!(got[0].0, 0);
    assert_eq!(scoped.chunks[got[0].0].doc_index, d0.doc_index);
    assert!(got.iter().all(|(ci, _)| scoped.chunks[*ci].doc_index != d1.doc_index));
}

#[test]
fn end_to_end_ingest_embed_and_scoped_retrieval() {
    let mut cat = Catalog::new_catalog(String::from("all-documents"));
    let text = sample_text(2500);
    let bytes = text.as_bytes().to_vec();
    let r = cat.ingest_document("doc.pdf", "in/doc.pdf", "PDF", &bytes, &text, 1000, 100, TS);
    assert_eq!(r.outcome, IngestOutcome::NewDocument);
    assert_eq!(cat.docs[r.doc_index].status, DocStatus::New);
    // three chunks with overlap 100, three placeholder embeddings
    assert_eq!(cat.chunks.len(), 3);
    assert!(cat.chunks.iter().all(|c| c.overlap == 100));
    assert_eq!(cat.embeddings.len(), 3);
    assert!(cat.embeddings.iter().all(|e| e.vector.is_none()));

    // fill every placeholder with a real vector
    for ci in 0..cat.chunks.len() {
        let vector = vec![(ci as f32).to_bits(), 1.5f32.to_bits()];
        let wire = encode_vector(&vector).unwrap();
        assert_eq!(wire.len(), 4 + 4 * 2);
        cat.upsert_embedding(ci, "mistral_generic", vector, 3);
    }
    assert_eq!(cat.embeddings.len(), 3);
    assert!(cat.embeddings.iter().all(|e| e.vector.is_some()));

    // chunking time recorded moves the document to processed
    cat.set_chunk_time(r.doc_index, 128, "2024-05-02T08:00:00Z");
    assert_eq!(cat.docs[r.doc_index].status, DocStatus::Processed);
    assert_eq!(cat.docs[r.doc_index].chunk_time_ms, 128);

    // a retrieval scoped to this document returns its chunks ordered by
    // ascending distance to the query embedding
    cat.add_user_grant(String::from("all-documents"), String::from("alice"));
    let candidates = vec![(2usize, 40u64), (0usize, 90u64), (1usize, 10u64)];
    let got = cat.retrieve_scoped(&candidates, "alice", &Some(r.doc_index), 10);
    assert_eq!(got.len(), 3);
    assert_eq!(got.iter().map(|p| p.0).collect::<Vec<_>>(), vec![1, 2, 0]);
    assert!(got.windows(2).all(|w| w[0].1 <= w[1].1));

    // truncation to the two nearest
    let top2 = cat.retrieve_scoped(&candidates, "alice", &Some(r.doc_index), 2);
    assert_eq!(top2.iter().map(|p| p.0).collect::<Vec<_>>(), vec![1, 2]);
}

#[test]
fn chunk_records_carry_their_own_content_hash() {
    let mut cat = Catalog::new_catalog(String::from("g"));
    cat.ingest_document("a.txt", "in/a.txt", "TXT", &body(10), "abc", 1000, 100, TS);
    assert_eq!(cat.chunks.len(), 1);
    assert_eq!(cat.chunks[0].text, "abc");
    // MD5 of the chunk text bytes
    assert_eq!(cat.chunks[0].hash, "900150983cd24fb0d6963f7d28e17f72");
    assert_eq!(cat.chunks[0].char_length, 3);
}

#[test]
fn field_answers_are_validated_then_upserted() {
    let mut cat = Catalog::new_catalog(String::from("g"));
    let r = cat.ingest_document("a.pdf", "in/a.pdf", "PDF", &body(10), "tiny", 1000, 100, TS);
    // a rejected answer leaves the stored metadata untouched
    let none = cat.apply_field_answer(r.doc_index, "f-1", MetaType::Integer, "not found", "l1", "m");
    assert_eq!(none, None);
    assert_eq!(cat.meta_values.len(), 0);
    // a produced value is upserted with its provenance comment
    let row = cat
        .apply_field_answer(r.doc_index, "f-1", MetaType::Integer, "42 kg", "l2", "gpt-4o-mini")
        .unwrap();
    assert_eq!(cat.meta_values[row].value, MetaValue::Integer(42));
    assert_eq!(cat.meta_values[row].comment, "Extracted by model: gpt-4o-mini. Confidence: 0.95");
    assert_eq!(cat.meta_values[row].ledger_uuid, "l2");
    // re-extraction updates the same row
    let row2 = cat
        .apply_field_answer(r.doc_index, "f-1", MetaType::Integer, "43", "l3", "gpt-4o-mini")
        .unwrap();
    assert_eq!(row2, row);
    assert_eq!(cat.meta_values.len(), 1);
    assert_eq!(cat.meta_values[row2].value, MetaValue::Integer(43));
}

#[test]
fn embedding_pass_skips_filled_rows_and_empty_chunks() {
    let mut cat = Catalog::new_catalog(String::from("g"));
    cat.ingest_document("a.pdf", "in/a.pdf", "PDF", &body(10), "tiny", 1000, 100, TS);
    // the placeholder row has no vector yet
    assert!(cat.needs_embedding(0, "mistral_generic"));
    cat.upsert_embedding(0, "mistral_generic", vec![1, 2, 3], 5);
    assert!(!cat.needs_embedding(0, "mistral_generic"));
    // another embedder still owes a vector
    assert!(cat.needs_embedding(0, "other_model"));
}

#[test]
fn audit_stamps_record_actor_and_clock_reading() {
    let mut cat = Catalog::new_catalog(String::from("g"));
    let r = cat.ingest_document("a.pdf", "in/a.pdf", "PDF", &body(10), "tiny", 1000, 100, TS);
    assert_eq!(cat.docs[r.doc_index].created_by, "system");
    assert_eq!(cat.docs[r.doc_index].created_at, TS);
    assert_eq!(cat.docs[r.doc_index].updated_by, "system");
    assert_eq!(cat.docs[r.doc_index].updated_at, TS);
    assert_eq!(cat.docs[r.doc_index].comments, None);
    // a later update keeps the creation stamp and refreshes the update stamp
    cat.set_chunk_time(r.doc_index, 7, "2024-05-02T08:00:00Z");
    assert_eq!(cat.docs[r.doc_index].created_at, TS);
    assert_eq!(cat.docs[r.doc_index].updated_at, "2024-05-02T08:00:00Z");
    // a duplicate upload refreshes the update stamp of the existing row
    let dup = cat.ingest_document("b.pdf", "in/b.pdf", "PDF", &body(10), "tiny", 1000, 100, "2024-05-03T09:00:00Z");
    assert_eq!(dup.outcome, IngestOutcome::DuplicateDocument);
    assert_eq!(cat.docs[r.doc_index].created_at, TS);
    assert_eq!(cat.docs[r.doc_index].updated_at, "2024-05-03T09:00:00Z");
}

#[test]
fn placeholder_rows_carry_the_unknown_sentinels() {
    let mut cat = Catalog::new_catalog(String::from("g"));
    cat.ingest_document("a.pdf", "in/a.pdf", "PDF", &body(10), "tiny", 1000, 100, TS);
    assert_eq!(cat.embeddings[0].token_count, -1);
    assert_eq!(cat.embeddings[0].time_ms, 0);
    assert!(cat.embeddings[0].vector.is_none());
    // a fresh row from the upsert also carries the unknown-token sentinel
    let row = cat.upsert_embedding(0, "other_model", vec![9], 4);
    assert_eq!(cat.embeddings[row].token_count, -1);
}

#[test]
fn nearest_candidates_win_the_truncation() {
    let mut cat = Catalog::new_catalog(String::from("g"));
    cat.ingest_document("a.pdf", "in/a.pdf", "PDF", &body(10), &sample_text(2500), 1000, 100, TS);
    cat.add_user_grant(String::from("g"), String::from("alice"));
    let candidates = vec![(0usize, 50u64), (1usize, 10u64), (2usize, 30u64)];
    let top1 = cat.retrieve_scoped(&candidates, "alice", &None, 1);
    assert_eq!(top1, vec![(1, 10)]);
    let top2 = cat.retrieve_scoped(&candidates, "alice", &None, 2);
    assert_eq!(top2, vec![(1, 10), (2, 30)]);
}
