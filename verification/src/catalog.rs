use crate::chunker::{chunk_at, chunk_count, spec_chunk_config_valid};
use crate::hashing::content_hash_of;
use crate::metadata::MetaValue;
use vstd::prelude::*;
use vstd::string::{StrSliceExecFns, StringExecFns};
use vstd::utf8::encode_utf8;

verus! {

// The in-memory model of the document library: documents keyed by content
// hash, their chunks, per-chunk embeddings, typed metadata values, and the
// access-grant chain document -> group -> identity.  Records reference
// each other by index; the stored id strings are opaque labels.

/// Lifecycle status of a document.
#[derive(Debug, Clone, Copy, PartialEq, Eq, Structural)]
pub enum DocStatus {
    New,
    Duplicate,
    Processed,
    Failed,
}

/// A stored document and its descriptive fields.
#[derive(Debug, Clone)]
pub struct DocumentRecord {
    pub uuid: String,
    pub name: String,
    pub location: String,
    pub hash: String,
    pub doc_type: String,
    pub byte_length: usize,
    pub status: DocStatus,
    pub chunk_time_ms: u64,
    pub tags: Vec<String>,
    pub comments: Option<String>,
    pub created_by: String,
    pub created_at: String,
    pub updated_by: String,
    pub updated_at: String,
}

/// One chunk of a document's extracted text.
#[derive(Debug, Clone)]
pub struct ChunkRecord {
    pub uuid: String,
    pub doc_index: usize,
    pub text: String,
    pub char_length: usize,
    pub overlap: usize,
    pub hash: String,
}

/// One embedding row for a chunk; a missing vector is a placeholder to be
/// filled by a later pass.
#[derive(Debug, Clone)]
pub struct EmbeddingRecord {
    pub uuid: String,
    pub chunk_index: usize,
    pub embedder: String,
    pub token_count: i64,
    pub time_ms: u64,
    pub vector: Option<Vec<u32>>,
}

/// One typed metadata value of a document.
#[derive(Debug, Clone)]
pub struct MetaValueRecord {
    pub uuid: String,
    pub doc_index: usize,
    pub field_uuid: String,
    pub value: MetaValue,
    pub ledger_uuid: String,
    pub comment: String,
}

/// A document granted to an access group.
#[derive(Debug, Clone)]
pub struct DocGrant {
    pub doc_index: usize,
    pub group: String,
}

/// An identity granted an access group.
#[derive(Debug, Clone)]
pub struct UserGrant {
    pub group: String,
    pub identity: String,
}

/// The whole store.
#[derive(Debug, Clone)]
pub struct Catalog {
    pub docs: Vec<DocumentRecord>,
    pub chunks: Vec<ChunkRecord>,
    pub embeddings: Vec<EmbeddingRecord>,
    pub meta_values: Vec<MetaValueRecord>,
    pub doc_grants: Vec<DocGrant>,
    pub user_grants: Vec<UserGrant>,
    pub default_group: String,
}

impl Catalog {
    /// Well-formedness: content hashes are unique across non-duplicate
    /// documents, each (chunk, embedder) pair holds at most one embedding
    /// row, each (document, field) pair holds at most one metadata value,
    /// and every cross-reference points at an existing record.
    pub open spec fn wf(self) -> bool {
        &&& forall|i: int, j: int|
            0 <= i < j < self.docs@.len() && self.docs@[i].status != DocStatus::Duplicate
                && self.docs@[j].status != DocStatus::Duplicate ==> self.docs@[i].hash@
                != self.docs@[j].hash@
        &&& forall|i: int, j: int|
            0 <= i < j < self.embeddings@.len() ==> !(self.embeddings@[i].chunk_index
                == self.embeddings@[j].chunk_index && self.embeddings@[i].embedder@
                == self.embeddings@[j].embedder@)
        &&& forall|i: int, j: int|
            0 <= i < j < self.meta_values@.len() ==> !(self.meta_values@[i].doc_index
                == self.meta_values@[j].doc_index && self.meta_values@[i].field_uuid@
                == self.meta_values@[j].field_uuid@)
        &&& forall|i: int|
            0 <= i < self.chunks@.len() ==> (#[trigger] self.chunks@[i]).doc_index
                < self.docs@.len()
        &&& forall|i: int|
            0 <= i < self.embeddings@.len() ==> (#[trigger] self.embeddings@[i]).chunk_index
                < self.chunks@.len()
        &&& forall|i: int|
            0 <= i < self.meta_values@.len() ==> (#[trigger] self.meta_values@[i]).doc_index
                < self.docs@.len()
        &&& forall|i: int|
            0 <= i < self.doc_grants@.len() ==> (#[trigger] self.doc_grants@[i]).doc_index
                < self.docs@.len()
    }
}

/// Deduplication invariant, stated on its own: in a well-formed catalog no
/// two non-duplicate documents carry the same content hash, so ingesting
/// the same byte content twice can leave at most one non-duplicate
/// document holding its hash.
pub proof fn lemma_dedup_hash_unique(cat: Catalog)
    requires
        cat.wf(),
    ensures
        forall|i: int, j: int|
            0 <= i < j < cat.docs@.len() && cat.docs@[i].status != DocStatus::Duplicate
                && cat.docs@[j].status != DocStatus::Duplicate ==> cat.docs@[i].hash@
                != cat.docs@[j].hash@,
{
}

/// How many non-duplicate documents carry a given content hash.
pub open spec fn count_active_with_hash(docs: Seq<DocumentRecord>, h: Seq<char>) -> int
    decreases docs.len(),
{
    if docs.len() == 0 {
        0
    } else {
        count_active_with_hash(docs.drop_last(), h) + if docs.last().status
            != DocStatus::Duplicate && docs.last().hash@ == h {
            1int
        } else {
            0int
        }
    }
}

proof fn lemma_count_active_witness(docs: Seq<DocumentRecord>, h: Seq<char>)
    requires
        count_active_with_hash(docs, h) > 0,
    ensures
        exists|i: int|
            0 <= i < docs.len() && (#[trigger] docs[i]).status != DocStatus::Duplicate
                && docs[i].hash@ == h,
    decreases docs.len(),
{
    if docs.len() > 0 {
        if docs.last().status != DocStatus::Duplicate && docs.last().hash@ == h {
            assert(docs[docs.len() - 1].status != DocStatus::Duplicate && docs[docs.len()
                - 1].hash@ == h);
        } else {
            lemma_count_active_witness(docs.drop_last(), h);
            let i = choose|i: int|
                0 <= i < docs.drop_last().len() && (#[trigger] docs.drop_last()[i]).status
                    != DocStatus::Duplicate && docs.drop_last()[i].hash@ == h;
            assert(docs[i].status != DocStatus::Duplicate && docs[i].hash@ == h);
        }
    }
}

/// Idempotence of ingestion, at the store level: however often the same
/// byte content is ingested, a well-formed catalog holds at most one
/// non-duplicate document with its content hash.
pub proof fn lemma_one_active_holder(cat: Catalog, h: Seq<char>)
    requires
        cat.wf(),
    ensures
        count_active_with_hash(cat.docs@, h) <= 1,
{
    lemma_count_active_le_one(cat.docs@, h);
}

proof fn lemma_count_active_le_one(docs: Seq<DocumentRecord>, h: Seq<char>)
    requires
        forall|i: int, j: int|
            0 <= i < j < docs.len() && (#[trigger] docs[i]).status != DocStatus::Duplicate
                && (#[trigger] docs[j]).status != DocStatus::Duplicate ==> docs[i].hash@
                != docs[j].hash@,
    ensures
        count_active_with_hash(docs, h) <= 1,
    decreases docs.len(),
{
    if docs.len() > 0 {
        let pre = docs.drop_last();
        assert(forall|i: int|
            0 <= i < pre.len() ==> (#[trigger] pre[i]) == docs[i]);
        lemma_count_active_le_one(pre, h);
        if docs.last().status != DocStatus::Duplicate && docs.last().hash@ == h {
            if count_active_with_hash(pre, h) > 0 {
                lemma_count_active_witness(pre, h);
                let i = choose|i: int|
                    0 <= i < pre.len() && (#[trigger] pre[i]).status != DocStatus::Duplicate
                        && pre[i].hash@ == h;
                assert(docs[i].hash@ != docs[docs.len() - 1].hash@);
                assert(false);
            }
        }
    }
}

/// Relies on uuid::Uuid::new_v4 and its Display impl: a random v4 UUID in
/// the hyphenated form, which is 36 characters long.  The value depends on
/// randomness; nothing more is assumed of it.
#[verifier::external_body]
fn fresh_uuid() -> (r: String)
    ensures
        r@.len() == 36,
{
    uuid::Uuid::new_v4().to_string()
}

fn clone_string_vec(v: &Vec<String>) -> (r: Vec<String>)
    ensures
        r@ == v@,
{
    let mut out: Vec<String> = Vec::new();
    let mut i: usize = 0;
    while i < v.len()
        invariant
            0 <= i <= v@.len(),
            out@ == v@.take(i as int),
        decreases v@.len() - i,
    {
        out.push(v[i].clone());
        proof {
            assert(v@.take(i + 1) =~= v@.take(i as int).push(v@[i as int]));
        }
        i = i + 1;
    }
    proof {
        assert(v@.take(v@.len() as int) =~= v@);
    }
    out
}

fn copy_doc(d: &DocumentRecord) -> (r: DocumentRecord)
    ensures
        r.uuid == d.uuid,
        r.name == d.name,
        r.location == d.location,
        r.hash == d.hash,
        r.doc_type == d.doc_type,
        r.byte_length == d.byte_length,
        r.status == d.status,
        r.chunk_time_ms == d.chunk_time_ms,
        r.tags@ == d.tags@,
        r.comments is Some <==> d.comments is Some,
        r.comments matches Some(c) ==> (d.comments matches Some(e) && c@ == e@),
        r.created_by == d.created_by,
        r.created_at == d.created_at,
        r.updated_by == d.updated_by,
        r.updated_at == d.updated_at,
{
    let comments = match &d.comments {
        Some(c) => Some(c.clone()),
        Option::None => Option::None,
    };
    DocumentRecord {
        uuid: d.uuid.clone(),
        name: d.name.clone(),
        location: d.location.clone(),
        hash: d.hash.clone(),
        doc_type: d.doc_type.clone(),
        byte_length: d.byte_length,
        status: d.status,
        chunk_time_ms: d.chunk_time_ms,
        tags: clone_string_vec(&d.tags),
        comments,
        created_by: d.created_by.clone(),
        created_at: d.created_at.clone(),
        updated_by: d.updated_by.clone(),
        updated_at: d.updated_at.clone(),
    }
}

/// Whether some embedding row already serves a (chunk, embedder) pair.
pub open spec fn has_embedding_row(c: Catalog, chunk_index: usize, embedder: Seq<char>) -> bool {
    exists|j: int|
        0 <= j < c.embeddings@.len() && (#[trigger] c.embeddings@[j]).chunk_index == chunk_index
            && c.embeddings@[j].embedder@ == embedder
}

/// Whether some value row already serves a (document, field) pair.
pub open spec fn has_meta_row(c: Catalog, doc_index: usize, field_uuid: Seq<char>) -> bool {
    exists|j: int|
        0 <= j < c.meta_values@.len() && (#[trigger] c.meta_values@[j]).doc_index == doc_index
            && c.meta_values@[j].field_uuid@ == field_uuid
}

/// What an ingestion did with the object's content.
#[derive(Debug, Clone, Copy, PartialEq, Eq, Structural)]
pub enum IngestOutcome {
    /// First sighting of this content hash: stored and chunked.
    NewDocument,
    /// The hash was already known: the existing document was renamed and
    /// marked duplicate, and nothing was chunked or embedded.
    DuplicateDocument,
}

/// The result of one ingestion: what happened and which document row now
/// stands for the content.
#[derive(Debug, Clone, Copy, PartialEq, Eq, Structural)]
pub struct IngestResult {
    pub outcome: IngestOutcome,
    pub doc_index: usize,
}

impl Catalog {
    /// An empty catalog with the given default access group.
    pub fn new_catalog(default_group: String) -> (r: Catalog)
        ensures
            r.wf(),
            r.docs@.len() == 0,
            r.chunks@.len() == 0,
            r.embeddings@.len() == 0,
            r.meta_values@.len() == 0,
            r.doc_grants@.len() == 0,
            r.user_grants@.len() == 0,
            r.default_group == default_group,
    {
        Catalog {
            docs: Vec::new(),
            chunks: Vec::new(),
            embeddings: Vec::new(),
            meta_values: Vec::new(),
            doc_grants: Vec::new(),
            user_grants: Vec::new(),
            default_group,
        }
    }

    /// Grants an identity membership of an access group.
    pub fn add_user_grant(&mut self, group: String, identity: String)
        requires
            old(self).wf(),
        ensures
            final(self).wf(),
            final(self).user_grants@ == old(self).user_grants@.push(
                UserGrant { group: group, identity: identity },
            ),
            final(self).docs@ == old(self).docs@,
            final(self).chunks@ == old(self).chunks@,
            final(self).embeddings@ == old(self).embeddings@,
            final(self).meta_values@ == old(self).meta_values@,
            final(self).doc_grants@ == old(self).doc_grants@,
            final(self).default_group == old(self).default_group,
    {
        self.user_grants.push(UserGrant { group, identity });
    }

    /// Grants a document to an access group.
    pub fn grant_document(&mut self, doc_index: usize, group: String)
        requires
            old(self).wf(),
            doc_index < old(self).docs@.len(),
        ensures
            final(self).wf(),
            final(self).doc_grants@ == old(self).doc_grants@.push(
                DocGrant { doc_index: doc_index, group: group },
            ),
            final(self).docs@ == old(self).docs@,
            final(self).chunks@ == old(self).chunks@,
            final(self).embeddings@ == old(self).embeddings@,
            final(self).meta_values@ == old(self).meta_values@,
            final(self).user_grants@ == old(self).user_grants@,
            final(self).default_group == old(self).default_group,
    {
        self.doc_grants.push(DocGrant { doc_index, group });
    }

    /// Looks a document up by content hash, returning the first match.
    pub fn find_document_by_hash(&self, hash: &str) -> (r: Option<usize>)
        ensures
            r matches Some(i) ==> (i < self.docs@.len() && self.docs@[i as int].hash@ == hash@
                && forall|j: int| 0 <= j < i ==> self.docs@[j].hash@ != hash@),
            r is None ==> forall|j: int| 0 <= j < self.docs@.len() ==> self.docs@[j].hash@ != hash@,
    {
        let mut i: usize = 0;
        while i < self.docs.len()
            invariant
                0 <= i <= self.docs@.len(),
                forall|j: int| 0 <= j < i ==> self.docs@[j].hash@ != hash@,
            decreases self.docs@.len() - i,
        {
            if crate::strutil::str_eq(self.docs[i].hash.as_str(), hash) {
                return Some(i);
            }
            i = i + 1;
        }
        Option::None
    }

    /// Records the elapsed chunking time on a document and moves it to
    /// the processed state, stamping the update with the caller's clock
    /// reading and the system actor.
    pub fn set_chunk_time(&mut self, doc_index: usize, ms: u64, now: &str)
        requires
            old(self).wf(),
            doc_index < old(self).docs@.len(),
            old(self).docs@[doc_index as int].status != DocStatus::Duplicate,
        ensures
            final(self).wf(),
            final(self).docs@.len() == old(self).docs@.len(),
            final(self).docs@[doc_index as int].chunk_time_ms == ms,
            final(self).docs@[doc_index as int].status == DocStatus::Processed,
            final(self).docs@[doc_index as int].uuid == old(self).docs@[doc_index as int].uuid,
            final(self).docs@[doc_index as int].name == old(self).docs@[doc_index as int].name,
            final(self).docs@[doc_index as int].location == old(self).docs@[doc_index as int].location,
            final(self).docs@[doc_index as int].hash == old(self).docs@[doc_index as int].hash,
            final(self).docs@[doc_index as int].doc_type == old(self).docs@[doc_index as int].doc_type,
            final(self).docs@[doc_index as int].byte_length == old(
                self,
            ).docs@[doc_index as int].byte_length,
            final(self).docs@[doc_index as int].tags@ == old(self).docs@[doc_index as int].tags@,
            final(self).docs@[doc_index as int].created_by == old(self).docs@[doc_index as int].created_by,
            final(self).docs@[doc_index as int].created_at == old(self).docs@[doc_index as int].created_at,
            final(self).docs@[doc_index as int].updated_by@ == "system"@,
            final(self).docs@[doc_index as int].updated_at@ == now@,
            forall|j: int|
                0 <= j < final(self).docs@.len() && j != doc_index ==> final(self).docs@[j] == old(
                    self,
                ).docs@[j],
            final(self).chunks@ == old(self).chunks@,
            final(self).embeddings@ == old(self).embeddings@,
            final(self).meta_values@ == old(self).meta_values@,
            final(self).doc_grants@ == old(self).doc_grants@,
            final(self).user_grants@ == old(self).user_grants@,
            final(self).default_group == old(self).default_group,
    {
        let mut d = copy_doc(&self.docs[doc_index]);
        d.chunk_time_ms = ms;
        d.status = DocStatus::Processed;
        d.updated_by = String::from_str("system");
        d.updated_at = String::from_str(now);
        self.docs.set(doc_index, d);
        proof {
            assert forall|i: int, j: int|
                0 <= i < j < self.docs@.len() && self.docs@[i].status != DocStatus::Duplicate
                    && self.docs@[j].status != DocStatus::Duplicate implies self.docs@[i].hash@
                != self.docs@[j].hash@ by {
                if i != doc_index {
                    assert(self.docs@[i] == old(self).docs@[i]);
                }
                if j != doc_index {
                    assert(self.docs@[j] == old(self).docs@[j]);
                }
                assert(self.docs@[doc_index as int].hash@ == old(
                    self,
                ).docs@[doc_index as int].hash@);
                assert(old(self).docs@[i].status != DocStatus::Duplicate);
                assert(old(self).docs@[j].status != DocStatus::Duplicate);
            }
        }
    }

    /// Ingests one object's content: computes the content hash, marks the
    /// existing document as a duplicate if the hash is already known, and
    /// otherwise stores a new document, chunks its text with the given
    /// policy, inserts a placeholder embedding row per chunk, and grants
    /// the document to the default access group.  Audit stamps carry the
    /// caller's clock reading and the system actor.
    #[verifier::rlimit(100)]
    pub fn ingest_document(
        &mut self,
        name: &str,
        location: &str,
        doc_type: &str,
        bytes: &Vec<u8>,
        text: &str,
        chunk_size: usize,
        chunk_overlap: usize,
        now: &str,
    ) -> (r: IngestResult)
        requires
            old(self).wf(),
            spec_chunk_config_valid(chunk_size as int, chunk_overlap as int),
        ensures
            final(self).wf(),
            final(self).user_grants@ == old(self).user_grants@,
            final(self).meta_values@ == old(self).meta_values@,
            final(self).default_group == old(self).default_group,
            r.outcome == IngestOutcome::DuplicateDocument <==> (exists|j: int|
                0 <= j < old(self).docs@.len() && old(self).docs@[j].hash@ == content_hash_of(
                    bytes@,
                )),
            r.outcome == IngestOutcome::DuplicateDocument ==> {
                &&& r.doc_index < old(self).docs@.len()
                &&& old(self).docs@[r.doc_index as int].hash@ == content_hash_of(bytes@)
                &&& final(self).docs@.len() == old(self).docs@.len()
                &&& final(self).docs@[r.doc_index as int].status == DocStatus::Duplicate
                &&& final(self).docs@[r.doc_index as int].name@ == name@
                &&& final(self).docs@[r.doc_index as int].hash == old(self).docs@[r.doc_index as int].hash
                &&& final(self).docs@[r.doc_index as int].uuid == old(self).docs@[r.doc_index as int].uuid
                &&& final(self).docs@[r.doc_index as int].location == old(self).docs@[r.doc_index as int].location
                &&& final(self).docs@[r.doc_index as int].doc_type == old(self).docs@[r.doc_index as int].doc_type
                &&& final(self).docs@[r.doc_index as int].byte_length == old(self).docs@[r.doc_index as int].byte_length
                &&& final(self).docs@[r.doc_index as int].chunk_time_ms == old(self).docs@[r.doc_index as int].chunk_time_ms
                &&& final(self).docs@[r.doc_index as int].created_by == old(self).docs@[r.doc_index as int].created_by
                &&& final(self).docs@[r.doc_index as int].created_at == old(self).docs@[r.doc_index as int].created_at
                &&& final(self).docs@[r.doc_index as int].updated_by@ == "system"@
                &&& final(self).docs@[r.doc_index as int].updated_at@ == now@
                &&& forall|j: int|
                    0 <= j < final(self).docs@.len() && j != r.doc_index ==> final(self).docs@[j] == old(
                        self,
                    ).docs@[j]
                &&& final(self).chunks@ == old(self).chunks@
                &&& final(self).embeddings@ == old(self).embeddings@
                &&& final(self).doc_grants@ == old(self).doc_grants@
            },
            r.outcome == IngestOutcome::NewDocument ==> {
                &&& r.doc_index == old(self).docs@.len()
                &&& final(self).docs@.len() == old(self).docs@.len() + 1
                &&& forall|j: int| 0 <= j < old(self).docs@.len() ==> final(self).docs@[j] == old(self).docs@[j]
                &&& final(self).docs@.last().hash@ == content_hash_of(bytes@)
                &&& final(self).docs@.last().name@ == name@
                &&& final(self).docs@.last().location@ == location@
                &&& final(self).docs@.last().doc_type@ == doc_type@
                &&& final(self).docs@.last().byte_length == bytes@.len()
                &&& final(self).docs@.last().status == DocStatus::New
                &&& final(self).docs@.last().chunk_time_ms == 0
                &&& final(self).docs@.last().tags@.len() == 0
                &&& final(self).docs@.last().comments is None
                &&& final(self).docs@.last().created_by@ == "system"@
                &&& final(self).docs@.last().created_at@ == now@
                &&& final(self).docs@.last().updated_by@ == "system"@
                &&& final(self).docs@.last().updated_at@ == now@
                &&& final(self).chunks@.len() == old(self).chunks@.len() + chunk_count(
                    text@.len() as int,
                    chunk_size as int,
                    chunk_overlap as int,
                )
                &&& forall|j: int| 0 <= j < old(self).chunks@.len() ==> final(self).chunks@[j] == old(self).chunks@[j]
                &&& forall|k: int|
                    old(self).chunks@.len() <= k < final(self).chunks@.len() ==> {
                        &&& (#[trigger] final(self).chunks@[k]).doc_index == r.doc_index
                        &&& final(self).chunks@[k].text@ == chunk_at(
                            text@,
                            chunk_size as int,
                            chunk_overlap as int,
                            k - old(self).chunks@.len(),
                        )
                        &&& final(self).chunks@[k].char_length == final(self).chunks@[k].text@.len()
                        &&& final(self).chunks@[k].overlap == chunk_overlap
                        &&& final(self).chunks@[k].hash@ == content_hash_of(
                            encode_utf8(final(self).chunks@[k].text@),
                        )
                    }
                &&& final(self).embeddings@.len() == old(self).embeddings@.len() + (final(self).chunks@.len()
                    - old(self).chunks@.len())
                &&& forall|j: int|
                    0 <= j < old(self).embeddings@.len() ==> final(self).embeddings@[j] == old(
                        self,
                    ).embeddings@[j]
                &&& forall|k: int|
                    old(self).embeddings@.len() <= k < final(self).embeddings@.len() ==> {
                        &&& (#[trigger] final(self).embeddings@[k]).chunk_index == old(
                            self,
                        ).chunks@.len() + (k - old(self).embeddings@.len())
                        &&& final(self).embeddings@[k].embedder@ == "mistral_generic"@
                        &&& final(self).embeddings@[k].vector is None
                    }
                &&& final(self).doc_grants@.len() == old(self).doc_grants@.len() + 1
                &&& forall|j: int|
                    0 <= j < old(self).doc_grants@.len() ==> final(self).doc_grants@[j] == old(
                        self,
                    ).doc_grants@[j]
                &&& final(self).doc_grants@.last().doc_index == r.doc_index
                &&& final(self).doc_grants@.last().group@ == old(self).default_group@
            },
    {
        let hash = crate::hashing::content_hash(bytes);
        match self.find_document_by_hash(hash.as_str()) {
            Some(i) => {
                // known content: rename, mark duplicate, touch nothing else
                let mut d = copy_doc(&self.docs[i]);
                d.status = DocStatus::Duplicate;
                d.name = String::from_str(name);
                d.updated_by = String::from_str("system");
                d.updated_at = String::from_str(now);
                self.docs.set(i, d);
                proof {
                    assert forall|a: int, b: int|
                        0 <= a < b < self.docs@.len() && self.docs@[a].status
                            != DocStatus::Duplicate && self.docs@[b].status != DocStatus::Duplicate
                            implies self.docs@[a].hash@ != self.docs@[b].hash@ by {
                        if a == i as int || b == i as int {
                            assert(self.docs@[i as int].status == DocStatus::Duplicate);
                        } else {
                            assert(self.docs@[a] == old(self).docs@[a]);
                            assert(self.docs@[b] == old(self).docs@[b]);
                        }
                    }
                }
                IngestResult { outcome: IngestOutcome::DuplicateDocument, doc_index: i }
            },
            Option::None => {
                let di = self.docs.len();
                let doc = DocumentRecord {
                    uuid: fresh_uuid(),
                    name: String::from_str(name),
                    location: String::from_str(location),
                    hash,
                    doc_type: String::from_str(doc_type),
                    byte_length: bytes.len(),
                    status: DocStatus::New,
                    chunk_time_ms: 0,
                    tags: Vec::new(),
                    comments: Option::None,
                    created_by: String::from_str("system"),
                    created_at: String::from_str(now),
                    updated_by: String::from_str("system"),
                    updated_at: String::from_str(now),
                };
                self.docs.push(doc);
                proof {
                    assert forall|a: int, b: int|
                        0 <= a < b < self.docs@.len() && self.docs@[a].status
                            != DocStatus::Duplicate && self.docs@[b].status != DocStatus::Duplicate
                            implies self.docs@[a].hash@ != self.docs@[b].hash@ by {
                        if b < self.docs@.len() - 1 {
                            assert(self.docs@[a] == old(self).docs@[a]);
                            assert(self.docs@[b] == old(self).docs@[b]);
                        } else {
                            assert(self.docs@[a] == old(self).docs@[a]);
                            assert(old(self).docs@[a].hash@ != content_hash_of(bytes@));
                        }
                    }
                }
                let pieces = crate::chunker::chunk_text(text, chunk_size, chunk_overlap);
                let ghost c0 = self.chunks@.len();
                let ghost e0 = self.embeddings@.len();
                let mut k: usize = 0;
                while k < pieces.len()
                    invariant
                        0 <= k <= pieces@.len(),
                        di < self.docs@.len(),
                        self.wf(),
                        c0 == old(self).chunks@.len(),
                        e0 == old(self).embeddings@.len(),
                        self.docs@ == old(self).docs@.push(self.docs@.last()),
                        di == old(self).docs@.len(),
                        self.docs@.last().hash@ == content_hash_of(bytes@),
                        self.docs@.last().name@ == name@,
                        self.docs@.last().location@ == location@,
                        self.docs@.last().doc_type@ == doc_type@,
                        self.docs@.last().byte_length == bytes@.len(),
                        self.docs@.last().status == DocStatus::New,
                        self.docs@.last().chunk_time_ms == 0,
                        self.docs@.last().tags@.len() == 0,
                        self.docs@.last().comments is None,
                        self.docs@.last().created_by@ == "system"@,
                        self.docs@.last().created_at@ == now@,
                        self.docs@.last().updated_by@ == "system"@,
                        self.docs@.last().updated_at@ == now@,
                        self.chunks@.len() == c0 + k,
                        self.embeddings@.len() == e0 + k,
                        forall|j: int| 0 <= j < c0 ==> self.chunks@[j] == old(self).chunks@[j],
                        forall|j: int|
                            0 <= j < e0 ==> self.embeddings@[j] == old(self).embeddings@[j],
                        forall|j: int|
                            0 <= j < e0 ==> (#[trigger] old(self).embeddings@[j]).chunk_index < c0,
                        forall|p: int|
                            c0 <= p < self.chunks@.len() ==> {
                                &&& (#[trigger] self.chunks@[p]).doc_index == di
                                &&& self.chunks@[p].text@ == pieces@[p - c0]@
                                &&& self.chunks@[p].char_length == self.chunks@[p].text@.len()
                                &&& self.chunks@[p].overlap == chunk_overlap
                                &&& self.chunks@[p].hash@ == content_hash_of(
                                    encode_utf8(self.chunks@[p].text@),
                                )
                            },
                        forall|p: int|
                            e0 <= p < self.embeddings@.len() ==> {
                                &&& (#[trigger] self.embeddings@[p]).chunk_index == c0 + (p - e0)
                                &&& self.embeddings@[p].embedder@ == "mistral_generic"@
                                &&& self.embeddings@[p].vector is None
                                &&& self.embeddings@[p].token_count == -1
                                &&& self.embeddings@[p].time_ms == 0
                            },
                        self.meta_values@ == old(self).meta_values@,
                        self.doc_grants@ == old(self).doc_grants@,
                        self.user_grants@ == old(self).user_grants@,
                        self.default_group == old(self).default_group,
                    decreases pieces@.len() - k,
                {
                    let piece = &pieces[k];
                    let piece_bytes = piece.as_str().as_bytes_vec();
                    let piece_hash = crate::hashing::content_hash(&piece_bytes);
                    let piece_len = piece.as_str().unicode_len();
                    let chunk = ChunkRecord {
                        uuid: fresh_uuid(),
                        doc_index: di,
                        text: piece.clone(),
                        char_length: piece_len,
                        overlap: chunk_overlap,
                        hash: piece_hash,
                    };
                    let ci = self.chunks.len();
                    self.chunks.push(chunk);
                    let emb = EmbeddingRecord {
                        uuid: fresh_uuid(),
                        chunk_index: ci,
                        embedder: String::from_str("mistral_generic"),
                        token_count: -1,
                        time_ms: 0,
                        vector: Option::None,
                    };
                    self.embeddings.push(emb);
                    k = k + 1;
                }
                let group = self.default_group.clone();
                self.doc_grants.push(DocGrant { doc_index: di, group });
                IngestResult { outcome: IngestOutcome::NewDocument, doc_index: di }
            },
        }
    }

    /// Looks a document up by display name, returning the first match.
    pub fn find_document_by_name(&self, name: &str) -> (r: Option<usize>)
        ensures
            r matches Some(i) ==> (i < self.docs@.len() && self.docs@[i as int].name@ == name@
                && forall|j: int| 0 <= j < i ==> self.docs@[j].name@ != name@),
            r is None ==> forall|j: int| 0 <= j < self.docs@.len() ==> self.docs@[j].name@ != name@,
    {
        let mut i: usize = 0;
        while i < self.docs.len()
            invariant
                0 <= i <= self.docs@.len(),
                forall|j: int| 0 <= j < i ==> self.docs@[j].name@ != name@,
            decreases self.docs@.len() - i,
        {
            if crate::strutil::str_eq(self.docs[i].name.as_str(), name) {
                return Some(i);
            }
            i = i + 1;
        }
        Option::None
    }

    /// Looks a document up by storage location, returning the first match.
    pub fn find_document_by_location(&self, location: &str) -> (r: Option<usize>)
        ensures
            r matches Some(i) ==> (i < self.docs@.len() && self.docs@[i as int].location@
                == location@ && forall|j: int| 0 <= j < i ==> self.docs@[j].location@ != location@),
            r is None ==> forall|j: int|
                0 <= j < self.docs@.len() ==> self.docs@[j].location@ != location@,
    {
        let mut i: usize = 0;
        while i < self.docs.len()
            invariant
                0 <= i <= self.docs@.len(),
                forall|j: int| 0 <= j < i ==> self.docs@[j].location@ != location@,
            decreases self.docs@.len() - i,
        {
            if crate::strutil::str_eq(self.docs[i].location.as_str(), location) {
                return Some(i);
            }
            i = i + 1;
        }
        Option::None
    }

    /// All chunk rows of one document, in storage order.
    pub fn chunks_of_document(&self, doc_index: usize) -> (r: Vec<usize>)
        ensures
            forall|k: int|
                0 <= k < r@.len() ==> (#[trigger] r@[k]) < self.chunks@.len()
                    && self.chunks@[r@[k] as int].doc_index == doc_index,
            forall|c: int|
                0 <= c < self.chunks@.len() && (#[trigger] self.chunks@[c]).doc_index == doc_index
                    ==> r@.contains(c as usize),
            forall|a: int, b: int| 0 <= a < b < r@.len() ==> r@[a] < r@[b],
    {
        let mut out: Vec<usize> = Vec::new();
        let mut i: usize = 0;
        while i < self.chunks.len()
            invariant
                0 <= i <= self.chunks@.len(),
                forall|k: int|
                    0 <= k < out@.len() ==> (#[trigger] out@[k]) < i
                        && self.chunks@[out@[k] as int].doc_index == doc_index,
                forall|c: int|
                    0 <= c < i && (#[trigger] self.chunks@[c]).doc_index == doc_index
                        ==> out@.contains(c as usize),
                forall|a: int, b: int| 0 <= a < b < out@.len() ==> out@[a] < out@[b],
            decreases self.chunks@.len() - i,
        {
            if self.chunks[i].doc_index == doc_index {
                let ghost prev = out@;
                out.push(i);
                proof {
                    assert(out@[out@.len() - 1] == i);
                    assert(forall|k: int| 0 <= k < prev.len() ==> out@[k] == prev[k]);
                    assert forall|c: int|
                        0 <= c < i + 1 && (#[trigger] self.chunks@[c]).doc_index == doc_index
                            implies out@.contains(c as usize) by {
                        if c < i {
                            assert(prev.contains(c as usize));
                            let k = choose|k: int| 0 <= k < prev.len() && prev[k] == c as usize;
                            assert(out@[k] == c as usize);
                        } else {
                            assert(out@[out@.len() - 1] == c as usize);
                        }
                    }
                }
            }
            i = i + 1;
        }
        out
    }

    /// All metadata value rows of one document.
    pub fn metadata_of_document(&self, doc_index: usize) -> (r: Vec<usize>)
        ensures
            forall|k: int|
                0 <= k < r@.len() ==> (#[trigger] r@[k]) < self.meta_values@.len()
                    && self.meta_values@[r@[k] as int].doc_index == doc_index,
            forall|c: int|
                0 <= c < self.meta_values@.len() && (#[trigger] self.meta_values@[c]).doc_index
                    == doc_index ==> r@.contains(c as usize),
    {
        let mut out: Vec<usize> = Vec::new();
        let mut i: usize = 0;
        while i < self.meta_values.len()
            invariant
                0 <= i <= self.meta_values@.len(),
                forall|k: int|
                    0 <= k < out@.len() ==> (#[trigger] out@[k]) < i
                        && self.meta_values@[out@[k] as int].doc_index == doc_index,
                forall|c: int|
                    0 <= c < i && (#[trigger] self.meta_values@[c]).doc_index == doc_index
                        ==> out@.contains(c as usize),
            decreases self.meta_values@.len() - i,
        {
            if self.meta_values[i].doc_index == doc_index {
                let ghost prev = out@;
                out.push(i);
                proof {
                    assert(out@[out@.len() - 1] == i);
                    assert(forall|k: int| 0 <= k < prev.len() ==> out@[k] == prev[k]);
                    assert forall|c: int|
                        0 <= c < i + 1 && (#[trigger] self.meta_values@[c]).doc_index == doc_index
                            implies out@.contains(c as usize) by {
                        if c < i {
                            assert(prev.contains(c as usize));
                            let k = choose|k: int| 0 <= k < prev.len() && prev[k] == c as usize;
                            assert(out@[k] == c as usize);
                        } else {
                            assert(out@[out@.len() - 1] == c as usize);
                        }
                    }
                }
            }
            i = i + 1;
        }
        out
    }

    /// Finds the embedding row of a (chunk, embedder) pair, if any.
    pub fn find_embedding(&self, chunk_index: usize, embedder: &str) -> (r: Option<usize>)
        ensures
            r matches Some(i) ==> (i < self.embeddings@.len()
                && self.embeddings@[i as int].chunk_index == chunk_index
                && self.embeddings@[i as int].embedder@ == embedder@),
            r is None ==> forall|j: int|
                0 <= j < self.embeddings@.len() ==> !((#[trigger] self.embeddings@[j]).chunk_index
                    == chunk_index && self.embeddings@[j].embedder@ == embedder@),
    {
        let mut i: usize = 0;
        while i < self.embeddings.len()
            invariant
                0 <= i <= self.embeddings@.len(),
                forall|j: int|
                    0 <= j < i ==> !((#[trigger] self.embeddings@[j]).chunk_index == chunk_index
                        && self.embeddings@[j].embedder@ == embedder@),
            decreases self.embeddings@.len() - i,
        {
            if self.embeddings[i].chunk_index == chunk_index && crate::strutil::str_eq(
                self.embeddings[i].embedder.as_str(),
                embedder,
            ) {
                return Some(i);
            }
            i = i + 1;
        }
        Option::None
    }

    /// Stores a chunk's embedding: updates the existing row of the
    /// (chunk, embedder) pair if one exists, otherwise inserts a new row.
    /// Re-processing therefore never duplicates an embedding.
    pub fn upsert_embedding(
        &mut self,
        chunk_index: usize,
        embedder: &str,
        vector: Vec<u32>,
        time_ms: u64,
    ) -> (r: usize)
        requires
            old(self).wf(),
            chunk_index < old(self).chunks@.len(),
        ensures
            final(self).wf(),
            final(self).docs@ == old(self).docs@,
            final(self).chunks@ == old(self).chunks@,
            final(self).meta_values@ == old(self).meta_values@,
            final(self).doc_grants@ == old(self).doc_grants@,
            final(self).user_grants@ == old(self).user_grants@,
            final(self).default_group == old(self).default_group,
            r < final(self).embeddings@.len(),
            final(self).embeddings@[r as int].chunk_index == chunk_index,
            final(self).embeddings@[r as int].embedder@ == embedder@,
            (final(self).embeddings@[r as int].vector matches Some(v) && v@ == vector@),
            final(self).embeddings@[r as int].time_ms == time_ms,
            forall|j: int|
                0 <= j < final(self).embeddings@.len() && j != r ==> final(self).embeddings@[j]
                    == old(self).embeddings@[j],
            has_embedding_row(*old(self), chunk_index, embedder@) <==> final(self).embeddings@.len() == old(self).embeddings@.len(),
            has_embedding_row(*old(self), chunk_index, embedder@) ==> (r < old(self).embeddings@.len()
                && final(self).embeddings@[r as int].uuid == old(self).embeddings@[r as int].uuid
                && final(self).embeddings@[r as int].token_count == old(self).embeddings@[r as int].token_count),
            !has_embedding_row(*old(self), chunk_index, embedder@) ==> final(self).embeddings@[r as int].token_count == -1,
            final(self).embeddings@.len() == old(self).embeddings@.len() || final(self).embeddings@.len() == old(self).embeddings@.len() + 1,
    {
        match self.find_embedding(chunk_index, embedder) {
            Some(i) => {
                let prev = &self.embeddings[i];
                let row = EmbeddingRecord {
                    uuid: prev.uuid.clone(),
                    chunk_index: prev.chunk_index,
                    embedder: prev.embedder.clone(),
                    token_count: prev.token_count,
                    time_ms,
                    vector: Some(vector),
                };
                self.embeddings.set(i, row);
                proof {
                    assert forall|a: int, b: int|
                        0 <= a < b < self.embeddings@.len() implies !(self.embeddings@[a].chunk_index
                        == self.embeddings@[b].chunk_index && self.embeddings@[a].embedder@
                        == self.embeddings@[b].embedder@) by {
                        assert(self.embeddings@[a].chunk_index == old(
                            self,
                        ).embeddings@[a].chunk_index);
                        assert(self.embeddings@[a].embedder@ == old(self).embeddings@[a].embedder@);
                        assert(self.embeddings@[b].chunk_index == old(
                            self,
                        ).embeddings@[b].chunk_index);
                        assert(self.embeddings@[b].embedder@ == old(self).embeddings@[b].embedder@);
                    }
                }
                i
            },
            Option::None => {
                let i = self.embeddings.len();
                let row = EmbeddingRecord {
                    uuid: fresh_uuid(),
                    chunk_index,
                    embedder: String::from_str(embedder),
                    token_count: -1,
                    time_ms,
                    vector: Some(vector),
                };
                self.embeddings.push(row);
                i
            },
        }
    }

    /// One field's tail of the extraction machine: the raw completion
    /// answer is validated and coerced against the field's declared type;
    /// a produced value is upserted with its provenance, and a rejected
    /// answer leaves the stored metadata untouched.
    pub fn apply_field_answer(
        &mut self,
        doc_index: usize,
        field_uuid: &str,
        field_type: crate::metadata::MetaType,
        raw_answer: &str,
        ledger_uuid: &str,
        model: &str,
    ) -> (r: Option<usize>)
        requires
            old(self).wf(),
            doc_index < old(self).docs@.len(),
        ensures
            final(self).wf(),
            final(self).docs@ == old(self).docs@,
            final(self).chunks@ == old(self).chunks@,
            final(self).embeddings@ == old(self).embeddings@,
            final(self).doc_grants@ == old(self).doc_grants@,
            final(self).user_grants@ == old(self).user_grants@,
            final(self).default_group == old(self).default_group,
            r is Some <==> crate::metadata::spec_coerce_some(raw_answer@, field_type),
            !crate::metadata::spec_coerce_some(raw_answer@, field_type) ==> final(self).meta_values@ == old(self).meta_values@,
            r matches Some(row) ==> {
                &&& row < final(self).meta_values@.len()
                &&& final(self).meta_values@[row as int].doc_index == doc_index
                &&& final(self).meta_values@[row as int].field_uuid@ == field_uuid@
                &&& crate::metadata::spec_value_matches(
                    raw_answer@,
                    field_type,
                    final(self).meta_values@[row as int].value,
                )
                &&& final(self).meta_values@[row as int].ledger_uuid@ == ledger_uuid@
                &&& final(self).meta_values@[row as int].comment@
                    == crate::metadata::spec_comment_for(model@)
                &&& forall|j: int|
                    0 <= j < final(self).meta_values@.len() && j != row ==> final(self).meta_values@[j] == old(self).meta_values@[j]
                &&& (has_meta_row(*old(self), doc_index, field_uuid@) <==> final(self).meta_values@.len() == old(self).meta_values@.len())
            },
    {
        match crate::metadata::coerce(raw_answer, field_type) {
            Some(value) => {
                let comment = crate::metadata::comment_for(model);
                let row = self.upsert_metadata(
                    doc_index,
                    field_uuid,
                    value,
                    ledger_uuid,
                    comment.as_str(),
                );
                Some(row)
            },
            Option::None => Option::None,
        }
    }

    /// Whether a (chunk, embedder) pair already holds a real vector, not
    /// just a placeholder row.
    pub fn has_filled_embedding(&self, chunk_index: usize, embedder: &str) -> (r: bool)
        ensures
            r == exists|j: int|
                0 <= j < self.embeddings@.len() && (#[trigger] self.embeddings@[j]).chunk_index
                    == chunk_index && self.embeddings@[j].embedder@ == embedder@
                    && self.embeddings@[j].vector is Some,
    {
        let mut i: usize = 0;
        while i < self.embeddings.len()
            invariant
                0 <= i <= self.embeddings@.len(),
                forall|j: int|
                    0 <= j < i ==> !((#[trigger] self.embeddings@[j]).chunk_index == chunk_index
                        && self.embeddings@[j].embedder@ == embedder@ && self.embeddings@[j].vector
                        is Some),
            decreases self.embeddings@.len() - i,
        {
            if self.embeddings[i].chunk_index == chunk_index && crate::strutil::str_eq(
                self.embeddings[i].embedder.as_str(),
                embedder,
            ) && self.embeddings[i].vector.is_some() {
                assert(self.embeddings@[i as int].chunk_index == chunk_index
                    && self.embeddings@[i as int].embedder@ == embedder@
                    && self.embeddings@[i as int].vector is Some);
                return true;
            }
            i = i + 1;
        }
        false
    }

    /// Whether the embedding pass still owes this chunk a vector: the
    /// chunk has text and no real vector is stored yet for the embedder.
    pub fn needs_embedding(&self, chunk_index: usize, embedder: &str) -> (r: bool)
        requires
            chunk_index < self.chunks@.len(),
        ensures
            r == (self.chunks@[chunk_index as int].text@.len() > 0 && !(exists|j: int|
                0 <= j < self.embeddings@.len() && (#[trigger] self.embeddings@[j]).chunk_index
                    == chunk_index && self.embeddings@[j].embedder@ == embedder@
                    && self.embeddings@[j].vector is Some)),
    {
        if self.chunks[chunk_index].text.as_str().is_empty() {
            return false;
        }
        !self.has_filled_embedding(chunk_index, embedder)
    }

    /// Finds the value row of a (document, field) pair, if any.
    pub fn find_metadata(&self, doc_index: usize, field_uuid: &str) -> (r: Option<usize>)
        ensures
            r matches Some(i) ==> (i < self.meta_values@.len()
                && self.meta_values@[i as int].doc_index == doc_index
                && self.meta_values@[i as int].field_uuid@ == field_uuid@),
            r is None ==> forall|j: int|
                0 <= j < self.meta_values@.len() ==> !((#[trigger] self.meta_values@[j]).doc_index
                    == doc_index && self.meta_values@[j].field_uuid@ == field_uuid@),
    {
        let mut i: usize = 0;
        while i < self.meta_values.len()
            invariant
                0 <= i <= self.meta_values@.len(),
                forall|j: int|
                    0 <= j < i ==> !((#[trigger] self.meta_values@[j]).doc_index == doc_index
                        && self.meta_values@[j].field_uuid@ == field_uuid@),
            decreases self.meta_values@.len() - i,
        {
            if self.meta_values[i].doc_index == doc_index && crate::strutil::str_eq(
                self.meta_values[i].field_uuid.as_str(),
                field_uuid,
            ) {
                return Some(i);
            }
            i = i + 1;
        }
        Option::None
    }

    /// Stores an extracted value for a (document, field) pair: updates the
    /// existing row if one exists, otherwise inserts a new one.
    /// Extraction therefore upserts and never duplicates a value row.
    pub fn upsert_metadata(
        &mut self,
        doc_index: usize,
        field_uuid: &str,
        value: MetaValue,
        ledger_uuid: &str,
        comment: &str,
    ) -> (r: usize)
        requires
            old(self).wf(),
            doc_index < old(self).docs@.len(),
        ensures
            final(self).wf(),
            final(self).docs@ == old(self).docs@,
            final(self).chunks@ == old(self).chunks@,
            final(self).embeddings@ == old(self).embeddings@,
            final(self).doc_grants@ == old(self).doc_grants@,
            final(self).user_grants@ == old(self).user_grants@,
            final(self).default_group == old(self).default_group,
            r < final(self).meta_values@.len(),
            final(self).meta_values@[r as int].doc_index == doc_index,
            final(self).meta_values@[r as int].field_uuid@ == field_uuid@,
            final(self).meta_values@[r as int].value == value,
            final(self).meta_values@[r as int].ledger_uuid@ == ledger_uuid@,
            final(self).meta_values@[r as int].comment@ == comment@,
            forall|j: int|
                0 <= j < final(self).meta_values@.len() && j != r ==> final(self).meta_values@[j]
                    == old(self).meta_values@[j],
            has_meta_row(*old(self), doc_index, field_uuid@) <==> final(self).meta_values@.len() == old(self).meta_values@.len(),
            has_meta_row(*old(self), doc_index, field_uuid@) ==> (r < old(self).meta_values@.len()
                && final(self).meta_values@[r as int].uuid == old(self).meta_values@[r as int].uuid),
            final(self).meta_values@.len() == old(self).meta_values@.len() || final(self).meta_values@.len() == old(self).meta_values@.len() + 1,
    {
        match self.find_metadata(doc_index, field_uuid) {
            Some(i) => {
                let prev = &self.meta_values[i];
                let row = MetaValueRecord {
                    uuid: prev.uuid.clone(),
                    doc_index: prev.doc_index,
                    field_uuid: prev.field_uuid.clone(),
                    value,
                    ledger_uuid: String::from_str(ledger_uuid),
                    comment: String::from_str(comment),
                };
                self.meta_values.set(i, row);
                proof {
                    assert forall|a: int, b: int|
                        0 <= a < b < self.meta_values@.len() implies !(self.meta_values@[a].doc_index
                        == self.meta_values@[b].doc_index && self.meta_values@[a].field_uuid@
                        == self.meta_values@[b].field_uuid@) by {
                        assert(self.meta_values@[a].doc_index == old(
                            self,
                        ).meta_values@[a].doc_index);
                        assert(self.meta_values@[a].field_uuid@ == old(
                            self,
                        ).meta_values@[a].field_uuid@);
                        assert(self.meta_values@[b].doc_index == old(
                            self,
                        ).meta_values@[b].doc_index);
                        assert(self.meta_values@[b].field_uuid@ == old(
                            self,
                        ).meta_values@[b].field_uuid@);
                    }
                }
                i
            },
            Option::None => {
                let i = self.meta_values.len();
                let row = MetaValueRecord {
                    uuid: fresh_uuid(),
                    doc_index,
                    field_uuid: String::from_str(field_uuid),
                    value,
                    ledger_uuid: String::from_str(ledger_uuid),
                    comment: String::from_str(comment),
                };
                self.meta_values.push(row);
                i
            },
        }
    }
}

/// Whether a grant path document -> group -> identity exists.
pub open spec fn spec_visible(c: Catalog, doc_index: usize, identity: Seq<char>) -> bool {
    exists|i: int, j: int|
        0 <= i < c.doc_grants@.len() && 0 <= j < c.user_grants@.len() && (#[trigger] c.doc_grants@[i]).doc_index
            == doc_index && c.doc_grants@[i].group@ == (#[trigger] c.user_grants@[j]).group@
            && c.user_grants@[j].identity@ == identity
}

/// The candidates whose owning document the identity may see, with an
/// optional restriction to one document; order kept.  Each candidate is a
/// (chunk index, distance) pair.
pub open spec fn spec_scope_filter(
    c: Catalog,
    cands: Seq<(usize, u64)>,
    identity: Seq<char>,
    restrict: Option<usize>,
) -> Seq<(usize, u64)>
    decreases cands.len(),
{
    if cands.len() == 0 {
        Seq::empty()
    } else {
        let pre = spec_scope_filter(c, cands.drop_last(), identity, restrict);
        if cands.last().0 < c.chunks@.len() && spec_visible(
            c,
            c.chunks@[cands.last().0 as int].doc_index,
            identity,
        ) && (match restrict {
            Some(d) => c.chunks@[cands.last().0 as int].doc_index == d,
            Option::None => true,
        }) {
            pre.push(cands.last())
        } else {
            pre
        }
    }
}

/// Access scoping: a chunk of a document with no grant path to the
/// identity never enters the scoped candidate set, whatever its vector
/// similarity rank.
pub proof fn lemma_access_scoping(
    c: Catalog,
    cands: Seq<(usize, u64)>,
    identity: Seq<char>,
    restrict: Option<usize>,
    x: (usize, u64),
)
    requires
        spec_scope_filter(c, cands, identity, restrict).contains(x),
    ensures
        x.0 < c.chunks@.len(),
        spec_visible(c, c.chunks@[x.0 as int].doc_index, identity),
    decreases cands.len(),
{
    if cands.len() > 0 {
        let pre = spec_scope_filter(c, cands.drop_last(), identity, restrict);
        let whole = spec_scope_filter(c, cands, identity, restrict);
        if whole == pre {
            lemma_access_scoping(c, cands.drop_last(), identity, restrict, x);
        } else {
            if x != cands.last() {
                assert(pre.push(cands.last())[pre.len() as int] == cands.last());
                assert forall|i: int| 0 <= i < whole.len() && whole[i] == x implies pre.contains(
                    x,
                ) by {
                    assert(i < pre.len());
                    assert(pre[i] == x);
                }
                assert(pre.contains(x));
                lemma_access_scoping(c, cands.drop_last(), identity, restrict, x);
            }
        }
    }
}

/// Ascending order by distance.
pub open spec fn spec_sorted_by_distance(s: Seq<(usize, u64)>) -> bool {
    forall|i: int, j: int| 0 <= i < j < s.len() ==> (#[trigger] s[i]).1 <= (#[trigger] s[j]).1
}

impl Catalog {
    /// Tests whether a grant path document -> group -> identity exists.
    pub fn visible(&self, doc_index: usize, identity: &str) -> (r: bool)
        ensures
            r == spec_visible(*self, doc_index, identity@),
    {
        let mut i: usize = 0;
        while i < self.doc_grants.len()
            invariant
                0 <= i <= self.doc_grants@.len(),
                forall|a: int, b: int|
                    0 <= a < i && 0 <= b < self.user_grants@.len() ==> !((#[trigger] self.doc_grants@[a]).doc_index
                        == doc_index && self.doc_grants@[a].group@
                        == (#[trigger] self.user_grants@[b]).group@
                        && self.user_grants@[b].identity@ == identity@),
            decreases self.doc_grants@.len() - i,
        {
            if self.doc_grants[i].doc_index == doc_index {
                let mut j: usize = 0;
                while j < self.user_grants.len()
                    invariant
                        0 <= j <= self.user_grants@.len(),
                        i < self.doc_grants@.len(),
                        self.doc_grants@[i as int].doc_index == doc_index,
                        forall|b: int|
                            0 <= b < j ==> !(self.doc_grants@[i as int].group@
                                == (#[trigger] self.user_grants@[b]).group@
                                && self.user_grants@[b].identity@ == identity@),
                    decreases self.user_grants@.len() - j,
                {
                    if crate::strutil::str_eq(
                        self.doc_grants[i].group.as_str(),
                        self.user_grants[j].group.as_str(),
                    ) && crate::strutil::str_eq(
                        self.user_grants[j].identity.as_str(),
                        identity,
                    ) {
                        return true;
                    }
                    j = j + 1;
                }
            }
            i = i + 1;
        }
        false
    }

    /// Keeps the candidates whose document the identity may see, in
    /// order, honouring an optional single-document restriction.
    pub fn scope_candidates(
        &self,
        cands: &Vec<(usize, u64)>,
        identity: &str,
        restrict: &Option<usize>,
    ) -> (r: Vec<(usize, u64)>)
        ensures
            r@ == spec_scope_filter(*self, cands@, identity@, *restrict),
    {
        let mut out: Vec<(usize, u64)> = Vec::new();
        let mut i: usize = 0;
        while i < cands.len()
            invariant
                0 <= i <= cands@.len(),
                out@ == spec_scope_filter(*self, cands@.take(i as int), identity@, *restrict),
            decreases cands@.len() - i,
        {
            proof {
                assert(cands@.take(i + 1).drop_last() =~= cands@.take(i as int));
                assert(cands@.take(i + 1).last() == cands@[i as int]);
            }
            let (ci, dist) = cands[i];
            if ci < self.chunks.len() {
                let keep_doc = match restrict {
                    Some(d) => self.chunks[ci].doc_index == *d,
                    Option::None => true,
                };
                if keep_doc && self.visible(self.chunks[ci].doc_index, identity) {
                    out.push((ci, dist));
                    proof {
                        assert((ci, dist) == cands@[i as int]);
                    }
                }
            }
            i = i + 1;
        }
        proof {
            assert(cands@.take(cands@.len() as int) =~= cands@);
        }
        out
    }

    /// Orders the scoped candidates by ascending vector distance and
    /// keeps the closest `top_k`: the scoped nearest-neighbour answer.
    pub fn retrieve_scoped(
        &self,
        cands: &Vec<(usize, u64)>,
        identity: &str,
        restrict: &Option<usize>,
        top_k: usize,
    ) -> (r: Vec<(usize, u64)>)
        ensures
            spec_sorted_by_distance(r@),
            r@.len() == vstd::math::min(
                top_k as int,
                spec_scope_filter(*self, cands@, identity@, *restrict).len() as int,
            ),
            forall|x: (usize, u64)|
                r@.to_multiset().count(x) <= spec_scope_filter(
                    *self,
                    cands@,
                    identity@,
                    *restrict,
                ).to_multiset().count(x),
            forall|i: int, y: (usize, u64)|
                #![trigger r@[i], r@.to_multiset().count(y)]
                0 <= i < r@.len() && spec_scope_filter(
                    *self,
                    cands@,
                    identity@,
                    *restrict,
                ).to_multiset().count(y) > r@.to_multiset().count(y) ==> r@[i].1 <= y.1,
    {
        let scoped = self.scope_candidates(cands, identity, restrict);
        let sorted = sort_by_distance(scoped);
        let ghost full = sorted@;
        let mut out: Vec<(usize, u64)> = Vec::new();
        let mut i: usize = 0;
        let keep = if top_k < sorted.len() {
            top_k
        } else {
            sorted.len()
        };
        while i < keep
            invariant
                0 <= i <= keep,
                keep <= sorted@.len(),
                sorted@ == full,
                out@ == full.take(i as int),
            decreases keep - i,
        {
            out.push(sorted[i]);
            proof {
                assert(full.take(i + 1) =~= full.take(i as int).push(full[i as int]));
            }
            i = i + 1;
        }
        proof {
            let scoped_seq = spec_scope_filter(*self, cands@, identity@, *restrict);
            lemma_prefix_multiset_le(full, keep as int);
            vstd::seq_lib::lemma_multiset_commutative(full, full);
            assert(out@ == full.take(keep as int));
            assert(spec_sorted_by_distance(out@)) by {
                assert(forall|a: int, b: int|
                    0 <= a < b < out@.len() ==> (#[trigger] out@[a]).1 == full[a].1
                        && (#[trigger] out@[b]).1 == full[b].1);
            }
            // every kept candidate is at least as near as every dropped one
            assert forall|i: int, y: (usize, u64)|
                0 <= i < out@.len() && scoped_seq.to_multiset().count(y) > out@.to_multiset().count(
                    y,
                ) implies out@[i].1 <= y.1 by {
                assert(full.to_multiset().count(y) > full.take(keep as int).to_multiset().count(y));
                lemma_count_gap_witness(full, keep as int, y);
                let j = choose|j: int| keep <= j < full.len() && full[j] == y;
                assert(out@[i] == full[i as int]);
                assert(full[i as int].1 <= full[j].1);
            }
        }
        out
    }
}

/// If a prefix holds fewer copies of an element than the whole sequence,
/// a copy stands beyond the prefix.
proof fn lemma_count_gap_witness(s: Seq<(usize, u64)>, k: int, y: (usize, u64))
    requires
        0 <= k <= s.len(),
        s.take(k).to_multiset().count(y) < s.to_multiset().count(y),
    ensures
        exists|j: int| k <= j < s.len() && s[j] == y,
    decreases s.len() - k,
{
    broadcast use vstd::seq_lib::group_to_multiset_ensures;

    if k == s.len() {
        assert(s.take(k) =~= s);
    } else {
        assert(s.take(k + 1) =~= s.take(k).push(s[k]));
        if s[k] == y {
            assert(k <= k < s.len() && s[k] == y);
        } else {
            assert(s.take(k + 1).to_multiset().count(y) == s.take(k).to_multiset().count(y));
            lemma_count_gap_witness(s, k + 1, y);
            let j = choose|j: int| k + 1 <= j < s.len() && s[j] == y;
            assert(k <= j < s.len() && s[j] == y);
        }
    }
}

/// A prefix never holds more copies of an element than the whole.
proof fn lemma_prefix_multiset_le(s: Seq<(usize, u64)>, k: int)
    requires
        0 <= k <= s.len(),
    ensures
        forall|x: (usize, u64)|
            s.take(k).to_multiset().count(x) <= s.to_multiset().count(x),
    decreases s.len() - k,
{
    broadcast use vstd::seq_lib::group_to_multiset_ensures;

    if k == s.len() {
        assert(s.take(k) =~= s);
    } else {
        lemma_prefix_multiset_le(s, k + 1);
        assert(s.take(k + 1) =~= s.take(k).push(s[k]));
        assert(forall|x: (usize, u64)|
            s.take(k).to_multiset().count(x) <= s.take(k + 1).to_multiset().count(x));
    }
}

/// Sorts candidate pairs by ascending distance, keeping exactly the same
/// collection of pairs.
fn sort_by_distance(v: Vec<(usize, u64)>) -> (r: Vec<(usize, u64)>)
    ensures
        spec_sorted_by_distance(r@),
        r@.to_multiset() == v@.to_multiset(),
        r@.len() == v@.len(),
{
    broadcast use vstd::seq_lib::group_to_multiset_ensures;

    let mut work = v;
    let mut out: Vec<(usize, u64)> = Vec::new();
    let ghost whole = work@;
    proof {
        assert(out@.to_multiset().add(work@.to_multiset()) =~= work@.to_multiset());
    }
    while work.len() > 0
        invariant
            out@.to_multiset().add(work@.to_multiset()) == whole.to_multiset(),
            out@.len() + work@.len() == whole.len(),
            spec_sorted_by_distance(out@),
            forall|a: int, b: int|
                0 <= a < out@.len() && 0 <= b < work@.len() ==> (#[trigger] out@[a]).1
                    <= (#[trigger] work@[b]).1,
        decreases work@.len(),
    {
        // find the index of a minimal remaining distance
        let mut m: usize = 0;
        let mut j: usize = 1;
        while j < work.len()
            invariant
                0 < work@.len(),
                0 <= m < j <= work@.len(),
                forall|b: int| 0 <= b < j ==> work@[m as int].1 <= (#[trigger] work@[b]).1,
            decreases work@.len() - j,
        {
            if work[j].1 < work[m].1 {
                m = j;
            }
            j = j + 1;
        }
        let ghost wfull = work@;
        let ghost oprev = out@;
        let picked = work.remove(m);
        out.push(picked);
        proof {
            oprev.to_multiset_ensures();
            wfull.to_multiset_ensures();
            assert(picked == wfull[m as int]);
            assert(work@ == wfull.remove(m as int));
            assert(out@ == oprev.push(picked));
            assert(oprev.push(picked).to_multiset() =~= oprev.to_multiset().insert(picked));
            assert(out@.to_multiset() == oprev.to_multiset().insert(picked));
            assert(wfull.remove(m as int).to_multiset() =~= wfull.to_multiset().remove(
                wfull[m as int],
            ));
            assert(work@.to_multiset() == wfull.to_multiset().remove(picked));
            assert(wfull.contains(picked));
            assert(wfull.to_multiset().count(picked) > 0);
            assert(out@.to_multiset().add(work@.to_multiset()) =~= oprev.to_multiset().add(
                wfull.to_multiset(),
            ));
            assert(forall|b: int| 0 <= b < wfull.len() ==> picked.1 <= (#[trigger] wfull[b]).1);
            assert forall|a: int, b: int|
                0 <= a < out@.len() && 0 <= b < work@.len() implies (#[trigger] out@[a]).1
                <= (#[trigger] work@[b]).1 by {
                assert(work@[b] == if b < m {
                    wfull[b]
                } else {
                    wfull[b + 1]
                });
                if a < oprev.len() {
                    assert(out@[a] == oprev[a]);
                } else {
                    assert(out@[a] == picked);
                }
            }
            assert forall|a: int, b: int|
                0 <= a < b < out@.len() implies (#[trigger] out@[a]).1 <= (#[trigger] out@[b]).1 by {
                if b < oprev.len() {
                    assert(out@[a] == oprev[a] && out@[b] == oprev[b]);
                } else {
                    assert(out@[b] == picked);
                    assert(out@[a] == oprev[a]);
                    assert(oprev[a].1 <= wfull[m as int].1);
                }
            }
        }
    }
    proof {
        work@.to_multiset_ensures();
        out@.to_multiset_ensures();
        whole.to_multiset_ensures();
        assert(forall|x: (usize, u64)| work@.to_multiset().count(x) == 0) by {
            assert(forall|x: (usize, u64)| !work@.contains(x));
        }
        assert(out@.to_multiset() =~= whole.to_multiset());
    }
    out
}

} // verus!
