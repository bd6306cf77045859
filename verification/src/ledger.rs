use vstd::prelude::*;

verus! {

// Traceability: one ledger entry per retrieval or extraction invocation,
// and one answer-chunk link per chunk that contributed to the answer.

/// What kind of invocation a ledger entry records.
#[derive(Debug, Clone, Copy, PartialEq, Eq, Structural)]
pub enum QueryKind {
    Retrieval,
    MetadataExtraction,
}

/// One audit record of a retrieval or extraction invocation.
#[derive(Debug, Clone)]
pub struct LedgerEntry {
    pub uuid: String,
    pub kind: QueryKind,
    pub query_text: String,
    pub field_uuid: Option<String>,
    pub tags: Vec<String>,
    pub answer: Option<String>,
}

/// A link recording that a chunk contributed to an invocation's answer.
#[derive(Debug, Clone)]
pub struct AnswerChunkLink {
    pub ledger_index: usize,
    pub chunk_index: usize,
}

/// The audit log of query invocations and the chunks that answered them.
#[derive(Debug, Clone)]
pub struct QueryLedger {
    pub entries: Vec<LedgerEntry>,
    pub links: Vec<AnswerChunkLink>,
}

impl QueryLedger {
    /// Every link points at a recorded entry.
    pub open spec fn wf(self) -> bool {
        forall|i: int|
            0 <= i < self.links@.len() ==> (#[trigger] self.links@[i]).ledger_index
                < self.entries@.len()
    }

    /// An empty ledger.
    pub fn new_ledger() -> (r: QueryLedger)
        ensures
            r.wf(),
            r.entries@.len() == 0,
            r.links@.len() == 0,
    {
        QueryLedger { entries: Vec::new(), links: Vec::new() }
    }

    /// Records one invocation and returns its index.
    pub fn record_entry(&mut self, entry: LedgerEntry) -> (r: usize)
        requires
            old(self).wf(),
        ensures
            final(self).wf(),
            r == old(self).entries@.len(),
            final(self).entries@ == old(self).entries@.push(entry),
            final(self).links@ == old(self).links@,
    {
        let i = self.entries.len();
        self.entries.push(entry);
        i
    }

    /// Records which chunks contributed to an invocation's answer: one
    /// link per chunk, in order.
    pub fn record_answer_chunks(&mut self, ledger_index: usize, chunk_indices: &Vec<usize>)
        requires
            old(self).wf(),
            ledger_index < old(self).entries@.len(),
        ensures
            final(self).wf(),
            final(self).entries@ == old(self).entries@,
            final(self).links@.len() == old(self).links@.len() + chunk_indices@.len(),
            forall|j: int|
                0 <= j < old(self).links@.len() ==> final(self).links@[j] == old(self).links@[j],
            forall|k: int|
                0 <= k < chunk_indices@.len() ==> {
                    &&& (#[trigger] final(self).links@[old(self).links@.len() + k]).ledger_index
                        == ledger_index
                    &&& final(self).links@[old(self).links@.len() + k].chunk_index
                        == chunk_indices@[k]
                },
    {
        let ghost l0 = self.links@.len();
        let mut k: usize = 0;
        while k < chunk_indices.len()
            invariant
                0 <= k <= chunk_indices@.len(),
                ledger_index < self.entries@.len(),
                self.wf(),
                self.entries@ == old(self).entries@,
                l0 == old(self).links@.len(),
                self.links@.len() == l0 + k,
                forall|j: int| 0 <= j < l0 ==> self.links@[j] == old(self).links@[j],
                forall|p: int|
                    0 <= p < k ==> {
                        &&& (#[trigger] self.links@[l0 + p]).ledger_index == ledger_index
                        &&& self.links@[l0 + p].chunk_index == chunk_indices@[p]
                    },
            decreases chunk_indices@.len() - k,
        {
            self.links.push(AnswerChunkLink { ledger_index, chunk_index: chunk_indices[k] });
            k = k + 1;
        }
    }
}

} // verus!
