use vstd::prelude::*;
use vstd::string::StringExecFns;

verus! {

// Splitting of extracted document text into overlapping fixed-size windows:
// each window holds `chunk_size` characters, and consecutive windows share
// `chunk_overlap` characters at their boundary.  The final window may be
// shorter; it always ends at the end of the text.

/// A chunking configuration is valid when the window is non-empty and the
/// overlap is strictly smaller than the window; otherwise the sliding
/// window could not advance.
pub open spec fn spec_chunk_config_valid(chunk_size: int, chunk_overlap: int) -> bool {
    0 < chunk_size && 0 <= chunk_overlap < chunk_size
}

/// Checks a chunking configuration before any chunking starts.
pub fn chunk_config_valid(chunk_size: usize, chunk_overlap: usize) -> (r: bool)
    ensures
        r == spec_chunk_config_valid(chunk_size as int, chunk_overlap as int),
{
    chunk_size > 0 && chunk_overlap < chunk_size
}

/// Where chunk `i` starts: each chunk begins `chunk_size - chunk_overlap`
/// characters after its predecessor.
pub open spec fn chunk_start(c: int, o: int, i: int) -> int
    decreases i,
{
    if i <= 0 {
        0
    } else {
        chunk_start(c, o, i - 1) + (c - o)
    }
}

/// The text of chunk `i`: a window of `c` characters from its start, cut
/// short at the end of the text.
pub open spec fn chunk_at(s: Seq<char>, c: int, o: int, i: int) -> Seq<char> {
    let st = chunk_start(c, o, i);
    if st + c <= s.len() {
        s.subrange(st, st + c)
    } else {
        s.subrange(st, s.len() as int)
    }
}

/// How many chunks a text of `n` characters yields: none when empty, one
/// when it fits in a single window, and otherwise one more than what
/// remains after the window advances.
pub open spec fn chunk_count(n: int, c: int, o: int) -> int
    decreases n,
    when 0 <= o < c
{
    if n <= 0 {
        0
    } else if n <= c {
        1
    } else {
        1 + chunk_count(n - (c - o), c, o)
    }
}

fn copy_range(v: &Vec<char>, from: usize, to: usize) -> (r: Vec<char>)
    requires
        from <= to <= v@.len(),
    ensures
        r@ == v@.subrange(from as int, to as int),
{
    let mut out: Vec<char> = Vec::new();
    let mut i: usize = from;
    while i < to
        invariant
            from <= i <= to <= v@.len(),
            out@ == v@.subrange(from as int, i as int),
        decreases to - i,
    {
        out.push(v[i]);
        proof {
            assert(v@.subrange(from as int, i + 1) =~= v@.subrange(from as int, i as int).push(
                v@[i as int],
            ));
        }
        i = i + 1;
    }
    out
}

/// Splits `text` into overlapping windows of `chunk_size` characters;
/// consecutive chunks share `chunk_overlap` characters.  An empty text
/// yields no chunks; a text that fits in one window yields one chunk.
pub fn chunk_text(text: &str, chunk_size: usize, chunk_overlap: usize) -> (chunks: Vec<String>)
    requires
        spec_chunk_config_valid(chunk_size as int, chunk_overlap as int),
    ensures
        chunks@.len() == chunk_count(text@.len() as int, chunk_size as int, chunk_overlap as int),
        forall|i: int|
            0 <= i < chunks@.len() ==> chunks@[i]@ == chunk_at(
                text@,
                chunk_size as int,
                chunk_overlap as int,
                i,
            ),
{
    let ghost c = chunk_size as int;
    let ghost o = chunk_overlap as int;
    let ch = crate::strutil::chars_of(text);
    let n = ch.len();
    let ghost gn = text@.len() as int;
    let mut chunks: Vec<String> = Vec::new();
    if n == 0 {
        return chunks;
    }
    if n <= chunk_size {
        let piece = crate::strutil::string_from_chars(&ch);
        chunks.push(piece);
        assert(chunk_at(text@, c, o, 0) =~= text@);
        return chunks;
    }
    let mut start: usize = 0;
    loop
        invariant_except_break
            gn == ch@.len(),
            ch@ == text@,
            gn > c,
            0 < c <= usize::MAX,
            0 <= o < c,
            chunk_size == c,
            chunk_overlap == o,
            n == gn,
            start < n,
            o < gn - start,
            start == chunk_start(c, o, chunks@.len() as int),
            chunk_count(gn, c, o) == chunks@.len() + chunk_count(gn - start, c, o),
            forall|j: int| 0 <= j < chunks@.len() ==> chunks@[j]@ == chunk_at(text@, c, o, j),
        ensures
            chunks@.len() == chunk_count(gn, c, o),
            forall|j: int| 0 <= j < chunks@.len() ==> chunks@[j]@ == chunk_at(text@, c, o, j),
        decreases n - start,
    {
        let ghost i = chunks@.len() as int;
        let end = if n - start <= chunk_size {
            n
        } else {
            start + chunk_size
        };
        let piece = copy_range(&ch, start, end);
        let piece_str = crate::strutil::string_from_chars(&piece);
        chunks.push(piece_str);
        proof {
            assert(chunk_start(c, o, i) == start);
            assert(chunk_at(text@, c, o, i) =~= ch@.subrange(start as int, end as int));
        }
        if end == n {
            proof {
                assert(chunk_count(gn - start, c, o) == 1);
            }
            break;
        }
        start = end - chunk_overlap;
        proof {
            assert(chunk_start(c, o, i + 1) == chunk_start(c, o, i) + (c - o));
        }
    }
    chunks
}

/// Rejects an invalid configuration before chunking starts; otherwise
/// chunks exactly as `chunk_text` does.
pub fn chunk_text_checked(text: &str, chunk_size: usize, chunk_overlap: usize) -> (r: Result<
    Vec<String>,
    ChunkError,
>)
    ensures
        r is Ok <==> spec_chunk_config_valid(chunk_size as int, chunk_overlap as int),
        r matches Ok(chunks) ==> {
            &&& chunks@.len() == chunk_count(
                text@.len() as int,
                chunk_size as int,
                chunk_overlap as int,
            )
            &&& forall|i: int|
                0 <= i < chunks@.len() ==> chunks@[i]@ == chunk_at(
                    text@,
                    chunk_size as int,
                    chunk_overlap as int,
                    i,
                )
        },
{
    if chunk_config_valid(chunk_size, chunk_overlap) {
        Ok(chunk_text(text, chunk_size, chunk_overlap))
    } else {
        Err(ChunkError::InvalidConfig)
    }
}

/// Failure of the chunking policy itself.
#[derive(Debug, PartialEq, Eq, Structural)]
pub enum ChunkError {
    /// The overlap was at least as large as the window, or the window was
    /// empty: the sliding window could not advance.
    InvalidConfig,
}

/// All chunks glued back together, keeping only the part of each later
/// chunk that does not overlap its predecessor.
pub open spec fn glue(chs: Seq<Seq<char>>, o: int) -> Seq<char>
    decreases chs.len(),
{
    if chs.len() == 0 {
        Seq::empty()
    } else {
        chs[0] + glue_rest(chs.skip(1), o)
    }
}

/// Glues the chunks after the first, dropping the `o` overlapping
/// characters from the front of each.
pub open spec fn glue_rest(chs: Seq<Seq<char>>, o: int) -> Seq<char>
    decreases chs.len(),
{
    if chs.len() == 0 {
        Seq::empty()
    } else {
        chs[0].skip(o) + glue_rest(chs.skip(1), o)
    }
}

/// Round-trip coverage: gluing all chunks' non-overlapping portions back
/// together reconstructs the original text exactly.
pub proof fn lemma_chunks_reassemble(s: Seq<char>, c: int, o: int, chs: Seq<Seq<char>>)
    requires
        0 < c,
        0 <= o < c,
        chs.len() == chunk_count(s.len() as int, c, o),
        forall|i: int| 0 <= i < chs.len() ==> chs[i] == chunk_at(s, c, o, i),
    ensures
        glue(chs, o) == s,
    decreases s.len(),
{
    if s.len() == 0 {
        assert(glue(chs, o) =~= s);
    } else if s.len() <= c {
        assert(chs.len() == 1);
        assert(chs[0] == chunk_at(s, c, o, 0));
        assert(chunk_at(s, c, o, 0) =~= s);
        assert(chs.skip(1).len() == 0);
        assert(glue(chs, o) =~= s);
    } else {
        let s2 = s.skip(c - o);
        let chs2 = chs.skip(1);
        assert(chunk_count(s.len() as int, c, o) == 1 + chunk_count(s2.len() as int, c, o));
        assert(s2.len() > o);
        lemma_chunk_count_pos(s2.len() as int, c, o);
        assert(chs.len() >= 2);
        assert forall|i: int| 0 <= i < chs2.len() implies chs2[i] == chunk_at(s2, c, o, i) by {
            assert(chs2[i] == chs[i + 1]);
            assert(chunk_start(c, o, i + 1) == chunk_start(c, o, i) + (c - o));
            lemma_chunk_start_nonneg(c, o, i);
            lemma_chunk_start_in_range(s2.len() as int, c, o, i);
            assert(chunk_at(s, c, o, i + 1) =~= chunk_at(s2, c, o, i));
        }
        lemma_chunks_reassemble(s2, c, o, chs2);
        // the remaining text is longer than the overlap, so there is at
        // least one more chunk after the first
        assert(s2.len() > o);
        assert(chs2.len() >= 1);
        let rest = glue_rest(chs.skip(2), o);
        assert(chs2.skip(1) =~= chs.skip(2));
        assert(glue(chs2, o) == chs[1] + rest);
        assert(chs[1] + rest == s2);
        assert(chs[1] == chunk_at(s2, c, o, 0));
        assert(chunk_start(c, o, 0) == 0);
        assert(chs[1].len() > o) by {
            assert(chunk_at(s2, c, o, 0).len() > o);
        }
        assert(glue_rest(chs.skip(1), o) == chs[1].skip(o) + rest) by {
            assert(chs.skip(1)[0] == chs[1]);
            assert(chs.skip(1).skip(1) =~= chs.skip(2));
        }
        assert(chs[1].skip(o) + rest =~= (chs[1] + rest).skip(o));
        assert(glue_rest(chs.skip(1), o) == s2.skip(o));
        assert(s2.skip(o) =~= s.skip(c));
        assert(chs[0] == chunk_at(s, c, o, 0));
        assert(chunk_at(s, c, o, 0) == s.subrange(0, c));
        assert(glue(chs, o) == s.subrange(0, c) + s.skip(c));
        assert(s.subrange(0, c) + s.skip(c) =~= s);
    }
}

/// Chunk starts never move backwards past the origin.
proof fn lemma_chunk_start_nonneg(c: int, o: int, i: int)
    requires
        o < c,
    ensures
        chunk_start(c, o, i) >= 0,
    decreases i,
{
    if i > 0 {
        lemma_chunk_start_nonneg(c, o, i - 1);
    }
}

/// A non-empty text yields at least one chunk; an empty one yields none.
pub proof fn lemma_chunk_count_pos(n: int, c: int, o: int)
    requires
        0 <= o < c,
    ensures
        n <= 0 ==> chunk_count(n, c, o) == 0,
        n > 0 ==> chunk_count(n, c, o) >= 1,
    decreases n,
{
    if n > c {
        lemma_chunk_count_pos(n - (c - o), c, o);
    }
}

/// Every chunk that the count admits starts inside the text.
proof fn lemma_chunk_start_in_range(n: int, c: int, o: int, i: int)
    requires
        0 <= o < c,
        0 <= i < chunk_count(n, c, o),
    ensures
        0 <= chunk_start(c, o, i) < n,
    decreases i,
{
    if i == 0 {
        lemma_chunk_count_pos(n, c, o);
    } else {
        lemma_chunk_start_in_range(n - (c - o), c, o, i - 1);
    }
}

} // verus!
