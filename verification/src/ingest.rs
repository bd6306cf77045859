use crate::strutil::{is_prefix_of, split_on};
use vstd::prelude::*;
use vstd::string::StringExecFns;

verus! {

// Decisions around one object's ingestion that do not touch storage: how
// object keys are decoded and rewritten, how the source object's
// relocation is retried, and how storage errors are told apart.

/// The file name carried by an object key: the part after the last slash,
/// or the whole key if it has none.
pub open spec fn spec_file_name(key: Seq<char>) -> Seq<char> {
    split_on(key, '/').last()
}

/// Extracts the file name from an object key.
pub fn file_name_of_key(key: &str) -> (r: String)
    ensures
        r@ == spec_file_name(key@),
{
    let cs = crate::strutil::chars_of(key);
    let parts = crate::strutil::split_chars(&cs, '/');
    proof {
        crate::strutil::lemma_split_on_len(key@, '/');
        assert(parts@.map_values(|p: Vec<char>| p@).len() == parts@.len());
        assert(parts@[parts@.len() - 1]@ == split_on(key@, '/').last());
    }
    let last = &parts[parts.len() - 1];
    crate::strutil::string_from_chars(last)
}

/// Where a processed object lands: the destination prefix replaces the
/// source prefix when the key carries it, and is prepended otherwise.
pub open spec fn spec_destination_key(
    key: Seq<char>,
    source_prefix: Seq<char>,
    destination_prefix: Seq<char>,
) -> Seq<char> {
    if is_prefix_of(source_prefix, key) {
        destination_prefix + key.skip(source_prefix.len() as int)
    } else {
        destination_prefix + key
    }
}

/// Computes the destination key of a processed object.
pub fn destination_key(key: &str, source_prefix: &str, destination_prefix: &str) -> (r: String)
    ensures
        r@ == spec_destination_key(key@, source_prefix@, destination_prefix@),
{
    let kc = crate::strutil::chars_of(key);
    let pc = crate::strutil::chars_of(source_prefix);
    let mut out = String::from_str(destination_prefix);
    if crate::strutil::starts_with(&kc, &pc) {
        let mut i: usize = pc.len();
        let mut rest: Vec<char> = Vec::new();
        while i < kc.len()
            invariant
                pc@.len() <= i <= kc@.len(),
                rest@ == kc@.subrange(pc@.len() as int, i as int),
            decreases kc@.len() - i,
        {
            rest.push(kc[i]);
            proof {
                assert(kc@.subrange(pc@.len() as int, i + 1) =~= kc@.subrange(
                    pc@.len() as int,
                    i as int,
                ).push(kc@[i as int]));
            }
            i = i + 1;
        }
        let rest_str = crate::strutil::string_from_chars(&rest);
        out.append(rest_str.as_str());
        proof {
            assert(rest@ =~= key@.skip(source_prefix@.len() as int));
        }
    } else {
        out.append(key);
    }
    out
}

/// A key with each literal `+` written as its percent escape, so that
/// decoding cannot misread it as a space.
pub open spec fn plus_escaped(s: Seq<char>) -> Seq<char>
    decreases s.len(),
{
    if s.len() == 0 {
        Seq::empty()
    } else if s.last() == '+' {
        plus_escaped(s.drop_last()) + "%2B"@
    } else {
        plus_escaped(s.drop_last()).push(s.last())
    }
}

/// Escapes each literal `+` of an object key before percent-decoding.
pub fn fix_plus(key: &str) -> (r: String)
    ensures
        r@ == plus_escaped(key@),
{
    let cs = crate::strutil::chars_of(key);
    let mut out: Vec<char> = Vec::new();
    let mut i: usize = 0;
    while i < cs.len()
        invariant
            0 <= i <= cs@.len(),
            out@ == plus_escaped(cs@.take(i as int)),
        decreases cs@.len() - i,
    {
        proof {
            assert(cs@.take(i + 1).drop_last() =~= cs@.take(i as int));
            assert(cs@.take(i + 1).last() == cs@[i as int]);
        }
        let c = cs[i];
        if c == '+' {
            out.push('%');
            out.push('2');
            out.push('B');
            proof {
                reveal_strlit("%2B");
                assert(out@ =~= plus_escaped(cs@.take(i + 1)));
            }
        } else {
            out.push(c);
        }
        i = i + 1;
    }
    proof {
        assert(cs@.take(cs@.len() as int) =~= cs@);
    }
    crate::strutil::string_from_chars(&out)
}

/// The percent-decoding of a key; it depends on the key's characters
/// alone.
pub uninterp spec fn percent_decoded(s: Seq<char>) -> Seq<char>;

/// Whether a key's percent escapes decode to valid UTF-8; this too
/// depends on the key's characters alone.
pub uninterp spec fn percent_decodable(s: Seq<char>) -> bool;

/// Relies on percent_encoding::percent_decode_str followed by a UTF-8
/// check: decoding succeeds exactly when the decoded bytes form valid
/// UTF-8, and then yields the decoding of the percent escapes.
#[verifier::external_body]
fn percent_decode_key(s: &str) -> (r: Option<String>)
    ensures
        r is Some <==> percent_decodable(s@),
        r matches Some(t) ==> t@ == percent_decoded(s@),
{
    match percent_encoding::percent_decode_str(s).decode_utf8() {
        Ok(c) => Some(c.to_string()),
        Err(_) => None,
    }
}

/// The strict percent-encoding of a key, escaping every non-alphanumeric
/// character; it depends on the key's characters alone.
pub uninterp spec fn percent_encoded_strict(s: Seq<char>) -> Seq<char>;

/// Relies on percent_encoding::utf8_percent_encode with the
/// non-alphanumeric set: every character outside ASCII letters and
/// digits is escaped.
#[verifier::external_body]
fn percent_encode_key(s: &str) -> (r: String)
    ensures
        r@ == percent_encoded_strict(s@),
{
    percent_encoding::utf8_percent_encode(s, percent_encoding::NON_ALPHANUMERIC).to_string()
}

/// Decodes an incoming object key: literal `+` is first escaped so it
/// survives decoding, and the raw key is kept only when the escapes do
/// not decode.
pub fn object_key_decoded(raw: &str) -> (r: String)
    ensures
        percent_decodable(plus_escaped(raw@)) ==> r@ == percent_decoded(plus_escaped(raw@)),
        !percent_decodable(plus_escaped(raw@)) ==> r@ == raw@,
{
    let fixed = fix_plus(raw);
    match percent_decode_key(fixed.as_str()) {
        Some(t) => t,
        Option::None => String::from_str(raw),
    }
}

/// The copy-source path handed to the object store: the bucket, a slash,
/// and the strictly escaped key with `+` protected.
pub open spec fn spec_copy_source(bucket: Seq<char>, key: Seq<char>) -> Seq<char> {
    bucket + "/"@ + percent_encoded_strict(plus_escaped(key))
}

/// Builds the copy-source path for relocating an object.
pub fn copy_source(bucket: &str, key: &str) -> (r: String)
    ensures
        r@ == spec_copy_source(bucket@, key@),
{
    let fixed = fix_plus(key);
    let encoded = percent_encode_key(fixed.as_str());
    let mut out = String::from_str(bucket);
    out.append("/");
    out.append(encoded.as_str());
    out
}

/// How many times a relocation step is attempted before giving up.
pub fn max_relocation_attempts() -> (r: u32)
    ensures
        r == 3,
{
    3
}

/// Whether a failed relocation attempt is tried again.
#[derive(Debug, Clone, Copy, PartialEq, Eq, Structural)]
pub enum RetryDecision {
    /// Try again after the fixed short delay.
    RetryAfterDelay,
    /// The attempts are exhausted.
    GiveUp,
}

/// Decides, after `failures` failed attempts, whether to retry: attempts
/// are bounded and the delay between them is fixed.
pub fn next_retry(failures: u32) -> (r: RetryDecision)
    ensures
        r == (if failures < 3 {
            RetryDecision::RetryAfterDelay
        } else {
            RetryDecision::GiveUp
        }),
{
    if failures < 3 {
        RetryDecision::RetryAfterDelay
    } else {
        RetryDecision::GiveUp
    }
}

/// How a relocation ended once its retries are spent.
#[derive(Debug, Clone, Copy, PartialEq, Eq, Structural)]
pub enum RelocationStatus {
    /// Copy and delete both succeeded.
    Completed,
    /// The copy succeeded but the delete kept failing: the object stays
    /// in the source location and ingestion still succeeds.
    CompletedSourceRetained,
    /// The copy kept failing: ingestion is aborted with an error.
    CopyFailed,
}

/// Settles a relocation: persistent copy failure aborts the ingestion;
/// persistent delete failure is only a warning.
pub fn relocation_status(copy_ok: bool, delete_ok: bool) -> (r: RelocationStatus)
    ensures
        !copy_ok ==> r == RelocationStatus::CopyFailed,
        copy_ok && delete_ok ==> r == RelocationStatus::Completed,
        copy_ok && !delete_ok ==> r == RelocationStatus::CompletedSourceRetained,
{
    if !copy_ok {
        RelocationStatus::CopyFailed
    } else if delete_ok {
        RelocationStatus::Completed
    } else {
        RelocationStatus::CompletedSourceRetained
    }
}

/// Whether `pat` occurs in `s` as a contiguous substring.
pub open spec fn contains_sub(s: Seq<char>, pat: Seq<char>) -> bool {
    exists|i: int| 0 <= i <= s.len() - pat.len() && #[trigger] s.subrange(i, i + pat.len() as int) == pat
}

/// Substring search.
pub fn find_substring(s: &Vec<char>, pat: &Vec<char>) -> (r: bool)
    ensures
        r == contains_sub(s@, pat@),
{
    if pat.len() > s.len() {
        assert(!contains_sub(s@, pat@));
        return false;
    }
    let mut i: usize = 0;
    while i <= s.len() - pat.len()
        invariant
            pat@.len() <= s@.len(),
            s@.len() <= usize::MAX,
            0 <= i <= s@.len() - pat@.len() + 1,
            forall|a: int|
                0 <= a < i ==> #[trigger] s@.subrange(a, a + pat@.len() as int) != pat@,
        decreases s@.len() - pat@.len() + 1 - i,
    {
        let mut j: usize = 0;
        let mut matched = true;
        while matched && j < pat.len()
            invariant
                0 <= j <= pat@.len(),
                i + pat@.len() <= s@.len(),
                s@.len() <= usize::MAX,
                matched ==> forall|b: int| 0 <= b < j ==> s@[i + b] == #[trigger] pat@[b],
                !matched ==> exists|b: int| 0 <= b < pat@.len() && s@[i + b] != #[trigger] pat@[b],
            decreases pat@.len() - j + (if matched {
                1int
            } else {
                0int
            }),
        {
            if s[i + j] != pat[j] {
                matched = false;
                proof {
                    assert(s@[i + j] != pat@[j as int]);
                }
            } else {
                j = j + 1;
            }
        }
        if matched {
            proof {
                assert(s@.subrange(i as int, i + pat@.len() as int) =~= pat@);
            }
            return true;
        }
        proof {
            let b = choose|b: int| 0 <= b < pat@.len() && s@[i + b] != pat@[b];
            assert(s@.subrange(i as int, i + pat@.len() as int)[b] != pat@[b]);
        }
        i = i + 1;
    }
    proof {
        assert(!contains_sub(s@, pat@));
    }
    false
}

/// How a storage failure is reported to the caller.
#[derive(Debug, Clone, Copy, PartialEq, Eq, Structural)]
pub enum StorageErrorKind {
    /// The object does not exist: reported as a not-found outcome.
    MissingObject,
    /// The caller may not touch the object: reported as a forbidden
    /// outcome.
    AccessDenied,
    /// Anything else.
    OtherFailure,
}

/// Classifies an object-store failure from its message, so that missing
/// objects and permission problems are reported distinctly.
pub fn classify_storage_error(msg: &str) -> (r: StorageErrorKind)
    ensures
        r == (if contains_sub(msg@, "NoSuchKey"@) || contains_sub(msg@, "NotFound"@) {
            StorageErrorKind::MissingObject
        } else if contains_sub(msg@, "AccessDenied"@) || contains_sub(msg@, "Access Denied"@) {
            StorageErrorKind::AccessDenied
        } else {
            StorageErrorKind::OtherFailure
        }),
{
    let cs = crate::strutil::chars_of(msg);
    if find_substring(&cs, &crate::strutil::chars_of("NoSuchKey")) || find_substring(
        &cs,
        &crate::strutil::chars_of("NotFound"),
    ) {
        StorageErrorKind::MissingObject
    } else if find_substring(&cs, &crate::strutil::chars_of("AccessDenied")) || find_substring(
        &cs,
        &crate::strutil::chars_of("Access Denied"),
    ) {
        StorageErrorKind::AccessDenied
    } else {
        StorageErrorKind::OtherFailure
    }
}

/// The token carried by an authorization header value: the part after
/// the bearer marker, when the marker is there.
pub open spec fn spec_bearer_token(v: Seq<char>) -> Option<Seq<char>> {
    if is_prefix_of("Bearer "@, v) {
        Some(v.skip("Bearer "@.len() as int))
    } else {
        Option::None
    }
}

/// Strips the bearer marker off an authorization header value; a header
/// without it is rejected as malformed.
pub fn bearer_token(value: &str) -> (r: Option<String>)
    ensures
        r matches Some(t) ==> Some(t@) == spec_bearer_token(value@),
        r is Some <==> spec_bearer_token(value@) is Some,
{
    let vc = crate::strutil::chars_of(value);
    let marker = crate::strutil::chars_of("Bearer ");
    if !crate::strutil::starts_with(&vc, &marker) {
        return Option::None;
    }
    let mut out: Vec<char> = Vec::new();
    let mut i: usize = marker.len();
    while i < vc.len()
        invariant
            marker@.len() <= i <= vc@.len(),
            marker@ == "Bearer "@,
            out@ == vc@.subrange(marker@.len() as int, i as int),
        decreases vc@.len() - i,
    {
        out.push(vc[i]);
        proof {
            assert(vc@.subrange(marker@.len() as int, i + 1) =~= vc@.subrange(
                marker@.len() as int,
                i as int,
            ).push(vc@[i as int]));
        }
        i = i + 1;
    }
    proof {
        assert(out@ =~= value@.skip("Bearer "@.len() as int));
    }
    Some(crate::strutil::string_from_chars(&out))
}

/// The shape of an incoming event, read off its envelope.
#[derive(Debug, Clone, Copy, PartialEq, Eq, Structural)]
pub enum EventKind {
    /// Object-store records stand at the top of the payload.
    DirectRecords,
    /// An HTTP envelope whose body carries the records.
    HttpEnvelope,
    /// Neither shape was recognised.
    UnknownShape,
}

/// Detects the event shape from what the payload's envelope holds: a
/// non-empty record list wins, then an HTTP body beside request markers.
pub fn detect_event_kind(has_record_list: bool, has_body: bool, has_http_marker: bool) -> (r:
    EventKind)
    ensures
        r == (if has_record_list {
            EventKind::DirectRecords
        } else if has_body && has_http_marker {
            EventKind::HttpEnvelope
        } else {
            EventKind::UnknownShape
        }),
{
    if has_record_list {
        EventKind::DirectRecords
    } else if has_body && has_http_marker {
        EventKind::HttpEnvelope
    } else {
        EventKind::UnknownShape
    }
}

} // verus!
