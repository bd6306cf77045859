use vstd::prelude::*;

verus! {

// Wire format for a fixed-length vector stored in the relational vector
// column: a 2-byte big-endian dimension count, 2 reserved zero bytes, then
// each element as 4 big-endian bytes.  Elements are carried as the 32-bit
// patterns of IEEE-754 single-precision values; this module is the only
// place that knows the binary layout.

/// Largest dimension the 2-byte header can carry.
pub open spec fn max_dimension() -> int {
    65535
}

/// The two big-endian bytes of a dimension count.
pub open spec fn be16_bytes(d: int) -> Seq<u8> {
    seq![(d / 256) as u8, (d % 256) as u8]
}

/// The dimension count read back from its two big-endian bytes.
pub open spec fn be16_val(b0: u8, b1: u8) -> int {
    b0 * 256 + b1
}

/// The four big-endian bytes of one element.
pub open spec fn be32_bytes(x: u32) -> Seq<u8> {
    let r0 = x as int % 0x1000000;
    let r1 = r0 % 0x10000;
    seq![
        (x as int / 0x1000000) as u8,
        (r0 / 0x10000) as u8,
        (r1 / 0x100) as u8,
        (r1 % 0x100) as u8,
    ]
}

/// The element read back from its four big-endian bytes.
pub open spec fn be32_val(b0: u8, b1: u8, b2: u8, b3: u8) -> u32 {
    (b0 * 0x1000000 + b1 * 0x10000 + b2 * 0x100 + b3) as u32
}

/// The bytes of all elements, in order.
pub open spec fn elems_encoding(v: Seq<u32>) -> Seq<u8>
    decreases v.len(),
{
    if v.len() == 0 {
        Seq::empty()
    } else {
        elems_encoding(v.drop_last()) + be32_bytes(v.last())
    }
}

/// The complete wire encoding of a vector.
pub open spec fn vec_encoding(v: Seq<u32>) -> Seq<u8> {
    be16_bytes(v.len() as int) + seq![0u8, 0u8] + elems_encoding(v)
}

/// Whether a buffer's length is consistent with its declared dimension.
pub open spec fn wf_encoding(b: Seq<u8>) -> bool {
    b.len() >= 4 && b.len() == 4 + 4 * be16_val(b[0], b[1])
}

/// The elements read back from a buffer of 4-byte groups.
pub open spec fn decoded_elems(b: Seq<u8>) -> Seq<u32> {
    Seq::new((b.len() / 4) as nat, |i: int| be32_val(b[4 * i], b[4 * i + 1], b[4 * i + 2], b[4 * i + 3]))
}

/// What decoding a buffer yields: the elements after the header when the
/// length is consistent, nothing otherwise.
pub open spec fn spec_decode(b: Seq<u8>) -> Option<Seq<u32>> {
    if wf_encoding(b) {
        Some(decoded_elems(b.skip(4)))
    } else {
        Option::None
    }
}

/// Rejection of a buffer handed to the decoder.
#[derive(Debug, PartialEq, Eq, Structural)]
pub enum CodecError {
    /// The buffer is shorter than the 4-byte header.
    TooShort,
    /// The buffer's length does not match the declared dimension.
    LengthMismatch,
}

fn push_be32(out: &mut Vec<u8>, x: u32)
    ensures
        final(out)@ == old(out)@ + be32_bytes(x),
{
    let b0 = x / 0x1000000;
    let r0 = x % 0x1000000;
    let b1 = r0 / 0x10000;
    let r1 = r0 % 0x10000;
    let b2 = r1 / 0x100;
    let b3 = r1 % 0x100;
    out.push(b0 as u8);
    out.push(b1 as u8);
    out.push(b2 as u8);
    out.push(b3 as u8);
    proof {
        assert(out@ =~= old(out)@ + be32_bytes(x));
    }
}

/// Encodes a vector of element bit patterns into the wire format.
/// Succeeds exactly when the dimension fits the 2-byte header.
pub fn encode_vector(v: &Vec<u32>) -> (r: Option<Vec<u8>>)
    ensures
        r is Some <==> v@.len() <= max_dimension(),
        r matches Some(b) ==> b@ == vec_encoding(v@),
{
    if v.len() > 65535 {
        return Option::None;
    }
    let dim = v.len();
    let mut out: Vec<u8> = Vec::new();
    out.push((dim / 256) as u8);
    out.push((dim % 256) as u8);
    out.push(0);
    out.push(0);
    let ghost header = out@;
    assert(header =~= be16_bytes(v@.len() as int) + seq![0u8, 0u8]);
    let mut i: usize = 0;
    while i < v.len()
        invariant
            0 <= i <= v@.len(),
            out@ == header + elems_encoding(v@.take(i as int)),
            header == be16_bytes(v@.len() as int) + seq![0u8, 0u8],
        decreases v.len() - i,
    {
        push_be32(&mut out, v[i]);
        proof {
            assert(v@.take(i + 1).drop_last() =~= v@.take(i as int));
            assert(v@.take(i + 1).last() == v@[i as int]);
            assert(out@ =~= header + elems_encoding(v@.take(i + 1)));
        }
        i = i + 1;
    }
    proof {
        assert(v@.take(v@.len() as int) =~= v@);
    }
    Some(out)
}

/// Decodes a wire-format buffer back into element bit patterns, rejecting
/// any buffer whose length is inconsistent with the declared dimension.
pub fn decode_vector(b: &Vec<u8>) -> (r: Result<Vec<u32>, CodecError>)
    ensures
        r is Ok <==> wf_encoding(b@),
        r matches Ok(v) ==> Some(v@) == spec_decode(b@),
        r is Err ==> r == Err::<Vec<u32>, CodecError>(
            if b@.len() < 4 {
                CodecError::TooShort
            } else {
                CodecError::LengthMismatch
            },
        ),
{
    if b.len() < 4 {
        return Err(CodecError::TooShort);
    }
    let d0 = b[0];
    let d1 = b[1];
    let dim: usize = (d0 as usize) * 256 + (d1 as usize);
    if (b.len() - 4) / 4 != dim || (b.len() - 4) % 4 != 0 {
        assert(b@.len() != 4 + 4 * be16_val(b@[0], b@[1]));
        return Err(CodecError::LengthMismatch);
    }
    assert(b@.len() == 4 + 4 * be16_val(b@[0], b@[1]));
    let n = b.len();
    let mut out: Vec<u32> = Vec::new();
    let mut i: usize = 0;
    let ghost body = b@.skip(4);
    while i < dim
        invariant
            0 <= i <= dim,
            n == b@.len(),
            b@.len() == 4 + 4 * dim,
            body == b@.skip(4),
            out@.len() == i,
            forall|j: int|
                0 <= j < i ==> out@[j] == be32_val(
                    body[4 * j],
                    body[4 * j + 1],
                    body[4 * j + 2],
                    body[4 * j + 3],
                ),
        decreases dim - i,
    {
        let p = 4 + 4 * i;
        let x: u32 = (b[p] as u32) * 0x1000000 + (b[p + 1] as u32) * 0x10000 + (b[p + 2] as u32)
            * 0x100 + (b[p + 3] as u32);
        proof {
            assert(body[4 * (i as int)] == b@[4 + 4 * (i as int)]);
            assert(body[4 * (i as int) + 1] == b@[4 + 4 * (i as int) + 1]);
            assert(body[4 * (i as int) + 2] == b@[4 + 4 * (i as int) + 2]);
            assert(body[4 * (i as int) + 3] == b@[4 + 4 * (i as int) + 3]);
        }
        out.push(x);
        i = i + 1;
    }
    proof {
        assert(out@ =~= decoded_elems(body));
    }
    Ok(out)
}

/// The byte length of the encoded elements: four bytes per element.
pub proof fn lemma_elems_encoding_len(v: Seq<u32>)
    ensures
        elems_encoding(v).len() == 4 * v.len(),
    decreases v.len(),
{
    if v.len() > 0 {
        lemma_elems_encoding_len(v.drop_last());
    }
}

/// Reading four big-endian bytes back gives the element they encode.
proof fn lemma_be32_inverse(x: u32)
    ensures
        be32_val(
            be32_bytes(x)[0],
            be32_bytes(x)[1],
            be32_bytes(x)[2],
            be32_bytes(x)[3],
        ) == x,
{
}

/// Round trip: decoding an encoded vector yields the vector back,
/// element for element.
pub proof fn lemma_codec_round_trip(v: Seq<u32>)
    requires
        v.len() <= max_dimension(),
    ensures
        spec_decode(vec_encoding(v)) == Some(v),
    decreases v.len(),
{
    let b = vec_encoding(v);
    lemma_elems_encoding_len(v);
    assert(be16_val(b[0], b[1]) == v.len() as int);
    assert(wf_encoding(b));
    assert(b.skip(4) =~= elems_encoding(v));
    lemma_decoded_elems_inverse(v);
    assert(spec_decode(b) == Some(decoded_elems(elems_encoding(v))));
}

/// Decoding the encoded elements yields the elements back.
proof fn lemma_decoded_elems_inverse(v: Seq<u32>)
    ensures
        decoded_elems(elems_encoding(v)) == v,
    decreases v.len(),
{
    lemma_elems_encoding_len(v);
    if v.len() == 0 {
        assert(decoded_elems(elems_encoding(v)) =~= v);
    } else {
        let pre = v.drop_last();
        lemma_decoded_elems_inverse(pre);
        lemma_elems_encoding_len(pre);
        let eb = elems_encoding(v);
        let pb = elems_encoding(pre);
        assert forall|j: int| 0 <= j < pre.len() implies decoded_elems(eb)[j] == v[j] by {
            assert(eb[4 * j] == pb[4 * j]);
            assert(eb[4 * j + 1] == pb[4 * j + 1]);
            assert(eb[4 * j + 2] == pb[4 * j + 2]);
            assert(eb[4 * j + 3] == pb[4 * j + 3]);
            assert(decoded_elems(pb)[j] == pre[j]);
            assert(pre[j] == v[j]);
        }
        assert(decoded_elems(eb).len() == v.len());
        let k = pre.len() as int;
        assert(eb[4 * k] == be32_bytes(v.last())[0]);
        assert(eb[4 * k + 1] == be32_bytes(v.last())[1]);
        assert(eb[4 * k + 2] == be32_bytes(v.last())[2]);
        assert(eb[4 * k + 3] == be32_bytes(v.last())[3]);
        lemma_be32_inverse(v.last());
        assert(decoded_elems(eb)[k] == v.last());
        assert(decoded_elems(eb) =~= v);
    }
}

} // verus!
