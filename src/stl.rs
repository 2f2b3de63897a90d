use vstd::prelude::*;

verus! {

/// Length of the ignored header that opens a binary STL file.
pub const HEADER_BYTES: usize = 80;

/// Length of the ignored attribute field that closes each facet record.
pub const ATTRIBUTE_BYTES: usize = 2;

/// Error raised while encoding a mesh as binary STL.
#[derive(Clone, Copy, Debug, PartialEq, Eq, Structural)]
pub enum StlWriteError {
    /// The mesh holds more facets than the 32-bit count field can express.
    TooManyFacets,
}

/// One facet as it is stored in a binary STL file: the unit normal and the
/// three vertexes, each coordinate given as the bit pattern of a 32-bit float.
#[derive(Clone, Copy, Debug)]
pub struct StlFacet {
    pub normal: [u32; 3],
    pub vertexes: [[u32; 3]; 3],
}

/// `n` zero bytes.
pub open spec fn zeros(n: nat) -> Seq<u8> {
    Seq::new(n, |_i: int| 0u8)
}

/// The four bytes of `n`, least significant first.
pub open spec fn u32_le_bytes(n: u32) -> Seq<u8> {
    seq![
        (n % 256) as u8,
        ((n / 256) % 256) as u8,
        ((n / 65536) % 256) as u8,
        (n / 16777216) as u8,
    ]
}

/// The words one after the other, each in little-endian order.
pub open spec fn words_le_bytes(ws: Seq<u32>) -> Seq<u8>
    decreases ws.len(),
{
    if ws.len() == 0 {
        Seq::empty()
    } else {
        words_le_bytes(ws.drop_last()) + u32_le_bytes(ws.last())
    }
}

/// The twelve coordinate words of a facet in file order: normal, then vertexes.
pub open spec fn facet_words(f: StlFacet) -> Seq<u32> {
    f.normal@ + f.vertexes[0]@ + f.vertexes[1]@ + f.vertexes[2]@
}

/// The 50-byte record of one facet.
pub open spec fn facet_bytes(f: StlFacet) -> Seq<u8> {
    words_le_bytes(facet_words(f)) + zeros(ATTRIBUTE_BYTES as nat)
}

/// The records of all facets, in order.
pub open spec fn facets_bytes(fs: Seq<StlFacet>) -> Seq<u8>
    decreases fs.len(),
{
    if fs.len() == 0 {
        Seq::empty()
    } else {
        facets_bytes(fs.drop_last()) + facet_bytes(fs.last())
    }
}

/// A whole binary STL file: header, facet count, facet records.
pub open spec fn stl_bytes(fs: Seq<StlFacet>) -> Seq<u8>
    recommends
        fs.len() <= u32::MAX,
{
    zeros(HEADER_BYTES as nat) + u32_le_bytes(fs.len() as u32) + facets_bytes(fs)
}

/// Appends `n` zero bytes.
fn push_zeros(output: &mut Vec<u8>, n: usize)
    ensures
        final(output)@ == old(output)@ + zeros(n as nat),
{
    let mut i: usize = 0;
    while i < n
        invariant
            i <= n,
            output@ == old(output)@ + zeros(i as nat),
        decreases n - i,
    {
        output.push(0u8);
        i = i + 1;
        assert(output@ =~= old(output)@ + zeros(i as nat));
    }
}

/// Appends the four bytes of `n`, least significant first.
fn push_u32_le(output: &mut Vec<u8>, n: u32)
    ensures
        final(output)@ == old(output)@ + u32_le_bytes(n),
{
    output.push((n % 256) as u8);
    output.push(((n / 256) % 256) as u8);
    output.push(((n / 65536) % 256) as u8);
    output.push((n / 16777216) as u8);
    assert(output@ =~= old(output)@ + u32_le_bytes(n));
}

/// Appends each word of `ws`, in order, in little-endian form.
fn push_words(output: &mut Vec<u8>, ws: &[u32])
    ensures
        final(output)@ == old(output)@ + words_le_bytes(ws@),
{
    let mut i: usize = 0;
    while i < ws.len()
        invariant
            i <= ws@.len(),
            output@ == old(output)@ + words_le_bytes(ws@.subrange(0, i as int)),
        decreases ws.len() - i,
    {
        proof {
            assert(ws@.subrange(0, i + 1).drop_last() =~= ws@.subrange(0, i as int));
        }
        push_u32_le(output, ws[i]);
        i = i + 1;
        assert(output@ =~= old(output)@ + words_le_bytes(ws@.subrange(0, i as int)));
    }
    assert(ws@.subrange(0, ws@.len() as int) =~= ws@);
}

/// Writes the ignored 80-byte header.
pub fn write_header(output: &mut Vec<u8>)
    ensures
        final(output)@ == old(output)@ + zeros(HEADER_BYTES as nat),
{
    push_zeros(output, HEADER_BYTES);
}

/// Writes the facet count as a little-endian 32-bit integer; fails, writing
/// nothing, when the count does not fit in 32 bits.
pub fn write_facets_count(output: &mut Vec<u8>, facets_count: usize) -> (r: Result<(), StlWriteError>)
    ensures
        facets_count > u32::MAX ==> r == Err::<(), StlWriteError>(StlWriteError::TooManyFacets)
            && final(output)@ == old(output)@,
        facets_count <= u32::MAX ==> r is Ok
            && final(output)@ == old(output)@ + u32_le_bytes(facets_count as u32),
{
    if facets_count > u32::MAX as usize {
        return Err(StlWriteError::TooManyFacets);
    }
    push_u32_le(output, facets_count as u32);
    Ok(())
}

/// Writes one 50-byte facet record.
pub fn write_facet(output: &mut Vec<u8>, facet: &StlFacet)
    ensures
        final(output)@ == old(output)@ + facet_bytes(*facet),
{
    let ghost start = output@;
    push_words(output, facet.normal.as_slice());
    push_words(output, facet.vertexes[0].as_slice());
    push_words(output, facet.vertexes[1].as_slice());
    push_words(output, facet.vertexes[2].as_slice());
    push_zeros(output, ATTRIBUTE_BYTES);
    proof {
        lemma_words_le_bytes_append(facet.normal@, facet.vertexes[0]@);
        lemma_words_le_bytes_append(facet.normal@ + facet.vertexes[0]@, facet.vertexes[1]@);
        lemma_words_le_bytes_append(
            facet.normal@ + facet.vertexes[0]@ + facet.vertexes[1]@,
            facet.vertexes[2]@,
        );
        assert(output@ =~= start + facet_bytes(*facet));
    }
}

/// Encoding two runs of words is encoding their concatenation.
proof fn lemma_words_le_bytes_append(a: Seq<u32>, b: Seq<u32>)
    ensures
        words_le_bytes(a + b) == words_le_bytes(a) + words_le_bytes(b),
    decreases b.len(),
{
    if b.len() == 0 {
        assert(a + b =~= a);
        assert(words_le_bytes(a) + words_le_bytes(b) =~= words_le_bytes(a));
    } else {
        lemma_words_le_bytes_append(a, b.drop_last());
        assert((a + b).drop_last() =~= a + b.drop_last());
        assert((a + b).last() == b.last());
        assert(words_le_bytes(a + b) =~= words_le_bytes(a) + words_le_bytes(b));
    }
}

/// Encodes a mesh as binary STL: header, facet count, then one record per
/// facet. Fails, writing nothing, when the mesh has more facets than a 32-bit
/// count can hold.
pub fn write_stl(output: &mut Vec<u8>, facets: &Vec<StlFacet>) -> (r: Result<(), StlWriteError>)
    ensures
        facets@.len() > u32::MAX ==> r == Err::<(), StlWriteError>(StlWriteError::TooManyFacets)
            && final(output)@ == old(output)@,
        facets@.len() <= u32::MAX ==> r is Ok
            && final(output)@ == old(output)@ + stl_bytes(facets@),
{
    if facets.len() > u32::MAX as usize {
        return Err(StlWriteError::TooManyFacets);
    }
    write_header(output);
    let counted = write_facets_count(output, facets.len());
    let ghost body_start = output@;
    let mut i: usize = 0;
    while i < facets.len()
        invariant
            i <= facets@.len(),
            facets@.len() <= u32::MAX,
            output@ == body_start + facets_bytes(facets@.subrange(0, i as int)),
        decreases facets.len() - i,
    {
        proof {
            assert(facets@.subrange(0, i + 1).drop_last() =~= facets@.subrange(0, i as int));
        }
        write_facet(output, &facets[i]);
        i = i + 1;
        assert(output@ =~= body_start + facets_bytes(facets@.subrange(0, i as int)));
    }
    assert(facets@.subrange(0, facets@.len() as int) =~= facets@);
    assert(output@ =~= old(output)@ + stl_bytes(facets@));
    counted
}

} // verus!
