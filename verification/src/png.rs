//! A PNG file: the eight-byte signature and the chunks that follow it, in
//! the order in which they stand in the file.

use vstd::prelude::*;
use vstd::std_specs::convert::TryFromSpecImpl;

use crate::byte_order::extend;
use crate::chunk::{lemma_parse_wire_bytes, lemma_wire_bytes_of_parsed, Chunk, ChunkError, ChunkView};
use crate::text::{
    all_ascii, ascii_to_string, decimal, lemma_decimal_ascii, push_decimal, text_of,
};

verus! {

/// The eight bytes with which every PNG file begins.
pub const STANDARD_HEADER: [u8; 8] = [137, 80, 78, 71, 13, 10, 26, 10];

/// Why bytes are not a PNG file, or why a chunk could not be removed.
#[derive(PartialEq, Eq, Structural, Debug, Clone, Copy)]
pub enum PngError {
    /// The bytes do not begin with the PNG signature.
    BadSignature,
    /// One of the chunks could not be read.
    Chunk(ChunkError),
    /// No chunk has the type that was asked for.
    ChunkTypeNotFound,
}

/// The PNG signature, as a sequence.
pub open spec fn signature() -> Seq<u8> {
    seq![137u8, 80u8, 78u8, 71u8, 13u8, 10u8, 26u8, 10u8]
}

/// The type that ends the chunks of a file: `IEND`.
pub open spec fn end_type() -> Seq<u8> {
    seq![73u8, 69u8, 78u8, 68u8]
}

/// The views of a sequence of chunks.
pub open spec fn views(chunks: Seq<Chunk>) -> Seq<ChunkView> {
    Seq::new(chunks.len(), |i: int| chunks[i]@)
}

/// The chunks on the wire, one after the other.
pub open spec fn chunks_wire(chunks: Seq<ChunkView>) -> Seq<u8>
    decreases chunks.len(),
{
    if chunks.len() == 0 {
        Seq::empty()
    } else {
        chunks[0].wire_bytes() + chunks_wire(chunks.drop_first())
    }
}

/// The file: the signature, then the chunks.
pub open spec fn png_wire(chunks: Seq<ChunkView>) -> Seq<u8> {
    signature() + chunks_wire(chunks)
}

/// `chunks` in front of what `rest` holds, or the error of `rest`.
pub open spec fn prepend(chunks: Seq<ChunkView>, rest: Result<Seq<ChunkView>, ChunkError>) -> Result<
    Seq<ChunkView>,
    ChunkError,
> {
    match rest {
        Ok(more) => Ok(chunks + more),
        Err(e) => Err(e),
    }
}

/// The chunks that `bytes` hold, read one after the other until the bytes
/// end or an `IEND` chunk has been read; or the error of the first chunk
/// that cannot be read.
pub open spec fn parse_chunks(bytes: Seq<u8>) -> Result<Seq<ChunkView>, ChunkError>
    decreases bytes.len(),
{
    if bytes.len() == 0 {
        Ok(Seq::empty())
    } else {
        match ChunkView::parse(bytes) {
            Err(e) => Err(e),
            Ok(c) => if c.chunk_type == end_type() {
                Ok(seq![c])
            } else {
                prepend(seq![c], parse_chunks(bytes.subrange(c.wire_len(), bytes.len() as int)))
            },
        }
    }
}

/// The chunks of the file `bytes`, or why it is not a PNG file.
pub open spec fn parse_png(bytes: Seq<u8>) -> Result<Seq<ChunkView>, PngError> {
    if bytes.len() < 8 || bytes.subrange(0, 8) != signature() {
        Err(PngError::BadSignature)
    } else {
        match parse_chunks(bytes.subrange(8, bytes.len() as int)) {
            Ok(chunks) => Ok(chunks),
            Err(e) => Err(PngError::Chunk(e)),
        }
    }
}

/// The type of `chunk`, as text, is `text`.
pub open spec fn has_type(chunk: ChunkView, text: Seq<char>) -> bool {
    text_of(chunk.chunk_type) == text
}

/// The place of the first chunk with type `text`; the number of chunks
/// where none has it.
pub open spec fn first_of_type(chunks: Seq<ChunkView>, text: Seq<char>) -> int
    decreases chunks.len(),
{
    if chunks.len() == 0 {
        0
    } else if has_type(chunks[0], text) {
        0
    } else {
        1 + first_of_type(chunks.drop_first(), text)
    }
}

/// One line of the listing: the type, a colon and a blank, the length in
/// decimal, a line feed.
pub open spec fn listing_line(chunk: ChunkView) -> Seq<u8> {
    chunk.chunk_type + seq![0x3au8, 0x20u8] + decimal(chunk.length() as nat) + seq![0x0au8]
}

/// The listing of the chunks as ASCII bytes: one line for each.
pub open spec fn listing(chunks: Seq<ChunkView>) -> Seq<u8>
    decreases chunks.len(),
{
    if chunks.len() == 0 {
        Seq::empty()
    } else {
        listing(chunks.drop_last()) + listing_line(chunks.last())
    }
}

/// A PNG file in memory: its chunks, in file order. The signature is the
/// same for every file and is not stored.
pub struct Png {
    chunks: Vec<Chunk>,
}

impl View for Png {
    type V = Seq<ChunkView>;

    closed spec fn view(&self) -> Seq<ChunkView> {
        views(self.chunks@)
    }
}

impl Png {
    /// A file with the given chunks.
    pub fn from_chunks(chunks: Vec<Chunk>) -> (png: Png)
        ensures
            png@ == views(chunks@),
    {
        Png { chunks }
    }

    /// Adds a chunk at the end. Chunks of one type may stand side by side.
    pub fn append_chunk(&mut self, chunk: Chunk)
        ensures
            final(self)@ == old(self)@.push(chunk@),
    {
        self.chunks.push(chunk);
        assert(views(self.chunks@) =~= views(old(self).chunks@).push(chunk@));
    }

    /// Removes the first chunk whose type is `chunk_type` and returns it.
    /// Fails with `ChunkTypeNotFound`, and changes nothing, exactly when no
    /// chunk has that type.
    pub fn remove_chunk(&mut self, chunk_type: &str) -> (r: Result<Chunk, PngError>)
        ensures
            match r {
                Ok(c) => {
                    let i = first_of_type(old(self)@, chunk_type@);
                    &&& 0 <= i < old(self)@.len()
                    &&& c@ == old(self)@[i]
                    &&& final(self)@ == old(self)@.remove(i)
                },
                Err(e) => {
                    &&& first_of_type(old(self)@, chunk_type@) == old(self)@.len()
                    &&& e == PngError::ChunkTypeNotFound
                    &&& final(self)@ == old(self)@
                },
            },
    {
        match position(&self.chunks, chunk_type) {
            Some(i) => {
                let c = self.chunks.remove(i);
                assert(views(self.chunks@) =~= views(old(self).chunks@).remove(i as int));
                Ok(c)
            },
            None => Err(PngError::ChunkTypeNotFound),
        }
    }

    /// The signature.
    pub fn header(&self) -> (r: [u8; 8])
        ensures
            r@ == signature(),
    {
        let r = STANDARD_HEADER;
        assert(r@ =~= signature());
        r
    }

    /// The chunks, in file order.
    pub fn chunks(&self) -> (r: &[Chunk])
        ensures
            views(r@) == self@,
    {
        self.chunks.as_slice()
    }

    /// The first chunk whose type is `chunk_type`, if there is one.
    pub fn chunk_by_type(&self, chunk_type: &str) -> (r: Option<&Chunk>)
        ensures
            match r {
                Some(c) => {
                    let i = first_of_type(self@, chunk_type@);
                    0 <= i < self@.len() && c@ == self@[i]
                },
                None => first_of_type(self@, chunk_type@) == self@.len(),
            },
    {
        match position(&self.chunks, chunk_type) {
            Some(i) => Some(&self.chunks[i]),
            None => None,
        }
    }

    /// The file as bytes: the signature, then each chunk on the wire.
    pub fn as_bytes(&self) -> (r: Vec<u8>)
        ensures
            r@ == png_wire(self@),
    {
        let mut r: Vec<u8> = Vec::new();
        let header = self.header();
        extend(&mut r, header.as_slice());
        let mut i: usize = 0;
        proof {
            assert(views(self.chunks@).take(0) =~= Seq::<ChunkView>::empty());
        }
        while i < self.chunks.len()
            invariant
                i <= self.chunks@.len(),
                r@ == signature() + chunks_wire(views(self.chunks@).take(i as int)),
            decreases self.chunks@.len() - i,
        {
            let bytes = self.chunks[i].as_bytes();
            extend(&mut r, bytes.as_slice());
            proof {
                let all = views(self.chunks@);
                assert(all.take(i + 1) =~= all.take(i as int).push(all[i as int]));
                lemma_chunks_wire_push(all.take(i as int), all[i as int]);
                assert(r@ =~= signature() + chunks_wire(all.take(i + 1)));
            }
            i += 1;
        }
        proof {
            assert(views(self.chunks@).take(i as int) =~= views(self.chunks@));
        }
        r
    }

    /// A listing of the chunks for people to read: for each chunk a line
    /// with its type and its length.
    pub fn to_string(&self) -> (r: String)
        ensures
            r@ == text_of(listing(self@)),
    {
        let mut out: Vec<u8> = Vec::new();
        let mut i: usize = 0;
        proof {
            assert(views(self.chunks@).take(0) =~= Seq::<ChunkView>::empty());
        }
        while i < self.chunks.len()
            invariant
                i <= self.chunks@.len(),
                out@ == listing(views(self.chunks@).take(i as int)),
                all_ascii(out@),
            decreases self.chunks@.len() - i,
        {
            let chunk = &self.chunks[i];
            let tag = chunk.chunk_type().bytes();
            let ghost before = out@;
            extend(&mut out, tag.as_slice());
            out.push(0x3a);
            out.push(0x20);
            push_decimal(&mut out, chunk.length());
            out.push(0x0a);
            proof {
                let all = views(self.chunks@);
                assert(all.take(i + 1).drop_last() =~= all.take(i as int));
                assert(all.take(i + 1).last() == chunk@);
                assert(out@ =~= before + listing_line(chunk@));
                lemma_decimal_ascii(chunk@.length() as nat);
            }
            i += 1;
        }
        proof {
            assert(views(self.chunks@).take(i as int) =~= views(self.chunks@));
        }
        ascii_to_string(out)
    }

    /// Reads a file. The bytes must begin with the signature, else
    /// `BadSignature`. Then chunks are read one after the other until the
    /// bytes end or an `IEND` chunk has been read; what follows an `IEND`
    /// chunk is not looked at. The first chunk that cannot be read fails
    /// the whole file with its error.
    pub fn parse(bytes: &[u8]) -> (r: Result<Png, PngError>)
        ensures
            match r {
                Ok(png) => parse_png(bytes@) == Ok::<Seq<ChunkView>, PngError>(png@),
                Err(e) => parse_png(bytes@) == Err::<Seq<ChunkView>, PngError>(e),
            },
    {
        if bytes.len() < 8 {
            return Err(PngError::BadSignature);
        }
        let header = STANDARD_HEADER;
        let mut k: usize = 0;
        while k < 8
            invariant
                k <= 8,
                8 <= bytes@.len(),
                header@ == signature(),
                forall|j: int| 0 <= j < k ==> bytes@[j] == signature()[j],
            decreases 8 - k,
        {
            if bytes[k] != header[k] {
                proof {
                    assert(bytes@.subrange(0, 8)[k as int] != signature()[k as int]);
                }
                return Err(PngError::BadSignature);
            }
            k += 1;
        }
        assert(bytes@.subrange(0, 8) =~= signature());
        let mut chunks: Vec<Chunk> = Vec::new();
        let mut cursor: usize = 8;
        let ghost body = bytes@.subrange(8, bytes@.len() as int);
        proof {
            assert(views(chunks@) =~= Seq::<ChunkView>::empty());
            assert(Seq::<ChunkView>::empty() + Seq::<ChunkView>::empty() =~= Seq::<
                ChunkView,
            >::empty());
            lemma_prepend_empty(parse_chunks(body));
        }
        while cursor < bytes.len()
            invariant
                8 <= cursor <= bytes@.len(),
                bytes@.subrange(0, 8) == signature(),
                body == bytes@.subrange(8, bytes@.len() as int),
                parse_chunks(body) == prepend(
                    views(chunks@),
                    parse_chunks(bytes@.subrange(cursor as int, bytes@.len() as int)),
                ),
            decreases bytes@.len() - cursor,
        {
            let rest = vstd::slice::slice_subrange(bytes, cursor, bytes.len());
            match Chunk::parse(rest) {
                Err(e) => {
                    return Err(PngError::Chunk(e));
                },
                Ok(chunk) => {
                    let ghost c = chunk@;
                    let ghost done = views(chunks@);
                    proof {
                        lemma_wire_bytes_of_parsed(rest@);
                    }
                    let step = 12 + chunk.data().len();
                    let tag = chunk.chunk_type().bytes();
                    let is_end = tag[0] == 73 && tag[1] == 69 && tag[2] == 78 && tag[3] == 68;
                    proof {
                        if is_end {
                            assert(c.chunk_type =~= end_type());
                        }
                    }
                    chunks.push(chunk);
                    proof {
                        assert(views(chunks@) =~= done.push(c));
                        assert(done + seq![c] =~= done.push(c));
                    }
                    if is_end {
                        return Ok(Png { chunks });
                    }
                    proof {
                        let next = rest@.subrange(c.wire_len(), rest@.len() as int);
                        assert(next =~= bytes@.subrange(cursor + step, bytes@.len() as int));
                        match parse_chunks(next) {
                            Ok(more) => {
                                assert(done + (seq![c] + more) =~= done.push(c) + more);
                            },
                            Err(_) => {},
                        }
                    }
                    cursor = cursor + step;
                },
            }
        }
        proof {
            assert(bytes@.subrange(cursor as int, bytes@.len() as int) =~= Seq::<u8>::empty());
            assert(views(chunks@) + Seq::<ChunkView>::empty() =~= views(chunks@));
        }
        Ok(Png { chunks })
    }
}

impl TryFrom<&[u8]> for Png {
    type Error = PngError;

    /// As `Png::parse`.
    fn try_from(bytes: &[u8]) -> (r: Result<Self, Self::Error>)
        ensures
            match r {
                Ok(png) => parse_png(bytes@) == Ok::<Seq<ChunkView>, PngError>(png@),
                Err(e) => parse_png(bytes@) == Err::<Seq<ChunkView>, PngError>(e),
            },
    {
        Png::parse(bytes)
    }
}

impl TryFromSpecImpl<&[u8]> for Png {
    /// A file owns its chunks, so no specification function can name the
    /// file that parsing returns; the contract of `try_from` speaks of its
    /// view instead.
    open spec fn obeys_try_from_spec() -> bool {
        false
    }

    open spec fn try_from_spec(bytes: &[u8]) -> Result<Self, Self::Error> {
        Err(PngError::BadSignature)
    }
}

/// The place of the first chunk with type `chunk_type`, if one has it.
fn position(chunks: &Vec<Chunk>, chunk_type: &str) -> (r: Option<usize>)
    ensures
        match r {
            Some(i) => i < chunks@.len() && first_of_type(views(chunks@), chunk_type@) == i,
            None => first_of_type(views(chunks@), chunk_type@) == chunks@.len(),
        },
{
    let mut i: usize = 0;
    while i < chunks.len()
        invariant
            i <= chunks@.len(),
            forall|j: int| 0 <= j < i ==> !has_type(#[trigger] views(chunks@)[j], chunk_type@),
        decreases chunks@.len() - i,
    {
        if chunks[i].chunk_type().is_text(chunk_type) {
            proof {
                lemma_first_of_type_is(views(chunks@), chunk_type@, i as int);
            }
            return Some(i);
        }
        i += 1;
    }
    proof {
        lemma_first_of_type_is(views(chunks@), chunk_type@, i as int);
    }
    None
}

/// Nothing in front of a result leaves it as it is.
proof fn lemma_prepend_empty(rest: Result<Seq<ChunkView>, ChunkError>)
    ensures
        prepend(Seq::empty(), rest) == rest,
{
    match rest {
        Ok(more) => {
            assert(Seq::<ChunkView>::empty() + more =~= more);
        },
        Err(_) => {},
    }
}

/// The wire bytes of chunks with one more at the end are the wire bytes of
/// the chunks, then those of the one.
pub proof fn lemma_chunks_wire_push(chunks: Seq<ChunkView>, last: ChunkView)
    ensures
        chunks_wire(chunks.push(last)) == chunks_wire(chunks) + last.wire_bytes(),
    decreases chunks.len(),
{
    if chunks.len() == 0 {
        assert(chunks.push(last).drop_first() =~= Seq::<ChunkView>::empty());
        assert(chunks_wire(Seq::<ChunkView>::empty()) =~= Seq::<u8>::empty());
        assert(chunks_wire(chunks.push(last)) =~= last.wire_bytes());
        assert(chunks_wire(chunks) + last.wire_bytes() =~= last.wire_bytes());
    } else {
        assert(chunks.push(last).drop_first() =~= chunks.drop_first().push(last));
        lemma_chunks_wire_push(chunks.drop_first(), last);
        assert(chunks_wire(chunks.push(last)) =~= chunks_wire(chunks) + last.wire_bytes());
    }
}

/// What `first_of_type` is: the index `i` before which no chunk has the
/// type, and at which one has it or the chunks end.
pub proof fn lemma_first_of_type_is(chunks: Seq<ChunkView>, text: Seq<char>, i: int)
    requires
        0 <= i <= chunks.len(),
        forall|j: int| 0 <= j < i ==> !has_type(#[trigger] chunks[j], text),
        i < chunks.len() ==> has_type(chunks[i], text),
    ensures
        first_of_type(chunks, text) == i,
    decreases chunks.len(),
{
    if chunks.len() == 0 {
    } else if i == 0 {
    } else {
        assert(!has_type(chunks[0], text));
        let rest = chunks.drop_first();
        assert forall|j: int| 0 <= j < i - 1 implies !has_type(#[trigger] rest[j], text) by {
            assert(rest[j] == chunks[j + 1]);
        }
        lemma_first_of_type_is(rest, text, i - 1);
    }
}

/// `first_of_type` finds the first chunk of the type: no chunk before the
/// place it gives has the type, and the chunk at that place has it, unless
/// the place is the end.
pub proof fn lemma_first_of_type(chunks: Seq<ChunkView>, text: Seq<char>)
    ensures
        0 <= first_of_type(chunks, text) <= chunks.len(),
        forall|j: int|
            0 <= j < first_of_type(chunks, text) ==> !has_type(#[trigger] chunks[j], text),
        first_of_type(chunks, text) < chunks.len() ==> has_type(
            chunks[first_of_type(chunks, text)],
            text,
        ),
    decreases chunks.len(),
{
    if chunks.len() == 0 {
    } else if has_type(chunks[0], text) {
    } else {
        let rest = chunks.drop_first();
        lemma_first_of_type(rest, text);
        assert forall|j: int| 0 <= j < first_of_type(chunks, text) implies !has_type(
            #[trigger] chunks[j],
            text,
        ) by {
            if j > 0 {
                assert(chunks[j] == rest[j - 1]);
            }
        }
        let i = first_of_type(rest, text);
        if i < rest.len() {
            assert(rest[i] == chunks[i + 1]);
        }
    }
}

/// Every chunk has a four-letter type and a payload that the length field
/// can hold, and only the last chunk, if any, is an `IEND` chunk.
pub open spec fn well_formed(chunks: Seq<ChunkView>) -> bool {
    &&& forall|i: int|
        0 <= i < chunks.len() ==> (#[trigger] chunks[i]).wf() && chunks[i].data.len() <= u32::MAX
    &&& forall|i: int|
        0 <= i < chunks.len() - 1 ==> (#[trigger] chunks[i]).chunk_type != end_type()
}

/// Reading undoes writing, chunk by chunk: the wire bytes of well-formed
/// chunks parse to those chunks.
pub proof fn lemma_parse_chunks_wire(chunks: Seq<ChunkView>)
    requires
        well_formed(chunks),
    ensures
        parse_chunks(chunks_wire(chunks)) == Ok::<Seq<ChunkView>, ChunkError>(chunks),
    decreases chunks.len(),
{
    if chunks.len() == 0 {
        assert(chunks =~= Seq::<ChunkView>::empty());
    } else {
        let first = chunks[0];
        let rest = chunks.drop_first();
        let bytes = chunks_wire(chunks);
        assert(first.wf());
        lemma_parse_wire_bytes(first, chunks_wire(rest));
        if first.chunk_type == end_type() {
            assert(chunks.len() == 1);
            assert(chunks =~= seq![first]);
        } else {
            assert forall|i: int| 0 <= i < rest.len() implies (#[trigger] rest[i]).wf()
                && rest[i].data.len() <= u32::MAX by {
                assert(rest[i] == chunks[i + 1]);
            }
            assert forall|i: int| 0 <= i < rest.len() - 1 implies (#[trigger] rest[i]).chunk_type
                != end_type() by {
                assert(rest[i] == chunks[i + 1]);
            }
            lemma_parse_chunks_wire(rest);
            assert(bytes.subrange(first.wire_len(), bytes.len() as int) =~= chunks_wire(rest));
            assert(seq![first] + rest =~= chunks);
        }
    }
}

/// Reading a file undoes writing it: the bytes of a file of well-formed
/// chunks parse to those chunks, so writing what was read gives the same
/// bytes again.
pub proof fn lemma_parse_png_wire(chunks: Seq<ChunkView>)
    requires
        well_formed(chunks),
    ensures
        parse_png(png_wire(chunks)) == Ok::<Seq<ChunkView>, PngError>(chunks),
{
    let bytes = png_wire(chunks);
    assert(bytes.subrange(0, 8) =~= signature());
    assert(bytes.subrange(8, bytes.len() as int) =~= chunks_wire(chunks));
    lemma_parse_chunks_wire(chunks);
}

/// A file that is the signature and one chunk is read as that chunk, and
/// written back byte for byte.
pub proof fn lemma_one_chunk_file(chunk: ChunkView)
    requires
        chunk.wf(),
        chunk.data.len() <= u32::MAX,
    ensures
        parse_png(signature() + chunk.wire_bytes()) == Ok::<Seq<ChunkView>, PngError>(
            seq![chunk],
        ),
        png_wire(seq![chunk]) == signature() + chunk.wire_bytes(),
{
    let chunks = seq![chunk];
    assert(chunks.drop_first() =~= Seq::<ChunkView>::empty());
    assert(chunks_wire(Seq::<ChunkView>::empty()) =~= Seq::<u8>::empty());
    assert(chunks_wire(chunks) =~= chunk.wire_bytes());
    lemma_parse_png_wire(chunks);
}

/// Writing what was read gives the bytes that were read, up to the end of
/// the last chunk read: a file that parses begins with the bytes of its
/// chunks, and is those bytes when no `IEND` chunk stopped the reading
/// early.
pub proof fn lemma_wire_of_parsed_chunks(bytes: Seq<u8>)
    requires
        parse_chunks(bytes) is Ok,
    ensures
        ({
            let chunks = parse_chunks(bytes)->Ok_0;
            let wire = chunks_wire(chunks);
            &&& wire.len() <= bytes.len()
            &&& bytes.subrange(0, wire.len() as int) == wire
            &&& (chunks.len() == 0 || chunks.last().chunk_type != end_type()) ==> wire == bytes
        }),
    decreases bytes.len(),
{
    let chunks = parse_chunks(bytes)->Ok_0;
    if bytes.len() == 0 {
        assert(bytes.subrange(0, 0) =~= chunks_wire(chunks));
        assert(bytes =~= Seq::<u8>::empty());
    } else {
        let c = ChunkView::parse(bytes)->Ok_0;
        lemma_wire_bytes_of_parsed(bytes);
        if c.chunk_type == end_type() {
            assert(chunks.drop_first() =~= Seq::<ChunkView>::empty());
            assert(chunks_wire(Seq::<ChunkView>::empty()) =~= Seq::<u8>::empty());
            assert(chunks_wire(chunks) =~= c.wire_bytes());
        } else {
            let next = bytes.subrange(c.wire_len(), bytes.len() as int);
            lemma_wire_of_parsed_chunks(next);
            let more = parse_chunks(next)->Ok_0;
            assert(chunks =~= seq![c] + more);
            assert(chunks.drop_first() =~= more);
            let wire = chunks_wire(chunks);
            assert(wire =~= c.wire_bytes() + chunks_wire(more));
            assert(bytes.subrange(0, wire.len() as int) =~= wire) by {
                assert forall|k: int| 0 <= k < wire.len() implies bytes[k] == wire[k] by {
                    if k < c.wire_len() {
                        assert(bytes.subrange(0, c.wire_len())[k] == bytes[k]);
                    } else {
                        assert(next.subrange(0, chunks_wire(more).len() as int)[k - c.wire_len()]
                            == next[k - c.wire_len()]);
                    }
                }
            }
            if chunks.last().chunk_type != end_type() {
                if more.len() > 0 {
                    assert(more.last() == chunks.last());
                }
                assert(chunks_wire(more) == next);
                assert(wire =~= bytes);
            }
        }
    }
}

/// Appending a chunk and then removing by its type gives back the chunks,
/// and so the bytes, that were there before, whenever the chunk removed is
/// the one appended or equal to it: every chunk from the first of that type
/// on must equal the appended one. That is so, in particular, when no chunk
/// had the type before.
pub proof fn lemma_append_then_remove(chunks: Seq<ChunkView>, chunk: ChunkView)
    requires
        forall|j: int|
            first_of_type(chunks.push(chunk), text_of(chunk.chunk_type)) <= j < chunks.len()
                ==> #[trigger] chunks[j] == chunk,
    ensures
        ({
            let appended = chunks.push(chunk);
            let i = first_of_type(appended, text_of(chunk.chunk_type));
            &&& 0 <= i < appended.len()
            &&& appended.remove(i) == chunks
            &&& png_wire(appended.remove(i)) == png_wire(chunks)
        }),
{
    let appended = chunks.push(chunk);
    let text = text_of(chunk.chunk_type);
    let i = first_of_type(appended, text);
    lemma_first_of_type(appended, text);
    assert(has_type(appended[chunks.len() as int], text));
    assert(i <= chunks.len());
    assert forall|k: int| 0 <= k < chunks.len() implies appended.remove(i)[k] == chunks[k] by {
        if k >= i {
            assert(chunks[k] == chunk);
            if k + 1 < chunks.len() {
                assert(chunks[k + 1] == chunk);
            }
        }
    }
    assert(appended.remove(i) =~= chunks);
}

} // verus!
