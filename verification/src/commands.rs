//! What the four commands compute: from the bytes of a file and the
//! arguments of the command to the bytes to write or the text to show.
//! Reading and writing files is left to the caller.

use vstd::prelude::*;
use vstd::utf8::{decode_utf8, encode_utf8, valid_utf8};

use crate::byte_order::extend;
use crate::chunk::{Chunk, ChunkError, ChunkView};
use crate::chunk_type::{type_of_text, ChunkType, ChunkTypeError};
use crate::png::{first_of_type, listing, parse_png, png_wire, Png, PngError};
use crate::text::text_of;

verus! {

/// Why a command failed.
#[derive(PartialEq, Eq, Structural, Debug, Clone, Copy)]
pub enum CommandError {
    /// There is no chunk of the type that was asked for, or no file to
    /// take it from.
    NotExistingChunkType,
    /// The chunk type given is not one.
    ChunkType(ChunkTypeError),
    /// The chunk found cannot be shown.
    Chunk(ChunkError),
    /// The file is not a PNG file, or the chunk to remove is not in it.
    Png(PngError),
}

/// The chunk that carries the message `data` under the type `chunk_type`.
pub open spec fn message_chunk(chunk_type: Seq<char>, data: Seq<char>) -> Result<
    ChunkView,
    CommandError,
> {
    match type_of_text(chunk_type) {
        Ok(bytes) => Ok(ChunkView { chunk_type: bytes, data: encode_utf8(data) }),
        Err(e) => Err(CommandError::ChunkType(e)),
    }
}

/// The chunks of a file, or the error of reading it as a command reports
/// it.
pub open spec fn file_chunks(contents: Seq<u8>) -> Result<Seq<ChunkView>, CommandError> {
    match parse_png(contents) {
        Ok(chunks) => Ok(chunks),
        Err(e) => Err(CommandError::Png(e)),
    }
}

/// The file after `encode`: the chunks of the file that was there, if one
/// was, and the message chunk at the end.
pub open spec fn encoded(existing: Option<Seq<u8>>, chunk_type: Seq<char>, data: Seq<char>) -> Result<
    Seq<u8>,
    CommandError,
> {
    match existing {
        Some(contents) => match file_chunks(contents) {
            Err(e) => Err(e),
            Ok(chunks) => match message_chunk(chunk_type, data) {
                Err(e) => Err(e),
                Ok(chunk) => Ok(png_wire(chunks.push(chunk))),
            },
        },
        None => match message_chunk(chunk_type, data) {
            Err(e) => Err(e),
            Ok(chunk) => Ok(png_wire(seq![chunk])),
        },
    }
}

/// The message that `decode` shows: the payload, as text, of the first
/// chunk of the type.
pub open spec fn decoded(contents: Seq<u8>, chunk_type: Seq<char>) -> Result<
    Seq<char>,
    CommandError,
> {
    match file_chunks(contents) {
        Err(e) => Err(e),
        Ok(chunks) => {
            let i = first_of_type(chunks, chunk_type);
            if i >= chunks.len() {
                Err(CommandError::NotExistingChunkType)
            } else if !valid_utf8(chunks[i].data) {
                Err(CommandError::Chunk(ChunkError::PayloadNotUtf8))
            } else {
                Ok(decode_utf8(chunks[i].data))
            }
        },
    }
}

/// The file after `remove`: the chunks without the first one of the type.
pub open spec fn removed(existing: Option<Seq<u8>>, chunk_type: Seq<char>) -> Result<
    Seq<u8>,
    CommandError,
> {
    match existing {
        None => Err(CommandError::NotExistingChunkType),
        Some(contents) => match file_chunks(contents) {
            Err(e) => Err(e),
            Ok(chunks) => {
                let i = first_of_type(chunks, chunk_type);
                if i >= chunks.len() {
                    Err(CommandError::Png(PngError::ChunkTypeNotFound))
                } else {
                    Ok(png_wire(chunks.remove(i)))
                }
            },
        },
    }
}

/// The listing that `print` shows.
pub open spec fn printed(contents: Seq<u8>) -> Result<Seq<char>, CommandError> {
    match file_chunks(contents) {
        Err(e) => Err(e),
        Ok(chunks) => Ok(text_of(listing(chunks))),
    }
}

/// The bytes of an optional buffer.
pub open spec fn contents_of(existing: Option<&[u8]>) -> Option<Seq<u8>> {
    match existing {
        Some(bytes) => Some(bytes@),
        None => None,
    }
}

/// Makes the chunk that carries `data` under the type `chunk_type`. Fails
/// exactly when `chunk_type` is not four letters.
pub fn parse_chunk(chunk_type: String, data: String) -> (r: Result<Chunk, CommandError>)
    ensures
        match r {
            Ok(chunk) => message_chunk(chunk_type@, data@) == Ok::<ChunkView, CommandError>(
                chunk@,
            ),
            Err(e) => message_chunk(chunk_type@, data@) == Err::<ChunkView, CommandError>(e),
        },
{
    match ChunkType::from_text(chunk_type.as_str()) {
        Ok(t) => {
            let mut bytes: Vec<u8> = Vec::new();
            extend(&mut bytes, data.as_str().as_bytes());
            Ok(Chunk::new(t, bytes))
        },
        Err(e) => Err(CommandError::ChunkType(e)),
    }
}

/// Reads a file for a command.
fn read(contents: &[u8]) -> (r: Result<Png, CommandError>)
    ensures
        match r {
            Ok(png) => file_chunks(contents@) == Ok::<Seq<ChunkView>, CommandError>(png@),
            Err(e) => file_chunks(contents@) == Err::<Seq<ChunkView>, CommandError>(e),
        },
{
    match Png::parse(contents) {
        Ok(png) => Ok(png),
        Err(e) => Err(CommandError::Png(e)),
    }
}

/// The `encode` command: puts the message `data` into a file, in a chunk of
/// type `chunk_type` at its end. `existing` is what the file holds, if
/// there is one; else a new file is made of the one chunk. Gives the bytes
/// to write.
///
/// Fails when the file that is there is not a PNG file, else when
/// `chunk_type` is not four letters.
pub fn encode(existing: Option<&[u8]>, chunk_type: String, data: String) -> (r: Result<
    Vec<u8>,
    CommandError,
>)
    ensures
        match r {
            Ok(out) => encoded(contents_of(existing), chunk_type@, data@) == Ok::<
                Seq<u8>,
                CommandError,
            >(out@),
            Err(e) => encoded(contents_of(existing), chunk_type@, data@) == Err::<
                Seq<u8>,
                CommandError,
            >(e),
        },
{
    match existing {
        Some(contents) => {
            let mut png = match read(contents) {
                Ok(png) => png,
                Err(e) => {
                    return Err(e);
                },
            };
            let chunk = match parse_chunk(chunk_type, data) {
                Ok(chunk) => chunk,
                Err(e) => {
                    return Err(e);
                },
            };
            png.append_chunk(chunk);
            Ok(png.as_bytes())
        },
        None => {
            let chunk = match parse_chunk(chunk_type, data) {
                Ok(chunk) => chunk,
                Err(e) => {
                    return Err(e);
                },
            };
            let ghost view = chunk@;
            let mut chunks: Vec<Chunk> = Vec::new();
            chunks.push(chunk);
            let png = Png::from_chunks(chunks);
            assert(png@ =~= seq![view]);
            Ok(png.as_bytes())
        },
    }
}

/// The `decode` command: the message in the first chunk of type
/// `chunk_type` of the file `contents`.
///
/// Fails when the file is not a PNG file, else with `NotExistingChunkType`
/// when no chunk has the type, else with `PayloadNotUtf8` when the payload
/// is not text.
pub fn decode(contents: &[u8], chunk_type: &str) -> (r: Result<String, CommandError>)
    ensures
        match r {
            Ok(text) => decoded(contents@, chunk_type@) == Ok::<Seq<char>, CommandError>(text@),
            Err(e) => decoded(contents@, chunk_type@) == Err::<Seq<char>, CommandError>(e),
        },
{
    let png = match read(contents) {
        Ok(png) => png,
        Err(e) => {
            return Err(e);
        },
    };
    match png.chunk_by_type(chunk_type) {
        Some(chunk) => match chunk.data_as_string() {
            Ok(text) => Ok(text),
            Err(e) => Err(CommandError::Chunk(e)),
        },
        None => Err(CommandError::NotExistingChunkType),
    }
}

/// The `remove` command: takes the first chunk of type `chunk_type` out of
/// a file. `existing` is what the file holds, if there is one. Gives the
/// bytes to write.
///
/// Fails with `NotExistingChunkType` when there is no file, else when the
/// file is not a PNG file, else with `ChunkTypeNotFound` when no chunk has
/// the type.
pub fn remove(existing: Option<&[u8]>, chunk_type: &str) -> (r: Result<Vec<u8>, CommandError>)
    ensures
        match r {
            Ok(out) => removed(contents_of(existing), chunk_type@) == Ok::<Seq<u8>, CommandError>(
                out@,
            ),
            Err(e) => removed(contents_of(existing), chunk_type@) == Err::<Seq<u8>, CommandError>(
                e,
            ),
        },
{
    match existing {
        Some(contents) => {
            let mut png = match read(contents) {
                Ok(png) => png,
                Err(e) => {
                    return Err(e);
                },
            };
            match png.remove_chunk(chunk_type) {
                Ok(_) => Ok(png.as_bytes()),
                Err(e) => Err(CommandError::Png(e)),
            }
        },
        None => Err(CommandError::NotExistingChunkType),
    }
}

/// The `print` command: the listing of the chunks of the file `contents`.
/// Fails when the file is not a PNG file.
pub fn print(contents: &[u8]) -> (r: Result<String, CommandError>)
    ensures
        match r {
            Ok(text) => printed(contents@) == Ok::<Seq<char>, CommandError>(text@),
            Err(e) => printed(contents@) == Err::<Seq<char>, CommandError>(e),
        },
{
    match read(contents) {
        Ok(png) => Ok(png.to_string()),
        Err(e) => Err(e),
    }
}

} // verus!
