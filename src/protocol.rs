//! The wire formats: the text frames the hub sends, and the binary frames of
//! chunked uploads (`metadata || 0x00 || chunk`).
use vstd::prelude::*;
use vstd::string::StringExecFns;

use crate::consts::MAX_FRAME_SIZE;
use crate::error::ServerError;
use crate::outside::{base64_encode, base64_text, json_count, json_count_member, json_text, json_text_member};
use crate::text::{join_list, join_names};

verus! {

pub open spec fn rooms_text(names: Seq<Seq<char>>) -> Seq<char> {
    "[SystemRooms] "@ + join_list(names)
}

pub open spec fn members_text(names: Seq<Seq<char>>) -> Seq<char> {
    "[SystemMembers] "@ + join_list(names)
}

pub open spec fn join_text(name: Seq<char>, room: Seq<char>) -> Seq<char> {
    name + " [SystemJoin] "@ + room
}

pub open spec fn name_text(name: Seq<char>) -> Seq<char> {
    "[SystemName] "@ + name
}

pub open spec fn signal_text(payload: Seq<char>) -> Seq<char> {
    "[SignalMessage] "@ + payload
}

pub open spec fn error_text(message: Seq<char>) -> Seq<char> {
    "[SystemError] "@ + message
}

pub open spec fn file_text(file_name: Seq<char>, mime_type: Seq<char>, data: Seq<u8>) -> Seq<char> {
    "[SystemFile]:"@ + file_name + ":"@ + mime_type + ":"@ + base64_text(data)
}

pub open spec fn ack_text(file_name: Seq<char>) -> Seq<char> {
    "[SystemAck]: File '"@ + file_name + "' sent successfully."@
}

/// `[SystemRooms] r1, r2, …`
pub fn rooms_message(names: &Vec<String>) -> (r: String)
    ensures
        r@ == rooms_text(names@.map_values(|p: String| p@)),
{
    let mut out = String::from_str("[SystemRooms] ");
    out.append(join_names(names).as_str());
    out
}

/// `[SystemMembers] n1, n2, …`
pub fn members_message(names: &Vec<String>) -> (r: String)
    ensures
        r@ == members_text(names@.map_values(|p: String| p@)),
{
    let mut out = String::from_str("[SystemMembers] ");
    out.append(join_names(names).as_str());
    out
}

/// `<name> [SystemJoin] <room>`
pub fn join_message(name: &str, room: &str) -> (r: String)
    ensures
        r@ == join_text(name@, room@),
{
    let mut out = String::from_str(name);
    out.append(" [SystemJoin] ");
    out.append(room);
    out
}

/// `[SystemName] <name>`
pub fn name_message(name: &str) -> (r: String)
    ensures
        r@ == name_text(name@),
{
    let mut out = String::from_str("[SystemName] ");
    out.append(name);
    out
}

/// `[SignalMessage] <payload>`
pub fn signal_message(payload: &str) -> (r: String)
    ensures
        r@ == signal_text(payload@),
{
    let mut out = String::from_str("[SignalMessage] ");
    out.append(payload);
    out
}

/// `[SystemError] <message>`
pub fn error_message(message: &str) -> (r: String)
    ensures
        r@ == error_text(message@),
{
    let mut out = String::from_str("[SystemError] ");
    out.append(message);
    out
}

/// `[SystemFile]:<file_name>:<mime_type>:<base64 of data>`
pub fn file_message(file_name: &str, mime_type: &str, data: &[u8]) -> (r: String)
    ensures
        r@ == file_text(file_name@, mime_type@, data@),
{
    let mut out = String::from_str("[SystemFile]:");
    out.append(file_name);
    out.append(":");
    out.append(mime_type);
    out.append(":");
    out.append(base64_encode(data).as_str());
    out
}

/// `[SystemAck]: File '<file_name>' sent successfully.`
pub fn ack_message(file_name: &str) -> (r: String)
    ensures
        r@ == ack_text(file_name@),
{
    let mut out = String::from_str("[SystemAck]: File '");
    out.append(file_name);
    out.append("' sent successfully.");
    out
}

/// The decimal digit `d`.
pub open spec fn digit(d: nat) -> char {
    "0123456789"@[d as int]
}

/// `n` written in decimal.
pub open spec fn decimal(n: nat) -> Seq<char>
    decreases n,
{
    if n < 10 {
        seq![digit(n)]
    } else {
        decimal(n / 10).push(digit(n % 10))
    }
}

/// `n` written in decimal.
pub fn decimal_text(n: u64) -> (r: String)
    ensures
        r@ == decimal(n as nat),
    decreases n,
{
    let digits = "0123456789";
    proof {
        reveal_strlit("0123456789");
    }
    if n < 10 {
        let d = n as usize;
        String::from_str(digits.substring_char(d, d + 1))
    } else {
        let mut out = decimal_text(n / 10);
        let d = (n % 10) as usize;
        out.append(digits.substring_char(d, d + 1));
        out
    }
}

/// The number of frames of at most `MAX_FRAME_SIZE` bytes that `n` bytes take.
pub open spec fn frame_count(n: nat) -> nat {
    if n == 0 {
        0
    } else {
        ((n - 1) / (MAX_FRAME_SIZE as int) + 1) as nat
    }
}

/// Bytes `c * MAX_FRAME_SIZE` up to the next frame boundary (or the end) of `data`.
pub open spec fn frame_slice(data: Seq<u8>, c: nat) -> Seq<u8> {
    let start = c * MAX_FRAME_SIZE;
    let end = if start + MAX_FRAME_SIZE <= data.len() {
        start + MAX_FRAME_SIZE
    } else {
        data.len() as int
    };
    data.subrange(start as int, end)
}

/// `[SystemFileChunk]:<file_name>:<mime_type>:<c + 1>:<total>:<base64 of slice c>`
pub open spec fn chunk_text(file_name: Seq<char>, mime_type: Seq<char>, data: Seq<u8>, c: nat) -> Seq<char> {
    "[SystemFileChunk]:"@ + file_name + ":"@ + mime_type + ":"@ + decimal(c + 1) + ":"@ + decimal(
        frame_count(data.len()),
    ) + ":"@ + base64_text(frame_slice(data, c))
}

/// The frames that carry `data`, one per slice of at most `MAX_FRAME_SIZE` bytes.
pub open spec fn chunk_texts(file_name: Seq<char>, mime_type: Seq<char>, data: Seq<u8>) -> Seq<Seq<char>> {
    Seq::new(frame_count(data.len()), |c: int| chunk_text(file_name, mime_type, data, c as nat))
}

/// The frames that carry `data` in slices of at most `MAX_FRAME_SIZE` bytes,
/// each numbered from 1 and carrying the total.
pub fn file_chunk_messages(file_name: &str, mime_type: &str, data: &[u8]) -> (r: Vec<String>)
    requires
        data@.len() + MAX_FRAME_SIZE <= usize::MAX,
    ensures
        r@.map_values(|t: String| t@) == chunk_texts(file_name@, mime_type@, data@),
{
    let n = data.len();
    let total: usize = if n == 0 {
        0
    } else {
        (n - 1) / MAX_FRAME_SIZE + 1
    };
    let ghost texts = chunk_texts(file_name@, mime_type@, data@);
    let total_text = decimal_text(total as u64);
    let mut out: Vec<String> = Vec::new();
    let mut c: usize = 0;
    while c < total
        invariant
            total == frame_count(n as nat),
            total_text@ == decimal(total as nat),
            n == data@.len(),
            n + MAX_FRAME_SIZE <= usize::MAX,
            c <= total,
            texts == chunk_texts(file_name@, mime_type@, data@),
            out@.map_values(|t: String| t@) == texts.subrange(0, c as int),
        decreases total - c,
    {
        assert(n > 0 && c <= (n - 1) / 65536);
        assert(c * 65536 < n) by (nonlinear_arith)
            requires
                n > 0,
                c <= (n - 1) / 65536,
        ;
        let start = c * MAX_FRAME_SIZE;
        let end = if start + MAX_FRAME_SIZE <= n {
            start + MAX_FRAME_SIZE
        } else {
            n
        };
        let mut slice: Vec<u8> = Vec::new();
        let mut k: usize = start;
        while k < end
            invariant
                start <= k <= end <= n,
                n == data@.len(),
                slice@ == data@.subrange(start as int, k as int),
            decreases end - k,
        {
            slice.push(data[k]);
            k = k + 1;
            assert(slice@ == data@.subrange(start as int, k as int));
        }
        let mut text = String::from_str("[SystemFileChunk]:");
        text.append(file_name);
        text.append(":");
        text.append(mime_type);
        text.append(":");
        text.append(decimal_text((c + 1) as u64).as_str());
        text.append(":");
        text.append(total_text.as_str());
        text.append(":");
        text.append(base64_encode(slice.as_slice()).as_str());
        assert(text@ == chunk_text(file_name@, mime_type@, data@, c as nat));
        assert(texts[c as int] == text@);
        let ghost prev = out@;
        let ghost tv = text@;
        out.push(text);
        assert(out@.map_values(|t: String| t@) =~= prev.map_values(|t: String| t@).push(tv));
        assert(out@.map_values(|t: String| t@) =~= texts.subrange(0, c + 1));
        c = c + 1;
    }
    assert(texts.subrange(0, total as int) =~= texts);
    out
}

/// Where the first zero byte of `b` is, or -1 when there is none.
pub open spec fn first_zero(b: Seq<u8>) -> int {
    if exists|i: int| 0 <= i < b.len() && b[i] == 0 && forall|j: int| 0 <= j < i ==> b[j] != 0 {
        choose|i: int| 0 <= i < b.len() && b[i] == 0 && forall|j: int| 0 <= j < i ==> b[j] != 0
    } else {
        -1
    }
}

/// Splits a binary frame at its first zero byte into metadata and chunk;
/// a frame without a zero byte is `InvalidFile`.
pub fn split_metadata_and_data(bin: &[u8]) -> (r: Result<(Vec<u8>, Vec<u8>), ServerError>)
    ensures
        first_zero(bin@) < 0 ==> r == Err::<(Vec<u8>, Vec<u8>), ServerError>(ServerError::InvalidFile),
        first_zero(bin@) >= 0 ==> r is Ok && r->Ok_0.0@ == bin@.subrange(0, first_zero(bin@))
            && r->Ok_0.1@ == bin@.subrange(first_zero(bin@) + 1, bin@.len() as int),
{
    let mut pos: usize = 0;
    while pos < bin.len()
        invariant
            pos <= bin.len(),
            forall|j: int| 0 <= j < pos ==> bin@[j] != 0,
        ensures
            pos <= bin.len(),
            forall|j: int| 0 <= j < pos ==> bin@[j] != 0,
            pos < bin.len() ==> bin@[pos as int] == 0,
        decreases bin.len() - pos,
    {
        if bin[pos] == 0 {
            break;
        }
        pos = pos + 1;
    }
    if pos == bin.len() {
        return Err(ServerError::InvalidFile);
    }
    proof {
        let p = pos as int;
        assert(bin@[p] == 0 && forall|j: int| 0 <= j < p ==> bin@[j] != 0);
        let q = first_zero(bin@);
        if q != p {
            if q < p {
                assert(bin@[q] != 0);
            } else {
                assert(bin@[p] != 0);
            }
        }
    }
    let mut metadata: Vec<u8> = Vec::new();
    let mut i: usize = 0;
    while i < pos
        invariant
            i <= pos < bin.len(),
            metadata@ == bin@.subrange(0, i as int),
        decreases pos - i,
    {
        metadata.push(bin[i]);
        i = i + 1;
        assert(metadata@ == bin@.subrange(0, i as int));
    }
    let mut data: Vec<u8> = Vec::new();
    let mut k: usize = pos + 1;
    while k < bin.len()
        invariant
            pos < k <= bin.len(),
            data@ == bin@.subrange(pos + 1, k as int),
        decreases bin.len() - k,
    {
        data.push(bin[k]);
        k = k + 1;
        assert(data@ == bin@.subrange(pos + 1, k as int));
    }
    Ok((metadata, data))
}

/// What a chunk frame says of itself.
#[derive(Debug, PartialEq, Eq)]
pub struct FileChunkMetadata {
    pub file_name: String,
    pub mime_type: String,
    pub total_chunks: usize,
    pub current_chunk: usize,
}

pub ghost struct MetaView {
    pub file_name: Seq<char>,
    pub mime_type: Seq<char>,
    pub total_chunks: usize,
    pub current_chunk: usize,
}

impl View for FileChunkMetadata {
    type V = MetaView;

    open spec fn view(&self) -> MetaView {
        MetaView {
            file_name: self.file_name@,
            mime_type: self.mime_type@,
            total_chunks: self.total_chunks,
            current_chunk: self.current_chunk,
        }
    }
}

/// The metadata that the four members describe: both names must be strings
/// and both counts non-negative integers that fit in `usize`.
pub open spec fn meta_from_members(
    file_name: Option<Seq<char>>,
    mime_type: Option<Seq<char>>,
    total: Option<u64>,
    current: Option<u64>,
) -> Option<MetaView> {
    match (file_name, mime_type, total, current) {
        (Some(f), Some(m), Some(t), Some(c)) => if t <= usize::MAX && c <= usize::MAX {
            Some(MetaView { file_name: f, mime_type: m, total_chunks: t as usize, current_chunk: c as usize })
        } else {
            None
        },
        _ => None,
    }
}

/// The metadata of a chunk frame, read from the JSON object `doc`.
pub open spec fn meta_of_json(doc: Seq<u8>) -> Option<MetaView> {
    meta_from_members(
        json_text_member(doc, "file_name"@),
        json_text_member(doc, "mime_type"@),
        json_count_member(doc, "total_chunks"@),
        json_count_member(doc, "current_chunk"@),
    )
}

pub open spec fn opt_view(s: Option<String>) -> Option<Seq<char>> {
    match s {
        Some(t) => Some(t@),
        None => None,
    }
}

/// Builds the metadata from its four members; anything missing or out of
/// range is a `MetadataParsingError`.
pub fn metadata_from_members(
    file_name: Option<String>,
    mime_type: Option<String>,
    total: Option<u64>,
    current: Option<u64>,
) -> (r: Result<FileChunkMetadata, ServerError>)
    ensures
        meta_from_members(opt_view(file_name), opt_view(mime_type), total, current) is Some ==> r is Ok
            && Some(r->Ok_0@) == meta_from_members(opt_view(file_name), opt_view(mime_type), total, current),
        meta_from_members(opt_view(file_name), opt_view(mime_type), total, current) is None ==> r
            == Err::<FileChunkMetadata, ServerError>(ServerError::MetadataParsingError),
{
    match (file_name, mime_type, total, current) {
        (Some(f), Some(m), Some(t), Some(c)) => {
            if t <= usize::MAX as u64 && c <= usize::MAX as u64 {
                Ok(FileChunkMetadata {
                    file_name: f,
                    mime_type: m,
                    total_chunks: t as usize,
                    current_chunk: c as usize,
                })
            } else {
                Err(ServerError::MetadataParsingError)
            }
        },
        _ => Err(ServerError::MetadataParsingError),
    }
}

/// Reads the metadata of a chunk frame from its JSON object.
pub fn parse_chunk_metadata(doc: &[u8]) -> (r: Result<FileChunkMetadata, ServerError>)
    ensures
        meta_of_json(doc@) is Some ==> r is Ok && Some(r->Ok_0@) == meta_of_json(doc@),
        meta_of_json(doc@) is None ==> r == Err::<FileChunkMetadata, ServerError>(
            ServerError::MetadataParsingError,
        ),
{
    let f = json_text(doc, "file_name");
    let m = json_text(doc, "mime_type");
    let t = json_count(doc, "total_chunks");
    let c = json_count(doc, "current_chunk");
    metadata_from_members(f, m, t, c)
}

/// The members of a chunk frame's metadata read back into the metadata they
/// came from: both names as strings, both counts as integers.
pub proof fn lemma_metadata_members_round_trip(m: MetaView)
    ensures
        meta_from_members(
            Some(m.file_name),
            Some(m.mime_type),
            Some(m.total_chunks as u64),
            Some(m.current_chunk as u64),
        ) == Some(m),
{
}

} // verus!
