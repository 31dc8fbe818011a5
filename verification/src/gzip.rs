//! Gzip-compressed kernels.

use miniz_oxide::inflate::TINFLStatus;
use vstd::arithmetic::power2::is_pow2;
use vstd::prelude::*;
use vstd::slice::slice_subrange;

use crate::bytes::{find_zero, lemma_zero_from, read_u16, u16_at, zero_from};
use crate::error::BootError;

verus! {

/// The length of the fixed part of a gzip header.
pub const GZIP_HEADER_SIZE: usize = 10;

/// The length of the checksum and size that follow the compressed data.
pub const GZIP_TRAILER_SIZE: usize = 8;

/// Header flag: a checksum of the header follows.
pub const GZIP_FHCRC: u8 = 0x02;

/// Header flag: an extra field follows.
pub const GZIP_FEXTRA: u8 = 0x04;

/// Header flag: a zero-terminated file name follows.
pub const GZIP_FNAME: u8 = 0x08;

/// Header flag: a zero-terminated comment follows.
pub const GZIP_FCOMMENT: u8 = 0x10;

/// The data begins with the two magic bytes of gzip.
pub open spec fn has_gzip_magic(data: Seq<u8>) -> bool {
    data.len() > 2 && data[0] == 0x1f && data[1] == 0x8b
}

/// The data begins with the fixed part of a gzip header that announces deflate.
pub open spec fn has_gzip_header(data: Seq<u8>) -> bool {
    has_gzip_magic(data) && data.len() >= GZIP_HEADER_SIZE && data[2] == 8
}

/// The header has the optional part that `flag` stands for.
pub open spec fn has_flag(data: Seq<u8>, flag: u8) -> bool {
    data[3] & flag != 0
}

/// Where the parts after the extra field begin.
pub open spec fn after_extra(data: Seq<u8>) -> int {
    if has_flag(data, GZIP_FEXTRA) {
        GZIP_HEADER_SIZE + 2 + u16_at(data, GZIP_HEADER_SIZE as int)
    } else {
        GZIP_HEADER_SIZE as int
    }
}

/// Where the part after an optional zero-terminated text at `from` begins.
pub open spec fn after_text(data: Seq<u8>, flag: u8, from: int) -> int {
    if has_flag(data, flag) {
        zero_from(data, from) + 1
    } else {
        from
    }
}

/// Where the compressed data begins.
pub open spec fn deflate_start(data: Seq<u8>) -> int {
    let texts = after_text(
        data,
        GZIP_FCOMMENT,
        after_text(data, GZIP_FNAME, after_extra(data)),
    );
    if has_flag(data, GZIP_FHCRC) {
        texts + 2
    } else {
        texts
    }
}

/// The length of the extra field and the trailer are there where the header announces them.
pub open spec fn gzip_in_bounds(data: Seq<u8>) -> bool {
    has_gzip_header(data) ==> {
        &&& has_flag(data, GZIP_FEXTRA) ==> GZIP_HEADER_SIZE + 2 <= data.len()
        &&& deflate_start(data) < data.len() ==> deflate_start(data) + GZIP_TRAILER_SIZE
            <= data.len()
    }
}

/// The compressed data between the header and the trailer.
pub open spec fn deflate_of(data: Seq<u8>) -> Option<Seq<u8>> {
    if has_gzip_header(data) && deflate_start(data) < data.len() {
        Some(data.subrange(deflate_start(data), data.len() - GZIP_TRAILER_SIZE))
    } else {
        None
    }
}

/// No part of the header ends before it begins.
proof fn lemma_parts_in_order(data: Seq<u8>)
    ensures
        deflate_start(data) >= after_text(
            data,
            GZIP_FCOMMENT,
            after_text(data, GZIP_FNAME, after_extra(data)),
        ) >= after_text(data, GZIP_FNAME, after_extra(data)) >= after_extra(data),
{
    let name = after_extra(data);
    let comment = after_text(data, GZIP_FNAME, name);
    lemma_zero_from(data, name);
    lemma_zero_from(data, comment);
}

/// Tells whether the data is compressed with gzip.
pub fn is_gzip(payload: &[u8]) -> (yes: bool)
    ensures
        yes == has_gzip_magic(payload@),
{
    payload.len() > 2 && payload[0] == 0x1f && payload[1] == 0x8b
}

/// Skips a zero-terminated text at `from`; `None` if nothing is left behind it.
fn skip_text(data: &[u8], from: usize) -> (next: Option<usize>)
    requires
        from < data@.len(),
    ensures
        next is Some <==> zero_from(data@, from as int) + 1 < data@.len(),
        next matches Some(at) ==> at == zero_from(data@, from as int) + 1,
{
    let offset: usize = find_zero(data, from);
    if offset >= data.len() || offset + 1 >= data.len() {
        None
    } else {
        Some(offset + 1)
    }
}

/// Where the compressed data begins, if it does so inside the data.
fn deflate_offset(data: &[u8]) -> (start: Option<usize>)
    requires
        has_gzip_header(data@) && has_flag(data@, GZIP_FEXTRA) ==> GZIP_HEADER_SIZE + 2
            <= data@.len(),
    ensures
        start is Some <==> deflate_of(data@) is Some,
        start matches Some(at) ==> at == deflate_start(data@),
{
    if data.len() < GZIP_HEADER_SIZE || data[0] != 0x1f || data[1] != 0x8b || data[2] != 0x08 {
        return None;
    }
    proof {
        lemma_parts_in_order(data@);
    }
    let flags: u8 = data[3];
    let mut offset: usize = GZIP_HEADER_SIZE;
    if flags & GZIP_FEXTRA != 0 {
        offset = GZIP_HEADER_SIZE + 2 + read_u16(data, GZIP_HEADER_SIZE) as usize;
    }
    if offset >= data.len() {
        return None;
    }
    if flags & GZIP_FNAME != 0 {
        match skip_text(data, offset) {
            Some(next) => {
                offset = next;
            },
            None => {
                return None;
            },
        }
    }
    if flags & GZIP_FCOMMENT != 0 {
        match skip_text(data, offset) {
            Some(next) => {
                offset = next;
            },
            None => {
                return None;
            },
        }
    }
    if flags & GZIP_FHCRC != 0 {
        if data.len() - offset <= 2 {
            return None;
        }
        offset += 2;
    }
    Some(offset)
}

/// Tells whether [`gzip_deflate_slice`] can read every byte that it looks at.
pub fn gzip_parts_in_bounds(data: &[u8]) -> (yes: bool)
    ensures
        yes == gzip_in_bounds(data@),
{
    if data.len() < GZIP_HEADER_SIZE || data[0] != 0x1f || data[1] != 0x8b || data[2] != 0x08 {
        return true;
    }
    if data[3] & GZIP_FEXTRA != 0 && data.len() < GZIP_HEADER_SIZE + 2 {
        return false;
    }
    match deflate_offset(data) {
        Some(offset) => data.len() - offset >= GZIP_TRAILER_SIZE,
        None => true,
    }
}

/// The compressed data of a gzip file, without the header and the trailer.
///
/// The length of an announced extra field and the trailer must be there;
/// [`gzip_parts_in_bounds`] tests this.
pub fn gzip_deflate_slice(data: &[u8]) -> (deflate: Option<&[u8]>)
    requires
        gzip_in_bounds(data@),
    ensures
        deflate is Some <==> deflate_of(data@) is Some,
        deflate matches Some(d) ==> deflate_of(data@) == Some(d@),
{
    match deflate_offset(data) {
        Some(offset) => Some(slice_subrange(data, offset, data.len() - GZIP_TRAILER_SIZE)),
        None => None,
    }
}

/// The compressed data of a gzip file lies behind its header and before its trailer, and a file
/// with compressed data is told to be a gzip file.
pub proof fn law_deflate_is_inside_the_file(data: Seq<u8>)
    requires
        gzip_in_bounds(data),
        deflate_of(data) is Some,
    ensures
        has_gzip_magic(data),
        GZIP_HEADER_SIZE <= deflate_start(data),
        data == data.take(deflate_start(data)) + deflate_of(data).unwrap() + data.skip(
            data.len() - GZIP_TRAILER_SIZE,
        ),
{
    lemma_parts_in_order(data);
    assert(data =~= data.take(deflate_start(data)) + deflate_of(data).unwrap() + data.skip(
        data.len() - GZIP_TRAILER_SIZE,
    ));
}

/// An optional part of a gzip header as it is written.
pub open spec fn written_part(part: Option<Seq<u8>>) -> Seq<u8> {
    match part {
        Some(bytes) => bytes,
        None => Seq::empty(),
    }
}

/// An optional zero-terminated text of a gzip header as it is written.
pub open spec fn written_text(text: Option<Seq<u8>>) -> Seq<u8> {
    match text {
        Some(bytes) => bytes.push(0u8),
        None => Seq::empty(),
    }
}

/// The fixed part and the optional parts of a gzip file, with the compressed data and the trailer
/// behind them. The extra field includes its length.
pub open spec fn gzip_file(
    fixed: Seq<u8>,
    extra: Option<Seq<u8>>,
    name: Option<Seq<u8>>,
    comment: Option<Seq<u8>>,
    checksum: Option<Seq<u8>>,
    deflate: Seq<u8>,
    trailer: Seq<u8>,
) -> Seq<u8> {
    fixed + written_part(extra) + written_text(name) + written_text(comment) + written_part(
        checksum,
    ) + deflate + trailer
}

/// A zero-terminated text is found where it stands.
proof fn lemma_text_ends_at_zero(data: Seq<u8>, at: int, from: int, text: Seq<u8>)
    requires
        0 <= at <= from <= at + text.len() < data.len(),
        data.subrange(at, at + text.len() + 1) == text.push(0u8),
        !text.contains(0u8),
    ensures
        zero_from(data, from) == at + text.len(),
    decreases at + text.len() - from,
{
    let written = data.subrange(at, at + text.len() + 1);
    assert(written[from - at] == data[from]);
    if from < at + text.len() {
        assert(text[from - at] == data[from]);
        lemma_text_ends_at_zero(data, at, from + 1, text);
    }
}

/// Whatever optional parts the header of a gzip file has, the compressed data that was put into
/// the file is the compressed data that is taken out of it.
pub proof fn law_gzip_file_is_unwrapped(
    fixed: Seq<u8>,
    extra: Option<Seq<u8>>,
    name: Option<Seq<u8>>,
    comment: Option<Seq<u8>>,
    checksum: Option<Seq<u8>>,
    deflate: Seq<u8>,
    trailer: Seq<u8>,
)
    requires
        fixed.len() == GZIP_HEADER_SIZE,
        fixed[0] == 0x1f,
        fixed[1] == 0x8b,
        fixed[2] == 8,
        has_flag(fixed, GZIP_FEXTRA) == (extra is Some),
        has_flag(fixed, GZIP_FNAME) == (name is Some),
        has_flag(fixed, GZIP_FCOMMENT) == (comment is Some),
        has_flag(fixed, GZIP_FHCRC) == (checksum is Some),
        extra matches Some(e) ==> e.len() >= 2 && e.len() == 2 + u16_at(e, 0),
        name matches Some(n) ==> !n.contains(0u8),
        comment matches Some(c) ==> !c.contains(0u8),
        checksum matches Some(c) ==> c.len() == 2,
        trailer.len() == GZIP_TRAILER_SIZE,
    ensures
        gzip_in_bounds(gzip_file(fixed, extra, name, comment, checksum, deflate, trailer)),
        deflate_of(gzip_file(fixed, extra, name, comment, checksum, deflate, trailer)) == Some(
            deflate,
        ),
{
    let data = gzip_file(fixed, extra, name, comment, checksum, deflate, trailer);
    let name_at = GZIP_HEADER_SIZE + written_part(extra).len();
    let comment_at = name_at + written_text(name).len();
    let checksum_at = comment_at + written_text(comment).len();
    let deflate_at = checksum_at + written_part(checksum).len();
    assert(forall|i: int| 0 <= i < fixed.len() ==> data[i] == fixed[i]);
    if extra is Some {
        let e = extra.unwrap();
        assert(data[GZIP_HEADER_SIZE as int] == e[0]);
        assert(data[GZIP_HEADER_SIZE + 1] == e[1]);
    }
    assert(after_extra(data) == name_at);
    if name is Some {
        let n = name.unwrap();
        assert(data.subrange(name_at, name_at + n.len() + 1) =~= n.push(0u8));
        lemma_text_ends_at_zero(data, name_at, name_at, n);
    }
    assert(after_text(data, GZIP_FNAME, name_at) == comment_at);
    if comment is Some {
        let c = comment.unwrap();
        assert(data.subrange(comment_at, comment_at + c.len() + 1) =~= c.push(0u8));
        lemma_text_ends_at_zero(data, comment_at, comment_at, c);
    }
    assert(after_text(data, GZIP_FCOMMENT, comment_at) == checksum_at);
    assert(deflate_start(data) == deflate_at);
    assert(data.subrange(deflate_at, data.len() - GZIP_TRAILER_SIZE) =~= deflate);
}

/// How the inflater stopped.
#[derive(Clone, Copy, Debug, PartialEq, Eq, Structural)]
pub enum InflateStatus {
    /// The end of the compressed stream was reached.
    Done,
    /// The stream is cut off.
    CannotMakeProgress,
    /// The size of the output is not a power of two.
    BadParam,
    /// A checksum does not match.
    ChecksumMismatch,
    /// The stream is not valid.
    Failed,
    /// More input is wanted.
    NeedsMoreInput,
    /// The output is full.
    HasMoreOutput,
    /// Any other reason.
    Other,
}

/// The inflater can use an output of this size, which it takes for a ring.
pub open spec fn is_window_size(size: nat) -> bool {
    size == 0 || is_pow2(size as int)
}

/// What `miniz_oxide` unpacks from a raw deflate stream into an output that held `window`
/// before; `None` if it does not reach the end of the stream.
pub uninterp spec fn inflated(deflate: Seq<u8>, window: Seq<u8>) -> Option<Seq<u8>>;

/// Runs `miniz_oxide::inflate::core::decompress` once, on a fresh decompressor, from the start
/// of `output` and with no flags.
///
/// Trusted: the call takes no output whose size is neither zero nor a power of two, and leaves
/// such an output alone. The call reports `Done` exactly when the stream unpacks to its end, which
/// depends on the stream and on what `output` held alone; the count that it returns is then the
/// length of the unpacked bytes, which stand at the start of `output`. Nothing is said of the count
/// on another status, nor of the bytes of `output` past the unpacked ones.
#[verifier::external_body]
fn inflate(deflate: &[u8], output: &mut [u8]) -> (result: (InflateStatus, usize))
    ensures
        final(output)@.len() == old(output)@.len(),
        !is_window_size(old(output)@.len()) ==> result.0 is BadParam && final(output)@ == old(
            output,
        )@,
        (result.0 is Done) == (inflated(deflate@, old(output)@) is Some),
        result.0 is Done ==> {
            &&& result.1 <= final(output)@.len()
            &&& inflated(deflate@, old(output)@) == Some(final(output)@.take(result.1 as int))
        },
{
    let mut fresh = miniz_oxide::inflate::core::DecompressorOxide::new();
    let (s, _, written) = miniz_oxide::inflate::core::decompress(&mut fresh, deflate, output, 0, 0);
    let status = match s {
        TINFLStatus::Done => InflateStatus::Done,
        TINFLStatus::FailedCannotMakeProgress => InflateStatus::CannotMakeProgress,
        TINFLStatus::BadParam => InflateStatus::BadParam,
        TINFLStatus::Adler32Mismatch => InflateStatus::ChecksumMismatch,
        TINFLStatus::Failed => InflateStatus::Failed,
        TINFLStatus::NeedsMoreInput => InflateStatus::NeedsMoreInput,
        TINFLStatus::HasMoreOutput => InflateStatus::HasMoreOutput,
        _ => InflateStatus::Other,
    };
    (status, written)
}

/// What an attempt to unpack a kernel comes to: its length, if the stream was read to its end.
pub fn decompress_outcome(status: InflateStatus, written: usize) -> (length: Result<
    usize,
    BootError,
>)
    ensures
        length == (if status is Done {
            Ok::<usize, BootError>(written)
        } else {
            Err::<usize, BootError>(BootError::DecompressKernel)
        }),
{
    match status {
        InflateStatus::Done => Ok(written),
        _ => Err(BootError::DecompressKernel),
    }
}

/// Unpacks a gzip file into `output` and returns how many bytes it holds.
///
/// The payload must be a gzip file whose parts are in bounds.
pub fn gzip_decompress(payload: &[u8], output: &mut [u8]) -> (length: Result<usize, BootError>)
    requires
        gzip_in_bounds(payload@),
        deflate_of(payload@) is Some,
    ensures
        final(output)@.len() == old(output)@.len(),
        !is_window_size(old(output)@.len()) ==> length == Err::<usize, BootError>(
            BootError::DecompressKernel,
        ) && final(output)@ == old(output)@,
        match inflated(deflate_of(payload@).unwrap(), old(output)@) {
            Some(text) => {
                &&& length == Ok::<usize, BootError>(text.len() as usize)
                &&& text.len() <= final(output)@.len()
                &&& final(output)@.take(text.len() as int) == text
            },
            None => length == Err::<usize, BootError>(BootError::DecompressKernel),
        },
{
    match gzip_deflate_slice(payload) {
        Some(deflate) => {
            let (status, written): (InflateStatus, usize) = inflate(deflate, output);
            assert(output@.len() == output.len());
            decompress_outcome(status, written)
        },
        None => Err(BootError::DecompressKernel),
    }
}

/// The data is told to be compressed by its first two bytes alone, if there is a third one.
pub proof fn law_gzip_is_told_by_two_bytes(data: Seq<u8>)
    ensures
        has_gzip_magic(data) <==> data.len() >= 3 && data[0] == 0x1f && data[1] == 0x8b,
{
}

/// Whatever optional parts the flags in the header announce, the bytes between them and the trailer
/// are the compressed data. A text includes its zero byte and an extra field its length; a part
/// that is not announced is empty.
pub proof fn law_announced_parts_are_skipped(
    fixed: Seq<u8>,
    extra: Seq<u8>,
    name: Seq<u8>,
    comment: Seq<u8>,
    checksum: Seq<u8>,
    deflate: Seq<u8>,
    trailer: Seq<u8>,
)
    requires
        fixed.len() == 10,
        fixed[0] == 0x1f,
        fixed[1] == 0x8b,
        fixed[2] == 8,
        if fixed[3] & 0x04u8 != 0 {
            extra.len() >= 2 && extra.len() == 2 + u16_at(extra, 0)
        } else {
            extra.len() == 0
        },
        if fixed[3] & 0x08u8 != 0 {
            name.len() > 0 && name.last() == 0 && !name.drop_last().contains(0u8)
        } else {
            name.len() == 0
        },
        if fixed[3] & 0x10u8 != 0 {
            comment.len() > 0 && comment.last() == 0 && !comment.drop_last().contains(0u8)
        } else {
            comment.len() == 0
        },
        checksum.len() == (if fixed[3] & 0x02u8 != 0 {
            2int
        } else {
            0
        }),
        trailer.len() == 8,
    ensures
        gzip_in_bounds(fixed + extra + name + comment + checksum + deflate + trailer),
        deflate_of(fixed + extra + name + comment + checksum + deflate + trailer) == Some(deflate),
{
    let e = if fixed[3] & 0x04u8 != 0 {
        Some(extra)
    } else {
        None
    };
    let n = if fixed[3] & 0x08u8 != 0 {
        Some(name.drop_last())
    } else {
        None
    };
    let c = if fixed[3] & 0x10u8 != 0 {
        Some(comment.drop_last())
    } else {
        None
    };
    let h = if fixed[3] & 0x02u8 != 0 {
        Some(checksum)
    } else {
        None
    };
    assert(written_part(e) =~= extra);
    assert(written_text(n) =~= name);
    assert(written_text(c) =~= comment);
    assert(written_part(h) =~= checksum);
    law_gzip_file_is_unwrapped(fixed, e, n, c, h, deflate, trailer);
}

/// Splits data whose announced parts end inside it: the parts, and what stands behind them.
proof fn lemma_split_parts(data: Seq<u8>) -> (parts: (
    Seq<u8>,
    Seq<u8>,
    Seq<u8>,
    Seq<u8>,
    Seq<u8>,
))
    requires
        has_gzip_header(data),
        has_flag(data, GZIP_FEXTRA) ==> GZIP_HEADER_SIZE + 2 <= data.len(),
        deflate_start(data) < data.len(),
    ensures
        ({
            let (extra, name, comment, checksum, rest) = parts;
            &&& data == data.take(10) + extra + name + comment + checksum + rest
            &&& rest == data.skip(deflate_start(data))
            &&& if data[3] & 0x04u8 != 0 {
                extra.len() >= 2 && extra.len() == 2 + u16_at(extra, 0)
            } else {
                extra.len() == 0
            }
            &&& if data[3] & 0x08u8 != 0 {
                name.len() > 0 && name.last() == 0 && !name.drop_last().contains(0u8)
            } else {
                name.len() == 0
            }
            &&& if data[3] & 0x10u8 != 0 {
                comment.len() > 0 && comment.last() == 0 && !comment.drop_last().contains(0u8)
            } else {
                comment.len() == 0
            }
            &&& checksum.len() == (if data[3] & 0x02u8 != 0 {
                2int
            } else {
                0
            })
        }),
{
    lemma_parts_in_order(data);
    let name_at = after_extra(data);
    let comment_at = after_text(data, GZIP_FNAME, name_at);
    let checksum_at = after_text(data, GZIP_FCOMMENT, comment_at);
    let deflate_at = deflate_start(data);
    lemma_zero_from(data, name_at);
    lemma_zero_from(data, comment_at);
    let extra = data.subrange(10, name_at);
    let name = data.subrange(name_at, comment_at);
    let comment = data.subrange(comment_at, checksum_at);
    let checksum = data.subrange(checksum_at, deflate_at);
    let rest = data.skip(deflate_at);
    assert(data =~= data.take(10) + extra + name + comment + checksum + rest);
    if has_flag(data, GZIP_FEXTRA) {
        assert(extra[0] == data[10] && extra[1] == data[11]);
    }
    if has_flag(data, GZIP_FNAME) && name.drop_last().contains(0u8) {
        let i = choose|i: int| 0 <= i < name.drop_last().len() && name.drop_last()[i] == 0u8;
        assert(data[name_at + i] == 0u8);
    }
    if has_flag(data, GZIP_FCOMMENT) && comment.drop_last().contains(0u8) {
        let i = choose|i: int|
            0 <= i < comment.drop_last().len() && comment.drop_last()[i] == 0u8;
        assert(data[comment_at + i] == 0u8);
    }
    (extra, name, comment, checksum, rest)
}

/// Compressed data is only taken out of a gzip file: the data begins with the fixed header of one,
/// and between the parts that its flags announce and a trailer stands what is taken out.
pub proof fn law_compressed_data_comes_from_a_gzip_file(data: Seq<u8>) -> (parts: (
    Seq<u8>,
    Seq<u8>,
    Seq<u8>,
    Seq<u8>,
    Seq<u8>,
))
    requires
        gzip_in_bounds(data),
        deflate_of(data) is Some,
    ensures
        ({
            let (extra, name, comment, checksum, trailer) = parts;
            &&& data.len() >= 10
            &&& data[0] == 0x1f
            &&& data[1] == 0x8b
            &&& data[2] == 8
            &&& data == data.take(10) + extra + name + comment + checksum + deflate_of(
                data,
            ).unwrap() + trailer
            &&& if data[3] & 0x04u8 != 0 {
                extra.len() >= 2 && extra.len() == 2 + u16_at(extra, 0)
            } else {
                extra.len() == 0
            }
            &&& if data[3] & 0x08u8 != 0 {
                name.len() > 0 && name.last() == 0 && !name.drop_last().contains(0u8)
            } else {
                name.len() == 0
            }
            &&& if data[3] & 0x10u8 != 0 {
                comment.len() > 0 && comment.last() == 0 && !comment.drop_last().contains(0u8)
            } else {
                comment.len() == 0
            }
            &&& checksum.len() == (if data[3] & 0x02u8 != 0 {
                2int
            } else {
                0
            })
            &&& trailer.len() == 8
        }),
{
    let (extra, name, comment, checksum, rest) = lemma_split_parts(data);
    let trailer = data.skip(data.len() - 8);
    lemma_parts_in_order(data);
    assert(rest =~= deflate_of(data).unwrap() + trailer);
    assert(data =~= data.take(10) + extra + name + comment + checksum + deflate_of(data).unwrap()
        + trailer);
    (extra, name, comment, checksum, trailer)
}

/// Data cannot be read only if it begins with the fixed header of a gzip file, and then either ends
/// in the length of an announced extra field, or has behind the announced parts less than a
/// trailer.
pub proof fn law_only_cut_off_files_are_out_of_bounds(data: Seq<u8>) -> (parts: (
    Seq<u8>,
    Seq<u8>,
    Seq<u8>,
    Seq<u8>,
    Seq<u8>,
))
    requires
        !gzip_in_bounds(data),
    ensures
        data.len() >= 10,
        data[0] == 0x1f,
        data[1] == 0x8b,
        data[2] == 8,
        data[3] & 0x04u8 != 0 && data.len() < 12 || {
            let (extra, name, comment, checksum, rest) = parts;
            &&& data == data.take(10) + extra + name + comment + checksum + rest
            &&& 0 < rest.len() < 8
            &&& if data[3] & 0x04u8 != 0 {
                extra.len() >= 2 && extra.len() == 2 + u16_at(extra, 0)
            } else {
                extra.len() == 0
            }
            &&& if data[3] & 0x08u8 != 0 {
                name.len() > 0 && name.last() == 0 && !name.drop_last().contains(0u8)
            } else {
                name.len() == 0
            }
            &&& if data[3] & 0x10u8 != 0 {
                comment.len() > 0 && comment.last() == 0 && !comment.drop_last().contains(0u8)
            } else {
                comment.len() == 0
            }
            &&& checksum.len() == (if data[3] & 0x02u8 != 0 {
                2int
            } else {
                0
            })
        },
{
    if has_flag(data, GZIP_FEXTRA) && data.len() < 12 {
        (data, data, data, data, data)
    } else {
        lemma_parts_in_order(data);
        lemma_split_parts(data)
    }
}

/// The inflater can use an output exactly if its size is zero or a power of two.
pub proof fn law_window_size_is_a_power_of_two(size: nat)
    ensures
        is_window_size(size) <==> size == 0 || is_pow2(size as int),
{
}

} // verus!
