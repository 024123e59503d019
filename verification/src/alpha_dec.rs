//! Alpha-plane decompression: header parsing, method dispatch, resumable
//! row-range decoding, and the one-shot dithering pass on completion.
//!
//! The caller drives decoding in increasing, contiguous row ranges.  A
//! frame whose alpha data is stored raw (method 0) is decoded entirely
//! here: each row is copied from the compressed buffer and unfiltered
//! against the previous output row.  A frame compressed with the lossless
//! entropy coder (method 1) needs the external entropy sub-decoder: the
//! decoder returns explicit requests (`AlphaOutcome::NeedEntropyHeader`,
//! `AlphaOutcome::NeedEntropyRows`) and the caller reports the
//! sub-decoder's results through `alpha_entropy_header_done` and
//! `alpha_entropy_rows_done`, then repeats its row request.

use vstd::prelude::*;

use crate::VP8StatusCode;
use crate::dsp::WEBP_FILTER_TYPE;
use crate::dsp::filter_from_int;
use crate::filters::unfilter_row;
use crate::filters::unfilter_row_spec;
use crate::quant_levels::WebPDequantizeLevels;
use crate::quant_levels::dequantize_args_ok;
use crate::quant_levels::dither_plane;
use crate::vp8_io::VP8Io;
use crate::vp8_io::alpha_io_from;

verus! {

/// Size of the alpha header, in bytes.
pub const ALPHA_HEADER_LEN: usize = 1;

/// Method tag of raw (uncompressed) alpha data.
pub const ALPHA_NO_COMPRESSION: i32 = 0;

/// Method tag of entropy-compressed alpha data.
pub const ALPHA_LOSSLESS_COMPRESSION: i32 = 1;

/// Highest valid pre-processing level; this level requests dithering and
/// makes the decoder materialize the whole remaining plane in one call.
pub const ALPHA_PREPROCESSED_LEVELS: i32 = 2;

/// The two low bits of the header byte: the storage method.
pub open spec fn header_method(b: u8) -> int {
    (b & 0x03) as int
}

/// The next two bits: the prediction filter tag.
pub open spec fn header_filter(b: u8) -> int {
    ((b >> 2) & 0x03) as int
}

/// The next two bits: the pre-processing level.
pub open spec fn header_pre(b: u8) -> int {
    ((b >> 4) & 0x03) as int
}

/// The top two bits, reserved and required to be zero.
pub open spec fn header_reserved(b: u8) -> int {
    ((b >> 6) & 0x03) as int
}

/// A header byte is accepted exactly when the method is raw or
/// entropy-compressed, the filter tag is in range, the pre-processing
/// level is at most `ALPHA_PREPROCESSED_LEVELS` and the reserved bits are
/// clear.
pub open spec fn header_valid(b: u8) -> bool {
    &&& 0 <= header_method(b) <= 1
    &&& header_filter(b) < 4
    &&& header_pre(b) <= 2
    &&& header_reserved(b) == 0
}

/// The fields of a parsed alpha header.
#[derive(Clone, Copy, Debug, PartialEq, Eq, Structural)]
pub struct AlphaHeader {
    pub method: i32,
    pub filter: WEBP_FILTER_TYPE,
    pub pre_processing: i32,
}

/// Parses and validates the one-byte alpha header.  Returns the decoded
/// fields exactly when `header_valid` holds of the byte.
pub fn parse_alpha_header(b: u8) -> (r: Option<AlphaHeader>)
    ensures
        r is Some <==> header_valid(b),
        r is Some ==> r.unwrap().method == header_method(b),
        r is Some ==> r.unwrap().filter == filter_from_int(header_filter(b)),
        r is Some ==> r.unwrap().pre_processing == header_pre(b),
{
    let method: i32 = (b & 0x03) as i32;
    let filter_tag: i32 = ((b >> 2) & 0x03) as i32;
    let pre: i32 = ((b >> 4) & 0x03) as i32;
    let reserved: i32 = ((b >> 6) & 0x03) as i32;
    assert((b & 0x03) <= 3 && ((b >> 2) & 0x03) <= 3 && ((b >> 4) & 0x03) <= 3) by (bit_vector);
    if method > ALPHA_LOSSLESS_COMPRESSION || pre > ALPHA_PREPROCESSED_LEVELS || reserved != 0 {
        return Option::None;
    }
    let filter = WEBP_FILTER_TYPE::new(filter_tag);
    Option::Some(AlphaHeader { method, filter, pre_processing: pre })
}

/// Progress of the external entropy sub-decoder on a method-1 frame.
#[derive(Clone, Copy, Debug, PartialEq, Eq, Structural)]
pub enum EntropyState {
    /// The sub-decoder has not yet decoded its image header.
    HeaderPending,
    /// The header is decoded and rows `[0, rows_done)` are materialized.
    Ready { rows_done: usize },
    /// Rows up to `last_row` were requested from the sub-decoder.
    RowsPending { rows_done: usize, last_row: usize },
}

/// Per-frame alpha decoder state, created lazily on the first row request
/// and destroyed on completion or failure.
#[derive(Clone, Copy, Debug, PartialEq, Eq, Structural)]
pub struct ALPHDecoder {
    pub width_: i32,
    pub height_: i32,
    pub method_: i32,
    pub filter_: WEBP_FILTER_TYPE,
    pub pre_processing_: i32,
    pub io_: VP8Io,
    /// First row decoded in this session (raw method).
    pub start_row_: usize,
    /// Next row to decode (raw method); rows `[start_row_, next_row_)`
    /// stand finished in the output plane.
    pub next_row_: usize,
    /// Present only on the entropy-compressed path.
    pub entropy_: Option<EntropyState>,
}

/// The frame decoder state that the alpha pipeline works on.
pub struct VP8Decoder {
    pub status_: VP8StatusCode,
    /// The compressed alpha chunk: one header byte, then the payload.
    pub alpha_data_: Vec<u8>,
    /// The per-frame alpha decoder, present only while decoding is active.
    pub alph_dec_: Option<ALPHDecoder>,
    /// Set once the whole plane is decoded.
    pub is_alpha_decoded_: bool,
    /// Set on any decode failure; terminal.
    pub alpha_failed_: bool,
    /// The output plane, `width * crop_bottom` bytes, row-major.
    pub alpha_plane_: Option<Vec<u8>>,
    /// Dithering strength in percent (0 = off, 100 = full).
    pub alpha_dithering_: i32,
}

impl VP8Decoder {
    /// A fresh frame decoder holding a compressed alpha chunk.
    pub fn new(alpha_data: Vec<u8>, alpha_dithering: i32) -> (dec: Self)
        ensures
            dec.status_ == VP8StatusCode::VP8_STATUS_OK,
            dec.alpha_data_ == alpha_data,
            dec.alph_dec_ is None,
            !dec.is_alpha_decoded_,
            !dec.alpha_failed_,
            dec.alpha_plane_ is None,
            dec.alpha_dithering_ == alpha_dithering,
    {
        VP8Decoder {
            status_: VP8StatusCode::VP8_STATUS_OK,
            alpha_data_: alpha_data,
            alph_dec_: Option::None,
            is_alpha_decoded_: false,
            alpha_failed_: false,
            alpha_plane_: Option::None,
            alpha_dithering_: alpha_dithering,
        }
    }
}

/// The decoder with its alpha memory released: the output plane and the
/// per-frame decoder are gone, everything else is untouched.
pub open spec fn deallocated(s: VP8Decoder) -> VP8Decoder {
    VP8Decoder { alph_dec_: Option::None, alpha_plane_: Option::None, ..s }
}

/// Releases the alpha output plane and the per-frame alpha decoder.
#[allow(non_snake_case)]
pub fn WebPDeallocateAlphaMemory(dec: &mut VP8Decoder)
    ensures
        *final(dec) == deallocated(*old(dec)),
{
    dec.alpha_plane_ = Option::None;
    dec.alph_dec_ = Option::None;
}

/// Releasing alpha memory is idempotent: a second teardown of an already
/// torn-down decoder changes nothing.
pub proof fn lemma_deallocate_idempotent(s: VP8Decoder)
    ensures
        deallocated(deallocated(s)) == deallocated(s),
{
}

/// A vector of `n` zero bytes.
fn zero_vec(n: usize) -> (v: Vec<u8>)
    ensures
        v@ =~= Seq::new(n as nat, |i: int| 0u8),
{
    let mut v: Vec<u8> = Vec::new();
    let mut i: usize = 0;
    while i < n
        invariant
            i <= n,
            v@.len() == i,
            forall|j: int| 0 <= j < i ==> v@[j] == 0u8,
        decreases n - i,
    {
        v.push(0u8);
        i = i + 1;
    }
    v
}

/// Copies `src[off .. off + len]` into a fresh vector.
fn copy_range(src: &Vec<u8>, off: usize, len: usize) -> (out: Vec<u8>)
    requires
        off + len <= src@.len(),
    ensures
        out@ =~= src@.subrange(off as int, (off + len) as int),
{
    let src_len: usize = src.len();
    let mut out: Vec<u8> = Vec::new();
    let mut i: usize = 0;
    while i < len
        invariant
            i <= len,
            off + len <= src_len,
            src_len == src@.len(),
            out@.len() == i,
            forall|j: int| 0 <= j < i ==> out@[j] == src@[off + j],
        decreases len - i,
    {
        out.push(src[off + i]);
        i = i + 1;
    }
    out
}

/// Overwrites `dst[off .. off + src.len()]` with `src`.
fn write_range(dst: &mut Vec<u8>, off: usize, src: &Vec<u8>)
    requires
        off + src@.len() <= old(dst)@.len(),
    ensures
        final(dst)@.len() == old(dst)@.len(),
        forall|i: int|
            off <= i < off + src@.len() ==> final(dst)@[i] == src@[i - off],
        forall|i: int|
            0 <= i < old(dst)@.len() && !(off <= i < off + src@.len()) ==> final(dst)@[i] == old(
                dst,
            )@[i],
{
    let len = src.len();
    let dst_len: usize = dst.len();
    let mut i: usize = 0;
    while i < len
        invariant
            i <= len,
            len == src@.len(),
            off + len <= dst_len,
            dst_len == dst@.len(),
            dst@.len() == old(dst)@.len(),
            forall|j: int| off <= j < off + i ==> dst@[j] == src@[j - off],
            forall|j: int|
                0 <= j < old(dst)@.len() && !(off <= j < off + i) ==> dst@[j] == old(dst)@[j],
        decreases len - i,
    {
        dst.set(off + i, src[i]);
        i = i + 1;
    }
}

/// The `w`-byte slice of deltas stored for row `r`, right after the
/// one-byte header.
pub open spec fn delta_row(data: Seq<u8>, w: int, r: int) -> Seq<u8> {
    data.subrange(1 + r * w, 1 + (r + 1) * w)
}

/// Row `r` of the decoded plane of a raw-method frame whose decode began
/// at row `r0`: row `r0` is unfiltered without a previous row, every later
/// row against the reconstructed row above it.
pub open spec fn decoded_row(
    data: Seq<u8>,
    w: int,
    f: WEBP_FILTER_TYPE,
    r0: int,
    r: int,
) -> Seq<u8>
    decreases r - r0,
{
    if r <= r0 {
        unfilter_row_spec(f, Option::None, delta_row(data, w, r0))
    } else {
        unfilter_row_spec(
            f,
            Option::Some(decoded_row(data, w, f, r0, r - 1)),
            delta_row(data, w, r),
        )
    }
}

/// Every decoded row is `w` bytes long.
pub proof fn lemma_decoded_row_len(data: Seq<u8>, w: int, f: WEBP_FILTER_TYPE, r0: int, r: int)
    requires
        0 <= w,
        0 <= r0 <= r,
        1 + (r + 1) * w <= data.len(),
    ensures
        decoded_row(data, w, f, r0, r).len() == w,
    decreases r - r0,
{
    assert(0 <= 1 + r * w <= 1 + (r + 1) * w) by (nonlinear_arith)
        requires
            0 <= w,
            0 <= r,
    ;
    assert((1 + (r + 1) * w) - (1 + r * w) == w) by (nonlinear_arith);
    if r > r0 {
        assert(1 + r * w <= 1 + (r + 1) * w) by (nonlinear_arith)
            requires
                0 <= w,
        ;
        lemma_decoded_row_len(data, w, f, r0, r - 1);
    }
}

/// Decodes raw-method rows `[from, to)` into the plane: each row's deltas
/// are read from the payload and unfiltered against the row above.  Rows
/// `[r0, from)` must already stand decoded in the plane.
fn alph_decode_raw(
    plane: &mut Vec<u8>,
    data: &Vec<u8>,
    w: usize,
    f: WEBP_FILTER_TYPE,
    r0: usize,
    from: usize,
    to: usize,
)
    requires
        0 < w,
        r0 <= from <= to,
        to * w <= old(plane)@.len(),
        1 + to * w <= data@.len(),
        forall|r: int|
            r0 <= r < from ==> old(plane)@.subrange(r * w, (r + 1) * w) == decoded_row(
                data@,
                w as int,
                f,
                r0 as int,
                r,
            ),
    ensures
        final(plane)@.len() == old(plane)@.len(),
        forall|r: int|
            r0 <= r < to ==> final(plane)@.subrange(r * w, (r + 1) * w) == decoded_row(
                data@,
                w as int,
                f,
                r0 as int,
                r,
            ),
        forall|i: int|
            0 <= i < old(plane)@.len() && !(from * w <= i < to * w) ==> final(plane)@[i] == old(
                plane,
            )@[i],
{
    let plane_len: usize = plane.len();
    let data_len: usize = data.len();
    let mut r: usize = from;
    while r < to
        invariant
            0 < w,
            r0 <= from <= r <= to,
            plane_len == plane@.len(),
            plane@.len() == old(plane)@.len(),
            data_len == data@.len(),
            to * w <= plane_len,
            1 + to * w <= data_len,
            forall|rr: int|
                r0 <= rr < r ==> plane@.subrange(rr * w, (rr + 1) * w) == decoded_row(
                    data@,
                    w as int,
                    f,
                    r0 as int,
                    rr,
                ),
            forall|i: int|
                0 <= i < old(plane)@.len() && !(from * w <= i < r * w) ==> plane@[i] == old(
                    plane,
                )@[i],
        decreases to - r,
    {
        proof {
            assert(r * w + w <= to * w && (r + 1) * w == r * w + w && (r >= 1 ==> (r - 1) * w + w
                == r * w)) by (nonlinear_arith)
                requires
                    r < to,
                    0 < w,
            ;
            assert(from * w <= r * w) by (nonlinear_arith)
                requires
                    from <= r,
                    0 < w,
            ;
        }
        let off: usize = r * w;
        let enc = copy_range(data, 1 + off, w);
        assert(enc@ == delta_row(data@, w as int, r as int));
        let ghost pre = plane@;
        let out = if r == r0 {
            unfilter_row(f, Option::None, &enc)
        } else {
            let prev = copy_range(plane, off - w, w);
            assert(prev@ == decoded_row(data@, w as int, f, r0 as int, r - 1)) by {
                assert(plane@.subrange((r - 1) * w, r * w) == decoded_row(
                    data@,
                    w as int,
                    f,
                    r0 as int,
                    r - 1,
                ));
            }
            assert(prev@.len() == w) by {
                lemma_decoded_row_len(data@, w as int, f, r0 as int, r - 1);
                assert(1 + r * w <= data@.len()) by (nonlinear_arith)
                    requires
                        0 < w,
                        1 + (r + 1) * w <= data@.len() + w,
                        r * w + w == (r + 1) * w,
                ;
            }
            unfilter_row(f, Option::Some(&prev), &enc)
        };
        assert(out@ == decoded_row(data@, w as int, f, r0 as int, r as int));
        write_range(plane, off, &out);
        proof {
            assert(out@.len() == w);
            assert forall|rr: int| r0 <= rr < r + 1 implies plane@.subrange(rr * w, (rr + 1) * w)
                == decoded_row(data@, w as int, f, r0 as int, rr) by {
                if rr < r {
                    assert(0 <= rr * w && (rr + 1) * w <= r * w && (rr + 1) * w - rr * w == w)
                        by (nonlinear_arith)
                        requires
                            0 <= rr < r,
                            0 < w,
                    ;
                    assert forall|k: int| rr * w <= k < (rr + 1) * w implies plane@[k] == pre[k]
                    by {
                        assert(!(r * w <= k < r * w + w));
                    }
                    assert(plane@.subrange(rr * w, (rr + 1) * w) =~= pre.subrange(
                        rr * w,
                        (rr + 1) * w,
                    ));
                } else {
                    assert(plane@.subrange(r * w, r * w + w) =~= out@);
                }
            }
        }
        r = r + 1;
    }
}

/// What a row request yields.
#[derive(Clone, Copy, Debug, PartialEq, Eq, Structural)]
pub enum AlphaOutcome {
    /// The requested rows stand decoded; the view of the new rows begins
    /// at this offset of the output plane.
    Rows { start: usize },
    /// The caller must run the entropy sub-decoder's header decode on the
    /// alpha payload and report through `alpha_entropy_header_done`.
    NeedEntropyHeader,
    /// The caller must have the entropy sub-decoder materialize rows up to
    /// `last_row` and report through `alpha_entropy_rows_done`.
    NeedEntropyRows { last_row: usize },
    /// The request was out of range, or decoding failed.
    Failure,
}

/// A row request is in range: at least one row, ending at or before the
/// delivered picture height.
pub open spec fn alpha_request_ok(io: VP8Io, row: usize, num_rows: usize) -> bool {
    num_rows > 0 && row + num_rows <= io.crop_bottom
}

/// The last row (exclusive) a request decodes up to: with dithering-grade
/// preprocessing the whole remaining plane decodes in one pass.
pub open spec fn effective_last_row(pre: int, cb: int, row: int, num_rows: int) -> int {
    if pre == ALPHA_PREPROCESSED_LEVELS {
        cb
    } else {
        row + num_rows
    }
}

/// The output plane of a raw-method frame mid-decode: rows `[r0, upto)`
/// decoded, everything else still zero.
pub open spec fn raw_decoded_plane(
    p: Seq<u8>,
    data: Seq<u8>,
    io: VP8Io,
    f: WEBP_FILTER_TYPE,
    r0: int,
    upto: int,
) -> bool {
    let w = io.width as int;
    let cb = io.crop_bottom as int;
    &&& p.len() == w * cb
    &&& forall|r: int|
        r0 <= r < upto ==> p.subrange(r * w, (r + 1) * w) == decoded_row(data, w, f, r0, r)
    &&& forall|i: int| 0 <= i < p.len() && !(r0 * w <= i < upto * w) ==> p[i] == 0u8
}

/// The plane is allocated with `width * crop_bottom` bytes.
pub open spec fn plane_len_ok(s: VP8Decoder, io: VP8Io) -> bool {
    &&& s.alpha_plane_ is Some
    &&& s.alpha_plane_.unwrap()@.len() == io.width * io.crop_bottom
    &&& s.alpha_plane_.unwrap()@.len() <= usize::MAX
}

/// Consistency of an active per-frame alpha decoder with the frame
/// geometry and the stored alpha chunk.
pub open spec fn alph_dec_ok(s: VP8Decoder, ad: ALPHDecoder, io: VP8Io) -> bool {
    let data = s.alpha_data_@;
    let cb = io.crop_bottom as int;
    &&& ad.width_ == io.width
    &&& ad.height_ == io.height
    &&& ad.io_ == crate::vp8_io::alpha_io_spec(io)
    &&& data.len() > 1
    &&& header_valid(data[0])
    &&& ad.method_ == header_method(data[0])
    &&& ad.filter_ == filter_from_int(header_filter(data[0]))
    &&& ad.pre_processing_ == header_pre(data[0])
    &&& if ad.method_ == ALPHA_NO_COMPRESSION {
        &&& ad.entropy_ is None
        &&& data.len() - 1 >= io.width * io.height
        &&& ad.start_row_ <= ad.next_row_ <= cb
        &&& ad.start_row_ < cb
        &&& raw_decoded_plane(
            s.alpha_plane_.unwrap()@,
            data,
            io,
            ad.filter_,
            ad.start_row_ as int,
            ad.next_row_ as int,
        )
    } else {
        &&& ad.entropy_ is Some
        &&& match ad.entropy_.unwrap() {
            EntropyState::HeaderPending => true,
            EntropyState::Ready { rows_done } => rows_done <= cb,
            EntropyState::RowsPending { rows_done, last_row } => rows_done < last_row <= cb,
        }
    }
}

/// The alpha-pipeline state invariant: a failed decode holds nothing, a
/// finished one holds only the plane, an active one holds a consistent
/// per-frame decoder and the plane.
pub open spec fn alpha_ok(s: VP8Decoder, io: VP8Io) -> bool {
    &&& s.alpha_failed_ ==> (s.alph_dec_ is None && s.alpha_plane_ is None
        && !s.is_alpha_decoded_)
    &&& s.is_alpha_decoded_ ==> (!s.alpha_failed_ && s.alph_dec_ is None && plane_len_ok(s, io))
    &&& s.alph_dec_ is Some ==> (!s.alpha_failed_ && !s.is_alpha_decoded_ && plane_len_ok(s, io)
        && alph_dec_ok(s, s.alph_dec_.unwrap(), io))
}

/// The decoder after a failure: alpha memory released and the terminal
/// failure flag set; nothing else moved.
pub open spec fn failed_state(t: VP8Decoder, s: VP8Decoder) -> bool {
    t == VP8Decoder {
        alph_dec_: Option::None,
        alpha_plane_: Option::None,
        is_alpha_decoded_: false,
        alpha_failed_: true,
        ..s
    }
}

/// The alpha chunk passes the header checks for this geometry: a valid
/// header byte and, for the raw method, a payload that can cover the
/// whole `width * height` plane.
pub open spec fn alpha_init_ok(data: Seq<u8>, io: VP8Io) -> bool {
    &&& data.len() > 1
    &&& header_valid(data[0])
    &&& (header_method(data[0]) == 0 ==> data.len() - 1 >= io.width * io.height)
}

/// The per-frame decoder created by a first row request at `row`.
pub open spec fn initial_alph_dec(data: Seq<u8>, io: VP8Io, row: int) -> ALPHDecoder {
    ALPHDecoder {
        width_: io.width,
        height_: io.height,
        method_: header_method(data[0]) as i32,
        filter_: filter_from_int(header_filter(data[0])),
        pre_processing_: header_pre(data[0]) as i32,
        io_: crate::vp8_io::alpha_io_spec(io),
        start_row_: row as usize,
        next_row_: row as usize,
        entropy_: if header_method(data[0]) == 0 {
            Option::<EntropyState>::None
        } else {
            Option::Some(EntropyState::HeaderPending)
        },
    }
}

/// Parses the alpha header and configures the per-frame decoder.  Returns
/// false without touching the state when the chunk is rejected: too short,
/// an invalid header byte, or a raw payload smaller than the plane.
fn alph_init(dec: &mut VP8Decoder, io: &VP8Io, row: usize) -> (ok: bool)
    requires
        io.wf(),
        (old(dec).alph_dec_ is None),
        row < io.crop_bottom,
    ensures
        ok == alpha_init_ok(old(dec).alpha_data_@, *io),
        !ok ==> *final(dec) == *old(dec),
        ok ==> *final(dec) == (VP8Decoder {
            alph_dec_: Option::Some(initial_alph_dec(old(dec).alpha_data_@, *io, row as int)),
            ..*old(dec)
        }),
{
    let data_len = dec.alpha_data_.len();
    if data_len <= ALPHA_HEADER_LEN {
        return false;
    }
    let b = dec.alpha_data_[0];
    let hdr = match parse_alpha_header(b) {
        Option::Some(h) => h,
        Option::None => { return false; },
    };
    // Copy the geometry from the frame's descriptor; scaling parameters
    // are deliberately not copied.
    let aio = alpha_io_from(io);
    if hdr.method == ALPHA_NO_COMPRESSION {
        // A cheap necessary size check: the payload must be able to hold
        // one byte per pixel of the full plane.
        let w64 = io.width as u64;
        let h64 = io.height as u64;
        proof {
            assert(w64 * h64 < 0x4000_0000_0000_0000) by (nonlinear_arith)
                requires
                    w64 < 0x8000_0000,
                    h64 < 0x8000_0000,
            ;
        }
        let need = w64 * h64;
        if ((data_len - 1) as u64) < need {
            return false;
        }
    }
    dec.alph_dec_ = Option::Some(
        ALPHDecoder {
            width_: io.width,
            height_: io.height,
            method_: hdr.method,
            filter_: hdr.filter,
            pre_processing_: hdr.pre_processing,
            io_: aio,
            start_row_: row,
            next_row_: row,
            entropy_: if hdr.method == ALPHA_NO_COMPRESSION {
                Option::None
            } else {
                Option::Some(EntropyState::HeaderPending)
            },
        },
    );
    true
}

/// The outcome and state change of one raw-method decode step over rows
/// `[row, last)`, including completion, teardown of the per-frame decoder
/// and the one-shot dithering pass.
pub open spec fn raw_step_result(
    r: AlphaOutcome,
    t: VP8Decoder,
    s: VP8Decoder,
    io: VP8Io,
    ad0: ALPHDecoder,
    dith: int,
    row: int,
    last: int,
) -> bool {
    let w = io.width as int;
    let cb = io.crop_bottom as int;
    let data = s.alpha_data_@;
    let f = ad0.filter_;
    let r0 = ad0.start_row_ as int;
    if last >= cb {
        let off = io.crop_top * w + io.crop_left;
        let cw = io.crop_right - io.crop_left;
        let ch = io.crop_bottom - io.crop_top;
        if dith > 0 && !dequantize_args_ok(w * cb, off, cw, ch, w, dith) {
            r == AlphaOutcome::Failure && failed_state(t, s)
        } else {
            &&& r == (AlphaOutcome::Rows { start: (row * w) as usize })
            &&& t.is_alpha_decoded_
            &&& !t.alpha_failed_
            &&& t.alph_dec_ is None
            &&& t.status_ == s.status_
            &&& t.alpha_dithering_ == dith
            &&& t.alpha_plane_ is Some
            &&& t.alpha_plane_.unwrap()@.len() == w * cb
            &&& if dith > 0 {
                exists|p0: Seq<u8>|
                    raw_decoded_plane(p0, data, io, f, r0, cb) && t.alpha_plane_.unwrap()@
                        == dither_plane(p0, off, cw, ch, w, dith)
            } else {
                raw_decoded_plane(t.alpha_plane_.unwrap()@, data, io, f, r0, cb)
            }
        }
    } else {
        &&& r == (AlphaOutcome::Rows { start: (row * w) as usize })
        &&& !t.is_alpha_decoded_
        &&& !t.alpha_failed_
        &&& t.alph_dec_ == Option::Some(ALPHDecoder { next_row_: last as usize, ..ad0 })
        &&& t.status_ == s.status_
        &&& t.alpha_dithering_ == dith
        &&& t.alpha_plane_ is Some
        &&& raw_decoded_plane(t.alpha_plane_.unwrap()@, data, io, f, r0, last)
    }
}

/// The outcome and state change of one entropy-method step: either a
/// request to the external sub-decoder, or completion over rows the
/// sub-decoder already materialized.
pub open spec fn entropy_step_result(
    r: AlphaOutcome,
    t: VP8Decoder,
    s: VP8Decoder,
    io: VP8Io,
    ad0: ALPHDecoder,
    dith: int,
    row: int,
    last: int,
) -> bool {
    let w = io.width as int;
    let cb = io.crop_bottom as int;
    match ad0.entropy_.unwrap() {
        EntropyState::HeaderPending => r == AlphaOutcome::NeedEntropyHeader && t == s,
        EntropyState::RowsPending { rows_done, last_row } => r == (AlphaOutcome::NeedEntropyRows {
            last_row,
        }) && t == s,
        EntropyState::Ready { rows_done } => {
            if rows_done < last {
                &&& r == (AlphaOutcome::NeedEntropyRows { last_row: last as usize })
                &&& t == VP8Decoder {
                    alph_dec_: Option::Some(
                        ALPHDecoder {
                            entropy_: Option::Some(
                                EntropyState::RowsPending { rows_done, last_row: last as usize },
                            ),
                            ..ad0
                        },
                    ),
                    ..s
                }
            } else if last >= cb {
                let off = io.crop_top * w + io.crop_left;
                let cw = io.crop_right - io.crop_left;
                let ch = io.crop_bottom - io.crop_top;
                if dith > 0 && !dequantize_args_ok(w * cb, off, cw, ch, w, dith) {
                    r == AlphaOutcome::Failure && failed_state(t, s)
                } else {
                    &&& r == (AlphaOutcome::Rows { start: (row * w) as usize })
                    &&& t.is_alpha_decoded_
                    &&& !t.alpha_failed_
                    &&& t.alph_dec_ is None
                    &&& t.status_ == s.status_
                    &&& t.alpha_dithering_ == dith
                    &&& t.alpha_plane_ is Some
                    &&& t.alpha_plane_.unwrap()@.len() == w * cb
                    &&& t.alpha_plane_.unwrap()@ == if dith > 0 {
                        dither_plane(s.alpha_plane_.unwrap()@, off, cw, ch, w, dith)
                    } else {
                        s.alpha_plane_.unwrap()@
                    }
                }
            } else {
                r == (AlphaOutcome::Rows { start: (row * w) as usize }) && t == s
            }
        },
    }
}

/// Monotonic row delivery: however the caller chunks its row requests into
/// increasing contiguous ranges, the finished plane is the same, because a
/// plane that satisfies `raw_decoded_plane` over the full delivered height
/// is unique.  Each successful `VP8DecompressAlphaRows` call ensures
/// exactly that predicate for the rows decoded so far.
pub proof fn lemma_raw_plane_deterministic(
    p1: Seq<u8>,
    p2: Seq<u8>,
    data: Seq<u8>,
    io: VP8Io,
    f: WEBP_FILTER_TYPE,
    r0: int,
)
    requires
        io.wf(),
        0 <= r0,
        raw_decoded_plane(p1, data, io, f, r0, io.crop_bottom as int),
        raw_decoded_plane(p2, data, io, f, r0, io.crop_bottom as int),
    ensures
        p1 == p2,
{
    let w = io.width as int;
    let cb = io.crop_bottom as int;
    assert forall|i: int| 0 <= i < p1.len() implies p1[i] == p2[i] by {
        vstd::arithmetic::div_mod::lemma_fundamental_div_mod(i, w);
        let r = i / w;
        let c = i % w;
        assert(0 <= c < w) by {
            vstd::arithmetic::div_mod::lemma_mod_bound(i, w);
        }
        assert(0 <= r < cb && r * w <= i < (r + 1) * w && (r + 1) * w <= w * cb)
            by (nonlinear_arith)
            requires
                i == w * r + c,
                0 <= c < w,
                0 <= i < w * cb,
                0 < w,
        ;
        if r0 <= r {
            assert(p1.subrange(r * w, (r + 1) * w) == decoded_row(data, w, f, r0, r));
            assert(p2.subrange(r * w, (r + 1) * w) == decoded_row(data, w, f, r0, r));
            assert(p1[i] == p1.subrange(r * w, (r + 1) * w)[i - r * w]);
            assert(p2[i] == p2.subrange(r * w, (r + 1) * w)[i - r * w]);
        } else {
            assert(i < r0 * w) by (nonlinear_arith)
                requires
                    i < (r + 1) * w,
                    r < r0,
                    0 < w,
            ;
            assert(p1[i] == 0u8 && p2[i] == 0u8);
        }
    }
    assert(p1 =~= p2);
}

/// Decodes (at least) `num_rows` rows of alpha starting from row `row`,
/// assuming rows up to `row - 1` are already decoded: the raw path
/// directly against the stored payload, the entropy path by requesting
/// work from the external sub-decoder.  Sets the completion flag once the
/// last delivered row is reached; the caller tears the per-frame decoder
/// down and runs the dithering pass.
fn alph_decode(dec: &mut VP8Decoder, io: &VP8Io, row: usize, num_rows: usize) -> (r: AlphaOutcome)
    requires
        io.wf(),
        alpha_ok(*old(dec), *io),
        (old(dec).alph_dec_ is Some),
        num_rows > 0,
        row + num_rows <= io.crop_bottom,
        old(dec).alph_dec_.unwrap().method_ == ALPHA_NO_COMPRESSION ==> row == old(
            dec,
        ).alph_dec_.unwrap().next_row_,
    ensures
        final(dec).alpha_data_ == old(dec).alpha_data_,
        final(dec).status_ == old(dec).status_,
        final(dec).alpha_dithering_ == old(dec).alpha_dithering_,
        !final(dec).alpha_failed_,
        ({
            let s = *old(dec);
            let t = *final(dec);
            let ad = s.alph_dec_.unwrap();
            let data = s.alpha_data_@;
            let w = io.width as int;
            let cb = io.crop_bottom as int;
            let last = row + num_rows;
            if ad.method_ == ALPHA_NO_COMPRESSION {
                &&& r == (AlphaOutcome::Rows { start: (row * w) as usize })
                &&& t.alph_dec_ == Option::Some(ALPHDecoder { next_row_: last as usize, ..ad })
                &&& t.is_alpha_decoded_ == (last >= cb)
                &&& t.alpha_plane_ is Some
                &&& t.alpha_plane_.unwrap()@.len() == s.alpha_plane_.unwrap()@.len()
                &&& raw_decoded_plane(
                    t.alpha_plane_.unwrap()@,
                    data,
                    *io,
                    ad.filter_,
                    ad.start_row_ as int,
                    last as int,
                )
            } else {
                match ad.entropy_.unwrap() {
                    EntropyState::HeaderPending => r == AlphaOutcome::NeedEntropyHeader && t == s,
                    EntropyState::RowsPending { rows_done, last_row } => r
                        == (AlphaOutcome::NeedEntropyRows { last_row }) && t == s,
                    EntropyState::Ready { rows_done } => {
                        if rows_done < last {
                            &&& r == (AlphaOutcome::NeedEntropyRows { last_row: last as usize })
                            &&& t == (VP8Decoder {
                                alph_dec_: Option::Some(
                                    ALPHDecoder {
                                        entropy_: Option::Some(
                                            EntropyState::RowsPending {
                                                rows_done,
                                                last_row: last as usize,
                                            },
                                        ),
                                        ..ad
                                    },
                                ),
                                ..s
                            })
                        } else {
                            &&& r == (AlphaOutcome::Rows { start: (row * w) as usize })
                            &&& t == (VP8Decoder { is_alpha_decoded_: (last >= cb), ..s })
                        }
                    },
                }
            }
        }),
{
    let ad = match dec.alph_dec_ {
        Option::Some(a) => a,
        Option::None => {
            proof {
                assert(false);
            }
            ALPHDecoder {
                width_: 0,
                height_: 0,
                method_: 0,
                filter_: WEBP_FILTER_TYPE::WEBP_FILTER_NONE,
                pre_processing_: 0,
                io_: alpha_io_from(io),
                start_row_: 0,
                next_row_: 0,
                entropy_: Option::None,
            }
        },
    };
    let w = io.width as usize;
    let cb = io.crop_bottom as usize;
    let last = row + num_rows;
    if ad.method_ == ALPHA_NO_COMPRESSION {
        proof {
            assert((last as int) * (w as int) <= (io.width as int) * (io.crop_bottom as int) && (
            last as int) * (w as int) <= (io.width as int) * (io.height as int))
                by (nonlinear_arith)
                requires
                    0 < io.width,
                    w == io.width,
                    last <= io.crop_bottom <= io.height,
            ;
        }
        match &mut dec.alpha_plane_ {
            Option::Some(p) => {
                alph_decode_raw(p, &dec.alpha_data_, w, ad.filter_, ad.start_row_, row, last);
            },
            Option::None => {
                proof {
                    assert(false);
                }
            },
        }
        dec.alph_dec_ = Option::Some(ALPHDecoder { next_row_: last, ..ad });
        if last >= cb {
            dec.is_alpha_decoded_ = true;
        }
        proof {
            let s = *old(dec);
            let t = *dec;
            let data = s.alpha_data_@;
            let wi = io.width as int;
            let r0 = ad.start_row_ as int;
            let p0 = s.alpha_plane_.unwrap()@;
            let p1 = t.alpha_plane_.unwrap()@;
            assert(r0 * wi <= (row as int) * wi && (row as int) * wi <= (last as int) * wi && (
            row as int) * (w as int) == (row as int) * wi) by (nonlinear_arith)
                requires
                    0 < wi,
                    0 <= r0,
                    r0 <= row,
                    row <= last,
                    w == wi,
            ;
            assert forall|i: int|
                0 <= i < p1.len() && !(r0 * wi <= i < (last as int) * wi) implies p1[i] == 0u8 by {
                assert(p1[i] == p0[i]);
            }
        }
        return AlphaOutcome::Rows { start: row * w };
    }
    // entropy-compressed path: the external sub-decoder materializes rows
    let est = match ad.entropy_ {
        Option::Some(e) => e,
        Option::None => {
            proof {
                assert(false);
            }
            EntropyState::HeaderPending
        },
    };
    match est {
        EntropyState::HeaderPending => AlphaOutcome::NeedEntropyHeader,
        EntropyState::RowsPending { rows_done: _, last_row } => AlphaOutcome::NeedEntropyRows {
            last_row,
        },
        EntropyState::Ready { rows_done } => {
            if rows_done < last {
                dec.alph_dec_ = Option::Some(
                    ALPHDecoder {
                        entropy_: Option::Some(
                            EntropyState::RowsPending { rows_done, last_row: last },
                        ),
                        ..ad
                    },
                );
                AlphaOutcome::NeedEntropyRows { last_row: last }
            } else {
                if last >= cb {
                    dec.is_alpha_decoded_ = true;
                }
                proof {
                    assert((row as int) * (w as int) <= (io.width as int) * (
                    io.crop_bottom as int)) by (nonlinear_arith)
                        requires
                            0 < io.width,
                            w == io.width,
                            row <= io.crop_bottom,
                    ;
                }
                AlphaOutcome::Rows { start: row * w }
            }
        },
    }
}

/// Decodes, unfilters and dequantizes at least `num_rows` rows of alpha
/// starting from row `row`.  On the first request the output plane is
/// allocated and the header parsed; when the header requests
/// dithering-grade preprocessing, the whole remaining plane decodes in one
/// pass regardless of `num_rows`.  A successful call yields the offset of
/// row `row` in the output plane.  Out-of-range requests, and requests
/// that do not resume at the raw path's cursor, fail without touching the
/// state; decode failures release the alpha memory and are terminal.
#[allow(non_snake_case)]
pub fn VP8DecompressAlphaRows(
    dec: &mut VP8Decoder,
    io: &VP8Io,
    row: usize,
    num_rows: usize,
) -> (r: AlphaOutcome)
    requires
        io.wf(),
        alpha_ok(*old(dec), *io),
    ensures
        alpha_ok(*final(dec), *io),
        final(dec).alpha_data_ == old(dec).alpha_data_,
        ({
            let s = *old(dec);
            let t = *final(dec);
            let w = io.width as int;
            let cb = io.crop_bottom as int;
            let data = s.alpha_data_@;
            if !alpha_request_ok(*io, row, num_rows) {
                r == AlphaOutcome::Failure && t == s
            } else if s.alpha_failed_ {
                r == AlphaOutcome::Failure && t == s
            } else if s.is_alpha_decoded_ {
                r == (AlphaOutcome::Rows { start: (row * w) as usize }) && t == s
            } else if s.alph_dec_ is None {
                if w * cb > usize::MAX {
                    // allocation failure: out of memory is reported
                    r == AlphaOutcome::Failure && t == (VP8Decoder {
                        status_: VP8StatusCode::VP8_STATUS_OUT_OF_MEMORY,
                        alph_dec_: Option::None,
                        alpha_plane_: Option::None,
                        is_alpha_decoded_: false,
                        alpha_failed_: true,
                        ..s
                    })
                } else if !alpha_init_ok(data, *io) {
                    r == AlphaOutcome::Failure && failed_state(t, s)
                } else {
                    let ad0 = initial_alph_dec(data, *io, row as int);
                    let dith = if header_pre(data[0]) == ALPHA_PREPROCESSED_LEVELS {
                        s.alpha_dithering_ as int
                    } else {
                        0int
                    };
                    let last = effective_last_row(
                        header_pre(data[0]),
                        cb,
                        row as int,
                        num_rows as int,
                    );
                    if header_method(data[0]) == 0 {
                        raw_step_result(r, t, s, *io, ad0, dith, row as int, last)
                    } else {
                        &&& r == AlphaOutcome::NeedEntropyHeader
                        &&& t.alph_dec_ == Option::Some(ad0)
                        &&& t.status_ == s.status_
                        &&& t.alpha_dithering_ == dith
                        &&& !t.is_alpha_decoded_
                        &&& !t.alpha_failed_
                        &&& t.alpha_plane_ is Some
                        &&& t.alpha_plane_.unwrap()@ == Seq::new((w * cb) as nat, |i: int| 0u8)
                    }
                }
            } else {
                let ad0 = s.alph_dec_.unwrap();
                let dith = s.alpha_dithering_ as int;
                let last = effective_last_row(
                    ad0.pre_processing_ as int,
                    cb,
                    row as int,
                    num_rows as int,
                );
                if ad0.method_ == ALPHA_NO_COMPRESSION {
                    if row != ad0.next_row_ {
                        r == AlphaOutcome::Failure && t == s
                    } else {
                        raw_step_result(r, t, s, *io, ad0, dith, row as int, last)
                    }
                } else {
                    entropy_step_result(r, t, s, *io, ad0, dith, row as int, last)
                }
            }
        }),
{
    let w = io.width as usize;
    let cb = io.crop_bottom as usize;

    // sanity check on the requested range
    if num_rows == 0 || row >= cb || num_rows > cb - row {
        return AlphaOutcome::Failure;
    }
    if dec.alpha_failed_ {
        return AlphaOutcome::Failure;
    }
    if dec.is_alpha_decoded_ {
        proof {
            assert((row as int) * (w as int) + (w as int) <= (io.width as int) * (
            io.crop_bottom as int)) by (nonlinear_arith)
                requires
                    0 < w,
                    w == io.width,
                    row < io.crop_bottom,
            ;
        }
        return AlphaOutcome::Rows { start: row * w };
    }

    if dec.alph_dec_.is_none() {
        // first request: allocate the output plane and parse the header
        let w64 = io.width as u64;
        let cb64 = io.crop_bottom as u64;
        proof {
            assert(w64 * cb64 < 0x4000_0000_0000_0000 && w64 * cb64 == (io.width as int) * (
            io.crop_bottom as int)) by (nonlinear_arith)
                requires
                    0 < w64 < 0x8000_0000,
                    0 < cb64 < 0x8000_0000,
                    w64 == io.width,
                    cb64 == io.crop_bottom,
            ;
        }
        let need = w64 * cb64;
        if need > usize::MAX as u64 {
            // allocation failure: out of addressable memory
            WebPDeallocateAlphaMemory(dec);
            dec.status_ = VP8StatusCode::VP8_STATUS_OUT_OF_MEMORY;
            dec.alpha_failed_ = true;
            return AlphaOutcome::Failure;
        }
        let plane = zero_vec(need as usize);
        dec.alpha_plane_ = Option::Some(plane);
        if !alph_init(dec, io, row) {
            WebPDeallocateAlphaMemory(dec);
            dec.alpha_failed_ = true;
            return AlphaOutcome::Failure;
        }
        // if alpha dithering was allowed, check whether it is needed at all
        let pre = match &dec.alph_dec_ {
            Option::Some(a) => a.pre_processing_,
            Option::None => {
                proof {
                    assert(false);
                }
                0
            },
        };
        if pre != ALPHA_PREPROCESSED_LEVELS {
            dec.alpha_dithering_ = 0;  // disable dithering
        }
    }

    let ad = match dec.alph_dec_ {
        Option::Some(a) => a,
        Option::None => {
            proof {
                assert(false);
            }
            return AlphaOutcome::Failure;
        },
    };
    // with dithering-grade preprocessing, decode everything in one pass
    let nrows: usize = if ad.pre_processing_ == ALPHA_PREPROCESSED_LEVELS {
        cb - row
    } else {
        num_rows
    };
    // the raw path resumes exactly at its cursor
    if ad.method_ == ALPHA_NO_COMPRESSION && row != ad.next_row_ {
        return AlphaOutcome::Failure;
    }

    let step = alph_decode(dec, io, row, nrows);
    match step {
        AlphaOutcome::Rows { start: _ } => {},
        AlphaOutcome::NeedEntropyHeader => {
            return AlphaOutcome::NeedEntropyHeader;
        },
        AlphaOutcome::NeedEntropyRows { last_row } => {
            return AlphaOutcome::NeedEntropyRows { last_row };
        },
        AlphaOutcome::Failure => {
            proof {
                assert(false);
            }
            return AlphaOutcome::Failure;
        },
    }

    if dec.is_alpha_decoded_ {
        // finished: release the sub-decoder immediately
        dec.alph_dec_ = Option::None;
        if dec.alpha_dithering_ > 0 {
            let dith = dec.alpha_dithering_;
            let ct64 = io.crop_top as u64;
            let cl64 = io.crop_left as u64;
            proof {
                assert(ct64 * (w as u64) + cl64 < 0x8000_0000_0000_0000) by (nonlinear_arith)
                    requires
                        ct64 < 0x8000_0000,
                        cl64 < 0x8000_0000,
                        w < 0x8000_0000,
                ;
            }
            let off64 = ct64 * (w as u64) + cl64;
            let cw = io.crop_right - io.crop_left;
            let ch = io.crop_bottom - io.crop_top;
            let mut ok = false;
            if off64 <= usize::MAX as u64 {
                ok = match &mut dec.alpha_plane_ {
                    Option::Some(p) => WebPDequantizeLevels(
                        p,
                        off64 as usize,
                        cw,
                        ch,
                        io.width,
                        dith,
                    ),
                    Option::None => {
                        proof {
                            assert(false);
                        }
                        false
                    },
                };
            } else {
                proof {
                    // the rectangle cannot lie inside the plane
                    let wi = io.width as int;
                    let cbi = io.crop_bottom as int;
                    assert(ch >= 1 ==> (io.crop_top as int) * wi + (io.crop_left as int) + (
                    ch - 1) * wi + cw > wi * cbi) by (nonlinear_arith)
                        requires
                            0 < wi,
                            wi * cbi <= usize::MAX,
                            (io.crop_top as int) * wi + (io.crop_left as int) > usize::MAX,
                            cw == io.crop_right - io.crop_left,
                            ch == io.crop_bottom - io.crop_top,
                            0 <= io.crop_left <= io.crop_right <= wi,
                            0 <= io.crop_top <= io.crop_bottom <= cbi,
                    ;
                }
            }
            if !ok {
                WebPDeallocateAlphaMemory(dec);
                dec.is_alpha_decoded_ = false;
                dec.alpha_failed_ = true;
                return AlphaOutcome::Failure;
            }
        }
    }

    proof {
        assert((row as int) * (w as int) + (w as int) <= (io.width as int) * (
        io.crop_bottom as int)) by (nonlinear_arith)
            requires
                0 < w,
                w == io.width,
                row < io.crop_bottom,
        ;
    }
    AlphaOutcome::Rows { start: row * w }
}

/// Reports the entropy sub-decoder's header-decode result.  Accepted only
/// while the decoder awaits exactly that; a reported failure releases the
/// alpha memory and is terminal.
pub fn alpha_entropy_header_done(dec: &mut VP8Decoder, io: &VP8Io, ok: bool) -> (accepted: bool)
    requires
        io.wf(),
        alpha_ok(*old(dec), *io),
    ensures
        alpha_ok(*final(dec), *io),
        final(dec).alpha_data_ == old(dec).alpha_data_,
        final(dec).status_ == old(dec).status_,
        ({
            let s = *old(dec);
            let t = *final(dec);
            let pending = s.alph_dec_ is Some && s.alph_dec_.unwrap().entropy_ == Option::Some(
                EntropyState::HeaderPending,
            );
            if !pending {
                !accepted && t == s
            } else if !ok {
                accepted && failed_state(t, s)
            } else {
                accepted && t == (VP8Decoder {
                    alph_dec_: Option::Some(
                        ALPHDecoder {
                            entropy_: Option::Some(EntropyState::Ready { rows_done: 0 }),
                            ..s.alph_dec_.unwrap()
                        },
                    ),
                    ..s
                })
            }
        }),
{
    let ad = match dec.alph_dec_ {
        Option::Some(a) => a,
        Option::None => {
            return false;
        },
    };
    match ad.entropy_ {
        Option::Some(EntropyState::HeaderPending) => {},
        _ => {
            return false;
        },
    }
    if !ok {
        WebPDeallocateAlphaMemory(dec);
        dec.alpha_failed_ = true;
        return true;
    }
    dec.alph_dec_ = Option::Some(
        ALPHDecoder { entropy_: Option::Some(EntropyState::Ready { rows_done: 0 }), ..ad },
    );
    true
}

/// Reports the entropy sub-decoder's row-decode result, handing over the
/// bytes it materialized for the pending rows.  Accepted only while the
/// decoder awaits rows and the byte count matches; a reported failure
/// releases the alpha memory and is terminal.
pub fn alpha_entropy_rows_done(
    dec: &mut VP8Decoder,
    io: &VP8Io,
    ok: bool,
    rows: &Vec<u8>,
) -> (accepted: bool)
    requires
        io.wf(),
        alpha_ok(*old(dec), *io),
    ensures
        alpha_ok(*final(dec), *io),
        final(dec).alpha_data_ == old(dec).alpha_data_,
        final(dec).status_ == old(dec).status_,
        ({
            let s = *old(dec);
            let t = *final(dec);
            let w = io.width as int;
            let pending = s.alph_dec_ is Some && (s.alph_dec_.unwrap().entropy_ matches
            Option::Some(EntropyState::RowsPending { .. }));
            if !pending {
                !accepted && t == s
            } else if !ok {
                accepted && failed_state(t, s)
            } else {
                let ad = s.alph_dec_.unwrap();
                let rows_done = ad.entropy_.unwrap()->RowsPending_rows_done as int;
                let last_row = ad.entropy_.unwrap()->RowsPending_last_row as int;
                if rows@.len() != (last_row - rows_done) * w {
                    !accepted && t == s
                } else {
                    &&& accepted
                    &&& t.alph_dec_ == Option::Some(
                        ALPHDecoder {
                            entropy_: Option::Some(
                                EntropyState::Ready { rows_done: last_row as usize },
                            ),
                            ..ad
                        },
                    )
                    &&& t.is_alpha_decoded_ == s.is_alpha_decoded_
                    &&& t.alpha_failed_ == s.alpha_failed_
                    &&& t.alpha_dithering_ == s.alpha_dithering_
                    &&& t.alpha_plane_ is Some
                    &&& t.alpha_plane_.unwrap()@.len() == s.alpha_plane_.unwrap()@.len()
                    &&& (forall|i: int|
                        rows_done * w <= i < last_row * w ==> t.alpha_plane_.unwrap()@[i]
                            == rows@[i - rows_done * w])
                    &&& (forall|i: int|
                        0 <= i < s.alpha_plane_.unwrap()@.len() && !(rows_done * w <= i < last_row
                            * w) ==> t.alpha_plane_.unwrap()@[i] == s.alpha_plane_.unwrap()@[i])
                }
            }
        }),
{
    let ad = match dec.alph_dec_ {
        Option::Some(a) => a,
        Option::None => {
            return false;
        },
    };
    let (rows_done, last_row) = match ad.entropy_ {
        Option::Some(EntropyState::RowsPending { rows_done, last_row }) => (rows_done, last_row),
        _ => {
            return false;
        },
    };
    if !ok {
        WebPDeallocateAlphaMemory(dec);
        dec.alpha_failed_ = true;
        return true;
    }
    let w = io.width as usize;
    proof {
        assert((last_row as int) * (w as int) <= (io.width as int) * (io.crop_bottom as int) && (
        last_row as int - rows_done as int) * (w as int) == (last_row as int) * (w as int) - (
        rows_done as int) * (w as int) && (rows_done as int) * (w as int) >= 0)
            by (nonlinear_arith)
            requires
                0 < w,
                w == io.width,
                rows_done <= last_row <= io.crop_bottom,
        ;
    }
    let expected: usize = (last_row - rows_done) * w;
    if rows.len() != expected {
        return false;
    }
    match &mut dec.alpha_plane_ {
        Option::Some(p) => {
            write_range(p, rows_done * w, rows);
        },
        Option::None => {
            proof {
                assert(false);
            }
        },
    }
    dec.alph_dec_ = Option::Some(
        ALPHDecoder {
            entropy_: Option::Some(EntropyState::Ready { rows_done: last_row }),
            ..ad
        },
    );
    true
}

} // verus!
