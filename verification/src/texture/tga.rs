//! TGA image decoder, producing RGBA pixel data.

use vstd::prelude::*;
use vstd::arithmetic::div_mod::lemma_div_by_multiple;
use vstd::arithmetic::mul::{lemma_mul_inequality, lemma_mul_is_distributive_add_other_way};

verus! {

/// Image data type, as stored in byte 2 of a TGA header.
#[derive(Clone, Copy, Debug, PartialEq, Eq, Structural)]
pub enum DataType {
    NoData,
    Idx,
    TrueColor,
    Gray,
    IdxRle,
    TruecolorRle,
    GrayRle,
}

/// A data type byte that names no known data type.
#[derive(Debug)]
pub struct InvalidDataType(pub u8);

/// The data type that a header byte stands for, if any.
pub open spec fn spec_data_type(value: u8) -> Option<DataType> {
    if value == 0 {
        Some(DataType::NoData)
    } else if value == 1 {
        Some(DataType::Idx)
    } else if value == 2 {
        Some(DataType::TrueColor)
    } else if value == 3 {
        Some(DataType::Gray)
    } else if value == 9 {
        Some(DataType::IdxRle)
    } else if value == 10 {
        Some(DataType::TruecolorRle)
    } else if value == 11 {
        Some(DataType::GrayRle)
    } else {
        None
    }
}

impl TryFrom<u8> for DataType {
    type Error = InvalidDataType;

    fn try_from(value: u8) -> (res: Result<Self, Self::Error>) {
        match value {
            0 => Ok(DataType::NoData),
            1 => Ok(DataType::Idx),
            2 => Ok(DataType::TrueColor),
            3 => Ok(DataType::Gray),
            9 => Ok(DataType::IdxRle),
            10 => Ok(DataType::TruecolorRle),
            11 => Ok(DataType::GrayRle),
            n => Err(InvalidDataType(n)),
        }
    }
}

impl vstd::std_specs::convert::TryFromSpecImpl<u8> for DataType {
    open spec fn obeys_try_from_spec() -> bool {
        true
    }

    open spec fn try_from_spec(value: u8) -> Result<Self, Self::Error> {
        match spec_data_type(value) {
            Some(t) => Ok(t),
            None => Err(InvalidDataType(value)),
        }
    }
}

/// The fields of a TGA file header that the decoder uses.
#[derive(Clone, Copy, Debug, PartialEq, Eq, Structural)]
pub struct TgaHeader {
    pub width: u16,
    pub height: u16,
    pub id_len: u8,
    pub palette_type: u8,
    pub data_type: DataType,
    pub bits_pp: u8,
    pub flags: u8,
}

impl TgaHeader {
    pub fn width(&self) -> (r: u16)
        ensures
            r == self.width,
    {
        self.width
    }

    pub fn height(&self) -> (r: u16)
        ensures
            r == self.height,
    {
        self.height
    }

    pub fn id_len(&self) -> (r: u8)
        ensures
            r == self.id_len,
    {
        self.id_len
    }

    pub fn palette_type(&self) -> (r: u8)
        ensures
            r == self.palette_type,
    {
        self.palette_type
    }

    pub fn data_type(&self) -> (r: DataType)
        ensures
            r == self.data_type,
    {
        self.data_type
    }

    pub fn bits_pp(&self) -> (r: u8)
        ensures
            r == self.bits_pp,
    {
        self.bits_pp
    }

    pub fn flags(&self) -> (r: u8)
        ensures
            r == self.flags,
    {
        self.flags
    }
}

/// Why a TGA file could not be decoded.
#[derive(Debug, PartialEq, Eq)]
pub enum TgaDecodeError {
    /// The data ended before the decoder had read all it needed.
    Io,
    InvalidHeader,
    Unsupported(&'static str),
    TooBig,
}

/// The little-endian `u16` stored at `i` and `i + 1`.
pub open spec fn le_u16_at(b: Seq<u8>, i: int) -> u16 {
    (b[i] as int + b[i + 1] as int * 256) as u16
}

/// The header that the first 18 bytes of `b` describe, or the error that reading it gives.
pub open spec fn spec_tga_header(b: Seq<u8>) -> Result<TgaHeader, TgaDecodeError> {
    if b.len() < 3 {
        Err(TgaDecodeError::Io)
    } else {
        match spec_data_type(b[2]) {
            None => Err(TgaDecodeError::InvalidHeader),
            Some(data_type) => {
                if b.len() < 18 {
                    Err(TgaDecodeError::Io)
                } else {
                    let palette_type = b[1];
                    let palette_beg = le_u16_at(b, 3);
                    let palette_len = le_u16_at(b, 5);
                    let palette_bits = b[7];
                    let width = le_u16_at(b, 12);
                    let height = le_u16_at(b, 14);
                    if width < 1 || height < 1 || palette_type > 1 || (palette_type == 0 && (
                    palette_beg > 0 || palette_len > 0 || palette_bits > 0)) {
                        Err(TgaDecodeError::InvalidHeader)
                    } else {
                        Ok(
                            TgaHeader {
                                width,
                                height,
                                id_len: b[0],
                                palette_type,
                                data_type,
                                bits_pp: b[16],
                                flags: b[17],
                            },
                        )
                    }
                }
            },
        }
    }
}

fn read_le_u16_at(b: &[u8], i: usize) -> (r: u16)
    requires
        i + 1 < b@.len(),
    ensures
        r == le_u16_at(b@, i as int),
{
    b[i] as u16 + b[i + 1] as u16 * 256
}

/// Reads and checks the 18-byte header at the start of `bytes`.
///
/// TGA has no signature, so a few values are validated here to recognise the format.
pub fn read_tga_header(bytes: &[u8]) -> (res: Result<TgaHeader, TgaDecodeError>)
    ensures
        res == spec_tga_header(bytes@),
{
    if bytes.len() < 3 {
        return Err(TgaDecodeError::Io);
    }
    let id_len = bytes[0];
    let palette_type = bytes[1];
    let data_type = match DataType::try_from(bytes[2]) {
        Ok(t) => t,
        Err(_) => return Err(TgaDecodeError::InvalidHeader),
    };
    if bytes.len() < 18 {
        return Err(TgaDecodeError::Io);
    }
    let palette_beg = read_le_u16_at(bytes, 3);
    let palette_len = read_le_u16_at(bytes, 5);
    let palette_bits = bytes[7];
    // bytes 8..12 hold the origin (x, y), which is not used
    let width = read_le_u16_at(bytes, 12);
    let height = read_le_u16_at(bytes, 14);
    let bits_pp = bytes[16];
    let flags = bytes[17];

    if width < 1 || height < 1 || palette_type > 1 || (palette_type == 0 && (palette_beg > 0
        || palette_len > 0 || palette_bits > 0)) {
        return Err(TgaDecodeError::InvalidHeader);
    }
    Ok(TgaHeader { id_len, palette_type, data_type, width, height, bits_pp, flags })
}

/// Number of colour channels per pixel in the stored image data.
#[derive(Clone, Copy, Debug, PartialEq, Eq, Structural)]
pub enum TgaChannels {
    Y,
    Ya,
    Bgr,
    Bgra,
}

/// A channel count that no `TgaChannels` stands for.
#[derive(Debug)]
pub struct InvalidTgaChannelCount(pub u8);

#[derive(Clone, Copy, Debug, PartialEq, Eq, Structural)]
pub enum BitsPerChannel {
    B8,
    B16,
}

/// How many bytes one stored pixel takes.
pub open spec fn channel_count(c: TgaChannels) -> nat {
    match c {
        TgaChannels::Y => 1,
        TgaChannels::Ya => 2,
        TgaChannels::Bgr => 3,
        TgaChannels::Bgra => 4,
    }
}

pub open spec fn spec_tga_channels(value: u8) -> Option<TgaChannels> {
    if value == 1 {
        Some(TgaChannels::Y)
    } else if value == 2 {
        Some(TgaChannels::Ya)
    } else if value == 3 {
        Some(TgaChannels::Bgr)
    } else if value == 4 {
        Some(TgaChannels::Bgra)
    } else {
        None
    }
}

impl TryFrom<u8> for TgaChannels {
    type Error = InvalidTgaChannelCount;

    fn try_from(value: u8) -> (res: Result<Self, Self::Error>) {
        match value {
            1 => Ok(TgaChannels::Y),
            2 => Ok(TgaChannels::Ya),
            3 => Ok(TgaChannels::Bgr),
            4 => Ok(TgaChannels::Bgra),
            n => Err(InvalidTgaChannelCount(n)),
        }
    }
}

impl vstd::std_specs::convert::TryFromSpecImpl<u8> for TgaChannels {
    open spec fn obeys_try_from_spec() -> bool {
        true
    }

    open spec fn try_from_spec(value: u8) -> Result<Self, Self::Error> {
        match spec_tga_channels(value) {
            Some(c) => Ok(c),
            None => Err(InvalidTgaChannelCount(value)),
        }
    }
}

fn channels_len(c: TgaChannels) -> (r: usize)
    ensures
        r == channel_count(c),
{
    match c {
        TgaChannels::Y => 1,
        TgaChannels::Ya => 2,
        TgaChannels::Bgr => 3,
        TgaChannels::Bgra => 4,
    }
}

/// Byte `c` (0 = red, 1 = green, 2 = blue, 3 = alpha) of RGBA pixel `i` converted from `src`.
pub open spec fn rgba_byte(ch: TgaChannels, src: Seq<u8>, i: int, c: int) -> u8 {
    match ch {
        TgaChannels::Y => if c < 3 {
            src[i]
        } else {
            255
        },
        TgaChannels::Ya => if c < 3 {
            src[2 * i]
        } else {
            src[2 * i + 1]
        },
        TgaChannels::Bgr => if c == 0 {
            src[3 * i + 2]
        } else if c == 1 {
            src[3 * i + 1]
        } else if c == 2 {
            src[3 * i]
        } else {
            255
        },
        TgaChannels::Bgra => if c == 0 {
            src[4 * i + 2]
        } else if c == 1 {
            src[4 * i + 1]
        } else if c == 2 {
            src[4 * i]
        } else {
            src[4 * i + 3]
        },
    }
}

/// The RGBA bytes of the whole pixels stored in `src`; a trailing partial pixel is ignored.
pub open spec fn spec_to_rgba(ch: TgaChannels, src: Seq<u8>) -> Seq<u8> {
    let n = src.len() / channel_count(ch);
    Seq::new(n * 4, |k: int| rgba_byte(ch, src, k / 4, k % 4))
}

/// What converting `src` leaves in a target that held `tgt`.
pub open spec fn converted_into(ch: TgaChannels, src: Seq<u8>, tgt: Seq<u8>) -> Seq<u8> {
    spec_to_rgba(ch, src) + tgt.skip(spec_to_rgba(ch, src).len() as int)
}

/// Expands 8-bit gray pixels to RGBA with opaque alpha.
pub fn y_to_rgba(src: &[u8], tgt: &mut [u8])
    requires
        old(tgt)@.len() >= src@.len() * 4,
    ensures
        final(tgt)@ == converted_into(TgaChannels::Y, src@, old(tgt)@),
{
    let n = src.len();
    let tl = tgt.len();
    let mut i: usize = 0;
    while i < n
        invariant
            n == src@.len(),
            tl == tgt@.len(),
            i <= n,
            tgt@.len() == old(tgt)@.len(),
            tgt@.len() >= n * 4,
            forall|k: int| 0 <= k < i * 4 ==> tgt@[k] == rgba_byte(TgaChannels::Y, src@, k / 4, k % 4),
            forall|k: int| i * 4 <= k < tgt@.len() ==> tgt@[k] == old(tgt)@[k],
        decreases n - i,
    {
        let t = i * 4;
        tgt[t] = src[i];
        tgt[t + 1] = src[i];
        tgt[t + 2] = src[i];
        tgt[t + 3] = 255;
        i = i + 1;
    }
    assert(final(tgt)@ =~= converted_into(TgaChannels::Y, src@, old(tgt)@));
}

/// Expands 8-bit gray pixels with alpha to RGBA.
pub fn ya_to_rgba(src: &[u8], tgt: &mut [u8])
    requires
        old(tgt)@.len() >= src@.len() / 2 * 4,
    ensures
        final(tgt)@ == converted_into(TgaChannels::Ya, src@, old(tgt)@),
{
    let n = src.len() / 2;
    let tl = tgt.len();
    let mut i: usize = 0;
    while i < n
        invariant
            n == src@.len() / 2,
            tl == tgt@.len(),
            i <= n,
            tgt@.len() == old(tgt)@.len(),
            tgt@.len() >= n * 4,
            forall|k: int| 0 <= k < i * 4 ==> tgt@[k] == rgba_byte(TgaChannels::Ya, src@, k / 4, k % 4),
            forall|k: int| i * 4 <= k < tgt@.len() ==> tgt@[k] == old(tgt)@[k],
        decreases n - i,
    {
        let k = i * 2;
        let t = i * 4;
        tgt[t] = src[k];
        tgt[t + 1] = src[k];
        tgt[t + 2] = src[k];
        tgt[t + 3] = src[k + 1];
        i = i + 1;
    }
    assert(final(tgt)@ =~= converted_into(TgaChannels::Ya, src@, old(tgt)@));
}

/// Reorders BGR pixels to RGBA with opaque alpha.
pub fn bgr_to_rgba(src: &[u8], tgt: &mut [u8])
    requires
        old(tgt)@.len() >= src@.len() / 3 * 4,
    ensures
        final(tgt)@ == converted_into(TgaChannels::Bgr, src@, old(tgt)@),
{
    let n = src.len() / 3;
    let tl = tgt.len();
    let mut i: usize = 0;
    while i < n
        invariant
            n == src@.len() / 3,
            tl == tgt@.len(),
            i <= n,
            tgt@.len() == old(tgt)@.len(),
            tgt@.len() >= n * 4,
            forall|k: int| 0 <= k < i * 4 ==> tgt@[k] == rgba_byte(TgaChannels::Bgr, src@, k / 4, k % 4),
            forall|k: int| i * 4 <= k < tgt@.len() ==> tgt@[k] == old(tgt)@[k],
        decreases n - i,
    {
        let k = i * 3;
        let t = i * 4;
        tgt[t] = src[k + 2];
        tgt[t + 1] = src[k + 1];
        tgt[t + 2] = src[k];
        tgt[t + 3] = 255;
        i = i + 1;
    }
    assert(final(tgt)@ =~= converted_into(TgaChannels::Bgr, src@, old(tgt)@));
}

/// Reorders BGRA pixels to RGBA.
pub fn bgra_to_rgba(src: &[u8], tgt: &mut [u8])
    requires
        old(tgt)@.len() >= src@.len() / 4 * 4,
    ensures
        final(tgt)@ == converted_into(TgaChannels::Bgra, src@, old(tgt)@),
{
    let n = src.len() / 4;
    let tl = tgt.len();
    let mut i: usize = 0;
    while i < n
        invariant
            n == src@.len() / 4,
            tl == tgt@.len(),
            i <= n,
            tgt@.len() == old(tgt)@.len(),
            tgt@.len() >= n * 4,
            forall|k: int| 0 <= k < i * 4 ==> tgt@[k] == rgba_byte(TgaChannels::Bgra, src@, k / 4, k % 4),
            forall|k: int| i * 4 <= k < tgt@.len() ==> tgt@[k] == old(tgt)@[k],
        decreases n - i,
    {
        let k = i * 4;
        let t = i * 4;
        tgt[t] = src[k + 2];
        tgt[t + 1] = src[k + 1];
        tgt[t + 2] = src[k];
        tgt[t + 3] = src[k + 3];
        i = i + 1;
    }
    assert(final(tgt)@ =~= converted_into(TgaChannels::Bgra, src@, old(tgt)@));
}

/// Converts the pixels of `src`, stored with `channels`, to RGBA at the start of `tgt`.
pub fn to_rgba(channels: TgaChannels, src: &[u8], tgt: &mut [u8])
    requires
        old(tgt)@.len() >= src@.len() / channel_count(channels) * 4,
    ensures
        final(tgt)@ == converted_into(channels, src@, old(tgt)@),
{
    match channels {
        TgaChannels::Y => y_to_rgba(src, tgt),
        TgaChannels::Ya => ya_to_rgba(src, tgt),
        TgaChannels::Bgr => bgr_to_rgba(src, tgt),
        TgaChannels::Bgra => bgra_to_rgba(src, tgt),
    }
}

pub const TGA_FLAG_INTERLACED: u8 = 0xc0;
pub const TGA_FLAG_RIGHT_TO_LEFT: u8 = 0x10;
pub const TGA_FLAG_BITSPP: u8 = 0x0f;
pub const TGA_FLAG_ORIGIN_AT_TOP: u8 = 0x20;
pub const TGA_FLAG_PACKET_IS_RLE: u8 = 0x80;
pub const TGA_FLAG_PACKET_LEN: u8 = 0x7f;
pub const TGA_MAXIMUM_IMAGE_SIZE: u64 = 0x7fff_ffff;

/// A decoded TGA image: its header, the channels it was stored with and its RGBA pixels,
/// row by row from the top.
pub struct TgaImage {
    pub header: TgaHeader,
    pub data: Vec<u8>,
    pub channels: TgaChannels,
}

/// The first reason, in the order the decoder checks them, why a header it accepted
/// describes an image that the decoder does not support.
pub open spec fn spec_tga_unsupported(h: TgaHeader) -> Option<TgaDecodeError> {
    let attr_bits_pp = h.flags & TGA_FLAG_BITSPP;
    if h.flags & TGA_FLAG_INTERLACED > 0 {
        Some(TgaDecodeError::Unsupported("interlaced"))
    } else if h.flags & TGA_FLAG_RIGHT_TO_LEFT > 0 {
        Some(TgaDecodeError::Unsupported("right-to-left"))
    } else if attr_bits_pp != 0 && attr_bits_pp != 8 {
        Some(TgaDecodeError::Unsupported("bits per pixel != 8"))
    } else if h.palette_type > 0 {
        Some(TgaDecodeError::Unsupported("palette type != 0"))
    } else {
        match h.data_type {
            DataType::TrueColor | DataType::TruecolorRle => {
                if h.bits_pp != 24 && h.bits_pp != 32 {
                    Some(TgaDecodeError::Unsupported("bits per pixel != 24 or 32"))
                } else {
                    None
                }
            },
            DataType::Gray | DataType::GrayRle => {
                if h.bits_pp != 8 && !(h.bits_pp == 16 && attr_bits_pp == 8) {
                    Some(TgaDecodeError::Unsupported("unsupported bits per pixel"))
                } else {
                    None
                }
            },
            DataType::NoData => Some(TgaDecodeError::Unsupported("no data type")),
            DataType::Idx => Some(TgaDecodeError::Unsupported("idx data type")),
            DataType::IdxRle => Some(TgaDecodeError::Unsupported("idx rle data type")),
        }
    }
}

pub open spec fn spec_is_rle(t: DataType) -> bool {
    t == DataType::IdxRle || t == DataType::GrayRle || t == DataType::TruecolorRle
}

/// `n` copies of `px`, one after the other.
pub open spec fn repeat_pixel(px: Seq<u8>, n: nat) -> Seq<u8>
    decreases n,
{
    if n == 0 {
        Seq::empty()
    } else {
        repeat_pixel(px, (n - 1) as nat) + px
    }
}

/// The `n` uncompressed lines of `line_len` bytes each that start at `start`,
/// or `None` if the data ends before the last of them.
pub open spec fn raw_lines(b: Seq<u8>, start: int, line_len: int, n: int) -> Option<Seq<Seq<u8>>> {
    if start + n * line_len <= b.len() {
        Some(Seq::new(n as nat, |r: int| b.subrange(start + r * line_len, start + r * line_len + line_len)))
    } else {
        None
    }
}

/// Decodes run-length packets from `b` until `wanted` more pixels of `ch` bytes each follow
/// `acc`. The decoder state is the read position `pos`, the pixels `pkt` left in the current
/// packet and whether that packet is a run. An exhausted packet makes the next byte a packet
/// head; a run packet reads its pixel value anew for each line it covers.
/// Gives the line and the state after it, or `None` if the data ends first.
pub open spec fn rle_line(
    b: Seq<u8>,
    ch: int,
    pos: int,
    pkt: int,
    is_rle: bool,
    wanted: int,
    acc: Seq<u8>,
) -> Option<(Seq<u8>, int, int, bool)>
    decreases wanted,
{
    if wanted <= 0 {
        Some((acc, pos, pkt, is_rle))
    } else if pkt <= 0 && !(0 <= pos < b.len()) {
        None
    } else {
        let pos1 = if pkt <= 0 {
            pos + 1
        } else {
            pos
        };
        let pkt1 = if pkt <= 0 {
            (b[pos] & TGA_FLAG_PACKET_LEN) as int + 1
        } else {
            pkt
        };
        let rle1 = if pkt <= 0 {
            b[pos] & TGA_FLAG_PACKET_IS_RLE > 0
        } else {
            is_rle
        };
        let copy = if wanted < pkt1 {
            wanted
        } else {
            pkt1
        };
        if rle1 {
            if pos1 + ch > b.len() {
                None
            } else {
                rle_line(
                    b,
                    ch,
                    pos1 + ch,
                    pkt1 - copy,
                    rle1,
                    wanted - copy,
                    acc + repeat_pixel(b.subrange(pos1, pos1 + ch), copy as nat),
                )
            }
        } else {
            if pos1 + copy * ch > b.len() {
                None
            } else {
                rle_line(
                    b,
                    ch,
                    pos1 + copy * ch,
                    pkt1 - copy,
                    rle1,
                    wanted - copy,
                    acc + b.subrange(pos1, pos1 + copy * ch),
                )
            }
        }
    }
}

/// `n` run-length encoded lines of `width` pixels, decoded from the state `(pos, pkt, is_rle)`.
pub open spec fn rle_lines(
    b: Seq<u8>,
    ch: int,
    width: int,
    n: nat,
    pos: int,
    pkt: int,
    is_rle: bool,
) -> Option<Seq<Seq<u8>>>
    decreases n,
{
    if n == 0 {
        Some(Seq::empty())
    } else {
        match rle_line(b, ch, pos, pkt, is_rle, width, Seq::empty()) {
            None => None,
            Some((line, p, k, r)) => match rle_lines(b, ch, width, (n - 1) as nat, p, k, r) {
                None => None,
                Some(rest) => Some(seq![line] + rest),
            },
        }
    }
}

/// The rows one after the other.
pub open spec fn concat_rows(rows: Seq<Seq<u8>>) -> Seq<u8>
    decreases rows.len(),
{
    if rows.len() == 0 {
        Seq::empty()
    } else {
        concat_rows(rows.drop_last()) + rows.last()
    }
}

/// The RGBA image of the stored lines: stored lines run bottom to top unless the origin
/// flag puts the first one at the top.
pub open spec fn tga_pixels(ch: TgaChannels, lines: Seq<Seq<u8>>, origin_at_top: bool) -> Seq<u8> {
    let rows = lines.map_values(|l: Seq<u8>| spec_to_rgba(ch, l));
    if origin_at_top {
        concat_rows(rows)
    } else {
        concat_rows(rows.reverse())
    }
}

/// The channels of a supported header: one per byte of a pixel.
pub open spec fn spec_header_channels(h: TgaHeader) -> TgaChannels {
    spec_tga_channels(h.bits_pp / 8).unwrap()
}

/// What decoding `b` gives: the header, the stored channels and the RGBA pixels, or the error.
pub open spec fn spec_read_tga(b: Seq<u8>) -> Result<(TgaHeader, TgaChannels, Seq<u8>), TgaDecodeError> {
    match spec_tga_header(b) {
        Err(e) => Err(e),
        Ok(h) => match spec_tga_unsupported(h) {
            Some(e) => Err(e),
            None => {
                let ch = spec_header_channels(h);
                let n = channel_count(ch) as int;
                if (h.width as int) * (h.height as int) * 4 > TGA_MAXIMUM_IMAGE_SIZE {
                    Err(TgaDecodeError::TooBig)
                } else {
                    let start = 18 + h.id_len;
                    let lines = if spec_is_rle(h.data_type) {
                        rle_lines(b, n, h.width as int, h.height as nat, start, 0, false)
                    } else {
                        raw_lines(b, start, h.width * n, h.height as int)
                    };
                    match lines {
                        None => Err(TgaDecodeError::Io),
                        Some(ls) => Ok(
                            (h, ch, tga_pixels(ch, ls, h.flags & TGA_FLAG_ORIGIN_AT_TOP > 0)),
                        ),
                    }
                }
            },
        },
    }
}

fn copy_range(bytes: &[u8], start: usize, end: usize) -> (r: Vec<u8>)
    requires
        start <= end <= bytes@.len(),
    ensures
        r@ == bytes@.subrange(start as int, end as int),
{
    vstd::slice::slice_to_vec(vstd::slice::slice_subrange(bytes, start, end))
}

fn append_bytes(dst: &mut Vec<u8>, src: &[u8])
    ensures
        final(dst)@ == old(dst)@ + src@,
{
    let n = src.len();
    let mut i: usize = 0;
    while i < n
        invariant
            n == src@.len(),
            i <= n,
            dst@ == old(dst)@ + src@.take(i as int),
        decreases n - i,
    {
        dst.push(src[i]);
        i = i + 1;
        assert(dst@ =~= old(dst)@ + src@.take(i as int));
    }
    assert(src@.take(n as int) =~= src@);
}

/// The views of the vectors in `v`.
pub open spec fn lines_view(v: Seq<Vec<u8>>) -> Seq<Seq<u8>> {
    Seq::new(v.len(), |i: int| v[i]@)
}

fn read_raw_lines(bytes: &[u8], start: usize, line_len: usize, n: usize) -> (res: Option<Vec<Vec<u8>>>)
    requires
        n >= 1,
    ensures
        match raw_lines(bytes@, start as int, line_len as int, n as int) {
            None => res is None,
            Some(ls) => res is Some && lines_view(res.unwrap()@) == ls,
        },
        res matches Some(v) ==> forall|i: int| 0 <= i < v@.len() ==> (#[trigger] v@[i])@.len() == line_len,
{
    let ghost expected = Seq::new(
        n as nat,
        |r: int| bytes@.subrange(start + r * line_len, start + r * line_len + line_len),
    );
    let mut lines: Vec<Vec<u8>> = Vec::new();
    let mut pos = start;
    let mut r: usize = 0;
    while r < n
        invariant
            r <= n,
            pos == start + r * line_len,
            pos <= bytes@.len() || r == 0,
            lines_view(lines@) == expected.take(r as int),
            forall|i: int| 0 <= i < lines@.len() ==> (#[trigger] lines@[i])@.len() == line_len,
            expected == Seq::new(
                n as nat,
                |r: int| bytes@.subrange(start + r * line_len, start + r * line_len + line_len),
            ),
        decreases n - r,
    {
        proof {
            lemma_mul_inequality(r as int + 1, n as int, line_len as int);
            lemma_mul_is_distributive_add_other_way(line_len as int, r as int, 1);
        }
        if pos > bytes.len() || line_len > bytes.len() - pos {
            return None;
        }
        let line = copy_range(bytes, pos, pos + line_len);
        assert(line@ == expected[r as int]);
        let ghost prev = lines@;
        assert(expected.len() == n);
        assert(expected.take(r as int).len() == r);
        assert(lines_view(prev).len() == prev.len());
        assert(prev.len() == r);
        lines.push(line);
        assert(lines@ == prev.push(line));
        pos = pos + line_len;
        r = r + 1;
        assert forall|i: int| 0 <= i < r implies #[trigger] lines_view(lines@)[i] == expected.take(
            r as int,
        )[i] by {
            assert(lines@.len() == r);
            assert(lines_view(lines@)[i] == lines@[i]@);
            if i < r - 1 {
                assert(lines@[i] == prev[i]);
                assert(lines_view(prev)[i] == prev[i]@);
                assert(lines_view(prev)[i] == expected.take(r - 1)[i]);
            } else {
                assert(lines@[i] == line);
            }
        }
        assert(lines_view(lines@) =~= expected.take(r as int));
    }
    assert(expected.take(n as int) =~= expected);
    Some(lines)
}

fn push_repeated(line: &mut Vec<u8>, bytes: &[u8], start: usize, ch: usize, count: usize)
    requires
        start + ch <= bytes@.len(),
    ensures
        final(line)@ == old(line)@ + repeat_pixel(bytes@.subrange(start as int, start + ch), count as nat),
{
    let ghost px = bytes@.subrange(start as int, start + ch);
    let blen = bytes.len();
    let mut i: usize = 0;
    while i < count
        invariant
            i <= count,
            blen == bytes@.len(),
            start + ch <= bytes@.len(),
            px == bytes@.subrange(start as int, start + ch),
            line@ == old(line)@ + repeat_pixel(px, i as nat),
        decreases count - i,
    {
        let ghost before = line@;
        let mut j: usize = 0;
        while j < ch
            invariant
                j <= ch,
                blen == bytes@.len(),
                start + ch <= bytes@.len(),
                px == bytes@.subrange(start as int, start + ch),
                line@ == before + px.take(j as int),
            decreases ch - j,
        {
            line.push(bytes[start + j]);
            j = j + 1;
            assert(line@ =~= before + px.take(j as int));
        }
        assert(px.take(ch as int) =~= px);
        i = i + 1;
        assert(line@ =~= old(line)@ + repeat_pixel(px, i as nat));
    }
}

/// Decodes one run-length encoded line of `width` pixels, advancing the decoder state.
fn read_rle_line(
    bytes: &[u8],
    ch: usize,
    width: usize,
    pos: &mut usize,
    packet: &mut usize,
    is_rle: &mut bool,
) -> (res: Option<Vec<u8>>)
    requires
        1 <= ch <= 4,
        *old(packet) <= 128,
        *old(packet) > 0 ==> *old(pos) <= bytes@.len(),
    ensures
        match rle_line(
            bytes@,
            ch as int,
            *old(pos) as int,
            *old(packet) as int,
            *old(is_rle),
            width as int,
            Seq::empty(),
        ) {
            None => res is None,
            Some((l, p, k, r)) => res is Some && res.unwrap()@ == l && *final(pos) == p
                && *final(packet) == k && *final(is_rle) == r,
        },
        *final(packet) <= 128,
        *final(packet) > 0 ==> *final(pos) <= bytes@.len(),
{
    let mut line: Vec<u8> = Vec::new();
    let mut wanted = width;
    while wanted > 0
        invariant
            1 <= ch <= 4,
            *packet <= 128,
            *packet > 0 ==> *pos <= bytes@.len(),
            wanted <= width,
            rle_line(
                bytes@,
                ch as int,
                *old(pos) as int,
                *old(packet) as int,
                *old(is_rle),
                width as int,
                Seq::empty(),
            ) == rle_line(bytes@, ch as int, *pos as int, *packet as int, *is_rle, wanted as int, line@),
        decreases wanted,
    {
        if *packet == 0 {
            if *pos >= bytes.len() {
                return None;
            }
            let head = bytes[*pos];
            *pos = *pos + 1;
            *is_rle = head & TGA_FLAG_PACKET_IS_RLE > 0;
            assert(head & TGA_FLAG_PACKET_LEN <= 127) by (bit_vector);
            *packet = (head & TGA_FLAG_PACKET_LEN) as usize + 1;
        }
        let copy = if wanted < *packet {
            wanted
        } else {
            *packet
        };
        if *is_rle {
            if ch > bytes.len() - *pos {
                return None;
            }
            let px_start = *pos;
            *pos = *pos + ch;
            push_repeated(&mut line, bytes, px_start, ch, copy);
        } else {
            assert(copy * ch <= 512) by (nonlinear_arith)
                requires
                    copy <= 128,
                    ch <= 4,
            ;
            let n = copy * ch;
            if n > bytes.len() - *pos {
                return None;
            }
            let chunk = copy_range(bytes, *pos, *pos + n);
            append_bytes(&mut line, chunk.as_slice());
            *pos = *pos + n;
        }
        wanted = wanted - copy;
        *packet = *packet - copy;
    }
    Some(line)
}

proof fn lemma_repeat_pixel_len(px: Seq<u8>, n: nat)
    ensures
        repeat_pixel(px, n).len() == n * px.len(),
    decreases n,
{
    if n > 0 {
        let m = (n - 1) as nat;
        lemma_repeat_pixel_len(px, m);
        assert(m * px.len() + px.len() == n * px.len()) by (nonlinear_arith)
            requires
                m + 1 == n,
        ;
    } else {
        assert(n * px.len() == 0) by (nonlinear_arith)
            requires
                n == 0,
        ;
    }
}

proof fn lemma_rle_line_len(
    b: Seq<u8>,
    ch: int,
    pos: int,
    pkt: int,
    is_rle: bool,
    wanted: int,
    acc: Seq<u8>,
)
    requires
        ch >= 0,
        wanted >= 0,
        pos >= 0,
    ensures
        rle_line(b, ch, pos, pkt, is_rle, wanted, acc) matches Some((l, _, _, _)) ==> l.len()
            == acc.len() + wanted * ch,
    decreases wanted,
{
    if wanted == 0 {
        assert(wanted * ch == 0) by (nonlinear_arith)
            requires
                wanted == 0,
        ;
    }
    if wanted > 0 && !(pkt <= 0 && !(0 <= pos < b.len())) {
        let pos1 = if pkt <= 0 {
            pos + 1
        } else {
            pos
        };
        let pkt1 = if pkt <= 0 {
            (b[pos] & TGA_FLAG_PACKET_LEN) as int + 1
        } else {
            pkt
        };
        let rle1 = if pkt <= 0 {
            b[pos] & TGA_FLAG_PACKET_IS_RLE > 0
        } else {
            is_rle
        };
        let copy = if wanted < pkt1 {
            wanted
        } else {
            pkt1
        };
        assert(copy * ch + (wanted - copy) * ch == wanted * ch) by (nonlinear_arith);
        if rle1 {
            if pos1 + ch <= b.len() {
                let px = b.subrange(pos1, pos1 + ch);
                lemma_repeat_pixel_len(px, copy as nat);
                lemma_rle_line_len(
                    b,
                    ch,
                    pos1 + ch,
                    pkt1 - copy,
                    rle1,
                    wanted - copy,
                    acc + repeat_pixel(px, copy as nat),
                );
            }
        } else {
            if pos1 + copy * ch <= b.len() {
                assert(copy * ch >= 0) by (nonlinear_arith)
                    requires
                        copy >= 0,
                        ch >= 0,
                ;
                lemma_rle_line_len(
                    b,
                    ch,
                    pos1 + copy * ch,
                    pkt1 - copy,
                    rle1,
                    wanted - copy,
                    acc + b.subrange(pos1, pos1 + copy * ch),
                );
            }
        }
    }
}

/// `done` followed by the rest of the lines, if they could be decoded.
pub open spec fn after_lines(done: Seq<Seq<u8>>, rest: Option<Seq<Seq<u8>>>) -> Option<Seq<Seq<u8>>> {
    match rest {
        None => None,
        Some(r) => Some(done + r),
    }
}

fn read_rle_lines(bytes: &[u8], ch: usize, width: usize, n: usize, start: usize) -> (res: Option<
    Vec<Vec<u8>>,
>)
    requires
        1 <= ch <= 4,
    ensures
        match rle_lines(bytes@, ch as int, width as int, n as nat, start as int, 0, false) {
            None => res is None,
            Some(ls) => res is Some && lines_view(res.unwrap()@) == ls,
        },
        res matches Some(v) ==> forall|i: int| 0 <= i < v@.len() ==> (#[trigger] v@[i])@.len() == width * ch,
{
    let mut lines: Vec<Vec<u8>> = Vec::new();
    let mut pos = start;
    let mut packet: usize = 0;
    let mut is_rle = false;
    let mut r: usize = 0;
    while r < n
        invariant
            1 <= ch <= 4,
            r <= n,
            packet <= 128,
            packet > 0 ==> pos <= bytes@.len(),
            rle_lines(bytes@, ch as int, width as int, n as nat, start as int, 0, false)
                == after_lines(
                lines_view(lines@),
                rle_lines(bytes@, ch as int, width as int, (n - r) as nat, pos as int, packet as int, is_rle),
            ),
            forall|i: int| 0 <= i < lines@.len() ==> (#[trigger] lines@[i])@.len() == width * ch,
        decreases n - r,
    {
        let ghost st = (pos as int, packet as int, is_rle);
        let ghost done = lines_view(lines@);
        proof {
            lemma_rle_line_len(bytes@, ch as int, pos as int, packet as int, is_rle, width as int, Seq::empty());
        }
        let line = match read_rle_line(bytes, ch, width, &mut pos, &mut packet, &mut is_rle) {
            Some(l) => l,
            None => return None,
        };
        let ghost prev = lines@;
        lines.push(line);
        assert(lines_view(lines@) =~= done.push(line@)) by {
            assert(lines@ == prev.push(line));
        }
        proof {
            let rest = rle_lines(bytes@, ch as int, width as int, (n - r - 1) as nat, pos as int, packet as int, is_rle);
            if let Some(rr) = rest {
                assert(done + (seq![line@] + rr) =~= done.push(line@) + rr);
            }
        }
        r = r + 1;
    }
    assert(lines_view(lines@) + Seq::<Seq<u8>>::empty() =~= lines_view(lines@));
    Some(lines)
}

/// Converts each stored line to RGBA.
fn rgba_rows(channels: TgaChannels, lines: &Vec<Vec<u8>>, width: usize) -> (rows: Vec<Vec<u8>>)
    requires
        width * 4 <= usize::MAX,
        forall|i: int|
            0 <= i < lines@.len() ==> (#[trigger] lines@[i])@.len() == width * channel_count(channels),
    ensures
        lines_view(rows@) == lines_view(lines@).map_values(|l: Seq<u8>| spec_to_rgba(channels, l)),
{
    let ghost target = lines_view(lines@).map_values(|l: Seq<u8>| spec_to_rgba(channels, l));
    let ch = channels_len(channels);
    let mut rows: Vec<Vec<u8>> = Vec::new();
    let mut r: usize = 0;
    while r < lines.len()
        invariant
            width * 4 <= usize::MAX,
            ch == channel_count(channels),
            r <= lines@.len(),
            forall|i: int|
                0 <= i < lines@.len() ==> (#[trigger] lines@[i])@.len() == width * channel_count(channels),
            target == lines_view(lines@).map_values(|l: Seq<u8>| spec_to_rgba(channels, l)),
            lines_view(rows@) == target.take(r as int),
        decreases lines@.len() - r,
    {
        let line = &lines[r];
        proof {
            lemma_div_by_multiple(width as int, ch as int);
        }
        let mut tgt: Vec<u8> = vec![0u8; width * 4];
        to_rgba(channels, line.as_slice(), tgt.as_mut_slice());
        assert(tgt@ =~= spec_to_rgba(channels, line@));
        let ghost prev = rows@;
        assert(target.len() == lines@.len());
        assert(target.take(r as int).len() == r);
        assert(lines_view(prev).len() == prev.len());
        assert(prev.len() == r);
        rows.push(tgt);
        r = r + 1;
        assert forall|i: int| 0 <= i < r implies #[trigger] lines_view(rows@)[i] == target.take(
            r as int,
        )[i] by {
            if i < r - 1 {
                assert(rows@[i] == prev[i]);
                assert(lines_view(prev)[i] == target.take(r - 1)[i]);
            }
        }
        assert(lines_view(rows@) =~= target.take(r as int));
    }
    assert(target.take(r as int) =~= target);
    rows
}

/// Joins `rows` into one buffer, in stored order or, when `flip`, in reverse order.
fn join_rows(rows: &Vec<Vec<u8>>, flip: bool) -> (data: Vec<u8>)
    ensures
        data@ == concat_rows(
            if flip {
                lines_view(rows@).reverse()
            } else {
                lines_view(rows@)
            },
        ),
{
    let ghost ordered = if flip {
        lines_view(rows@).reverse()
    } else {
        lines_view(rows@)
    };
    let n = rows.len();
    let mut data: Vec<u8> = Vec::new();
    let mut j: usize = 0;
    while j < n
        invariant
            n == rows@.len(),
            j <= n,
            ordered == if flip {
                lines_view(rows@).reverse()
            } else {
                lines_view(rows@)
            },
            data@ == concat_rows(ordered.take(j as int)),
        decreases n - j,
    {
        let idx = if flip {
            n - 1 - j
        } else {
            j
        };
        assert(rows@[idx as int]@ == ordered[j as int]);
        append_bytes(&mut data, rows[idx].as_slice());
        j = j + 1;
        assert(ordered.take(j as int).drop_last() =~= ordered.take(j - 1));
    }
    assert(ordered.take(n as int) =~= ordered);
    data
}

/// Reads a TGA image into RGBA.
pub fn read_tga(bytes: &[u8]) -> (res: Result<TgaImage, TgaDecodeError>)
    ensures
        match spec_read_tga(bytes@) {
            Ok((h, c, d)) => res is Ok && res.unwrap().header == h && res.unwrap().channels == c
                && res.unwrap().data@ == d,
            Err(e) => res == Err::<TgaImage, TgaDecodeError>(e),
        },
{
    let header = match read_tga_header(bytes) {
        Ok(h) => h,
        Err(e) => return Err(e),
    };

    if header.flags & TGA_FLAG_INTERLACED > 0 {
        return Err(TgaDecodeError::Unsupported("interlaced"));
    }
    if header.flags & TGA_FLAG_RIGHT_TO_LEFT > 0 {
        return Err(TgaDecodeError::Unsupported("right-to-left"));
    }
    let attr_bits_pp = header.flags & TGA_FLAG_BITSPP;
    if attr_bits_pp != 0 && attr_bits_pp != 8 {
        // some set to 0 even if data has 8
        return Err(TgaDecodeError::Unsupported("bits per pixel != 8"));
    }
    if header.palette_type > 0 {
        return Err(TgaDecodeError::Unsupported("palette type != 0"));
    }
    match header.data_type {
        DataType::TrueColor | DataType::TruecolorRle => {
            if header.bits_pp != 24 && header.bits_pp != 32 {
                return Err(TgaDecodeError::Unsupported("bits per pixel != 24 or 32"));
            }
        },
        DataType::Gray | DataType::GrayRle => {
            if header.bits_pp != 8 && !(header.bits_pp == 16 && attr_bits_pp == 8) {
                return Err(TgaDecodeError::Unsupported("unsupported bits per pixel"));
            }
        },
        DataType::NoData => {
            return Err(TgaDecodeError::Unsupported("no data type"));
        },
        DataType::Idx => {
            return Err(TgaDecodeError::Unsupported("idx data type"));
        },
        DataType::IdxRle => {
            return Err(TgaDecodeError::Unsupported("idx rle data type"));
        },
    }

    let is_origin_at_top = header.flags & TGA_FLAG_ORIGIN_AT_TOP > 0;
    let is_rle = matches!(
        header.data_type,
        DataType::IdxRle | DataType::GrayRle | DataType::TruecolorRle
    );

    // bytes per pixel
    let channels = match TgaChannels::try_from(header.bits_pp / 8) {
        Ok(c) => c,
        Err(_) => {
            assert(false);
            return Err(TgaDecodeError::InvalidHeader);
        },
    };
    let ch = channels_len(channels);

    assert(header.width as u64 * header.height as u64 * 4 <= 0xffff * 0xffff * 4) by (nonlinear_arith)
        requires
            header.width <= 0xffff,
            header.height <= 0xffff,
    ;
    if header.width as u64 * header.height as u64 * 4 > TGA_MAXIMUM_IMAGE_SIZE {
        return Err(TgaDecodeError::TooBig);
    }
    let width = header.width as usize;
    let height = header.height as usize;
    let start = 18 + header.id_len as usize;

    assert(width * ch <= 0xffff * 4) by (nonlinear_arith)
        requires
            width <= 0xffff,
            ch <= 4,
    ;
    let lines = if is_rle {
        read_rle_lines(bytes, ch, width, height, start)
    } else {
        read_raw_lines(bytes, start, width * ch, height)
    };
    let lines = match lines {
        Some(l) => l,
        None => return Err(TgaDecodeError::Io),
    };

    let rows = rgba_rows(channels, &lines, width);
    let data = join_rows(&rows, !is_origin_at_top);
    Ok(TgaImage { header, data, channels })
}

proof fn lemma_rle_lines_shape(b: Seq<u8>, ch: int, width: int, n: nat, pos: int, pkt: int, is_rle: bool)
    requires
        ch >= 0,
        width >= 0,
        pos >= 0,
    ensures
        rle_lines(b, ch, width, n, pos, pkt, is_rle) matches Some(ls) ==> ls.len() == n && forall|i: int|
            0 <= i < ls.len() ==> (#[trigger] ls[i]).len() == width * ch,
    decreases n,
{
    if n > 0 {
        lemma_rle_line_len(b, ch, pos, pkt, is_rle, width, Seq::empty());
        match rle_line(b, ch, pos, pkt, is_rle, width, Seq::empty()) {
            None => {},
            Some((line, p, k, r)) => {
                lemma_rle_line_pos(b, ch, pos, pkt, is_rle, width, Seq::empty());
                lemma_rle_lines_shape(b, ch, width, (n - 1) as nat, p, k, r);
                match rle_lines(b, ch, width, (n - 1) as nat, p, k, r) {
                    None => {},
                    Some(rest) => {
                        let ls = seq![line] + rest;
                        assert forall|i: int| 0 <= i < ls.len() implies (#[trigger] ls[i]).len() == width * ch by {
                            if i > 0 {
                                assert(ls[i] == rest[i - 1]);
                            }
                        }
                    },
                }
            },
        }
    }
}

proof fn lemma_rle_line_pos(b: Seq<u8>, ch: int, pos: int, pkt: int, is_rle: bool, wanted: int, acc: Seq<u8>)
    requires
        ch >= 0,
        pos >= 0,
    ensures
        rle_line(b, ch, pos, pkt, is_rle, wanted, acc) matches Some((_, p, _, _)) ==> p >= 0,
    decreases wanted,
{
    if wanted > 0 && !(pkt <= 0 && !(0 <= pos < b.len())) {
        let pos1 = if pkt <= 0 { pos + 1 } else { pos };
        let pkt1 = if pkt <= 0 { (b[pos] & TGA_FLAG_PACKET_LEN) as int + 1 } else { pkt };
        let rle1 = if pkt <= 0 { b[pos] & TGA_FLAG_PACKET_IS_RLE > 0 } else { is_rle };
        let copy = if wanted < pkt1 { wanted } else { pkt1 };
        if rle1 {
            if pos1 + ch <= b.len() {
                lemma_rle_line_pos(b, ch, pos1 + ch, pkt1 - copy, rle1, wanted - copy,
                    acc + repeat_pixel(b.subrange(pos1, pos1 + ch), copy as nat));
            }
        } else {
            if pos1 + copy * ch <= b.len() {
                assert(copy * ch >= 0) by (nonlinear_arith)
                    requires
                        copy >= 0 || pkt1 >= 1,
                        copy == (if wanted < pkt1 { wanted } else { pkt1 }),
                        wanted > 0,
                        ch >= 0,
                ;
                lemma_rle_line_pos(b, ch, pos1 + copy * ch, pkt1 - copy, rle1, wanted - copy,
                    acc + b.subrange(pos1, pos1 + copy * ch));
            }
        }
    }
}

proof fn lemma_concat_rows_len(rows: Seq<Seq<u8>>, row_len: int)
    requires
        forall|i: int| 0 <= i < rows.len() ==> (#[trigger] rows[i]).len() == row_len,
    ensures
        concat_rows(rows).len() == rows.len() * row_len,
    decreases rows.len(),
{
    if rows.len() > 0 {
        let init = rows.drop_last();
        assert forall|i: int| 0 <= i < init.len() implies (#[trigger] init[i]).len() == row_len by {
            assert(init[i] == rows[i]);
        }
        lemma_concat_rows_len(init, row_len);
        assert(rows.last() == rows[rows.len() - 1]);
        assert(init.len() * row_len + row_len == rows.len() * row_len) by (nonlinear_arith)
            requires
                init.len() + 1 == rows.len(),
        ;
    }
}

/// The stored lines that decoding `b` under header `h` reads, or `None` if the data ends first.
pub open spec fn stored_lines(b: Seq<u8>, h: TgaHeader) -> Option<Seq<Seq<u8>>> {
    let n = channel_count(spec_header_channels(h)) as int;
    let start = 18 + h.id_len;
    if spec_is_rle(h.data_type) {
        rle_lines(b, n, h.width as int, h.height as nat, start, 0, false)
    } else {
        raw_lines(b, start, h.width * n, h.height as int)
    }
}

/// What a decoded image is made of: its RGBA rows in stored order, `height` of them and
/// each four bytes for each of its `width` pixels.
proof fn lemma_decoded_rows(b: Seq<u8>) -> (rows: Seq<Seq<u8>>)
    requires
        spec_read_tga(b) is Ok,
    ensures
        spec_read_tga(b) matches Ok((h, c, d)) && {
            &&& stored_lines(b, h) is Some
            &&& c == spec_header_channels(h)
            &&& rows == stored_lines(b, h).unwrap().map_values(|l: Seq<u8>| spec_to_rgba(c, l))
            &&& d == tga_pixels(c, stored_lines(b, h).unwrap(), h.flags & TGA_FLAG_ORIGIN_AT_TOP > 0)
            &&& rows.len() == h.height
            &&& forall|i: int| 0 <= i < rows.len() ==> (#[trigger] rows[i]).len() == h.width * 4
            &&& h.width >= 1 && h.height >= 1
            &&& spec_tga_unsupported(h) is None
            &&& channel_count(c) * 8 == h.bits_pp
        },
{
    let (h, c, d) = spec_read_tga(b).unwrap();
    let ch = spec_header_channels(h);
    let n = channel_count(ch) as int;
    let start = 18 + h.id_len;
    let w = h.width as int;
    lemma_rle_lines_shape(b, n, w, h.height as nat, start, 0, false);
    let ls = stored_lines(b, h).unwrap();
    assert(ls.len() == h.height);
    if !spec_is_rle(h.data_type) {
        let len = w * n;
        let hh = h.height as int;
        assert(start + hh * len <= b.len());
        assert forall|i: int| 0 <= i < ls.len() implies (#[trigger] ls[i]).len() == w * n by {
            assert(i * len + len <= hh * len && i * len >= 0) by (nonlinear_arith)
                requires
                    0 <= i < hh,
                    len >= 0,
            ;
        }
    }
    assert(forall|i: int| 0 <= i < ls.len() ==> (#[trigger] ls[i]).len() == w * n);
    let rows = ls.map_values(|l: Seq<u8>| spec_to_rgba(ch, l));
    assert(n >= 1);
    assert((w * n) / n == w) by {
        lemma_div_by_multiple(w, n);
    }
    assert forall|i: int| 0 <= i < rows.len() implies (#[trigger] rows[i]).len() == w * 4 by {
        assert(rows[i] == spec_to_rgba(ch, ls[i]));
    }
    rows
}

/// A decoded TGA image has a supported, non-empty header, one stored channel per byte of
/// a pixel, and exactly four bytes (R, G, B, A) for each of its `width * height` pixels.
pub proof fn lemma_decoded_size(b: Seq<u8>)
    ensures
        spec_read_tga(b) matches Ok((h, c, d)) ==> {
            &&& d.len() == h.width * h.height * 4
            &&& h.width >= 1 && h.height >= 1
            &&& spec_tga_unsupported(h) is None
            &&& channel_count(c) * 8 == h.bits_pp
        },
{
    if let Ok((h, c, d)) = spec_read_tga(b) {
        let rows = lemma_decoded_rows(b);
        let w = h.width as int;
        let rev = rows.reverse();
        assert forall|i: int| 0 <= i < rev.len() implies (#[trigger] rev[i]).len() == w * 4 by {
            assert(rev[i] == rows[rows.len() - 1 - i]);
        }
        lemma_concat_rows_len(rows, w * 4);
        lemma_concat_rows_len(rev, w * 4);
        assert(h.height * (w * 4) == w * h.height * 4) by (nonlinear_arith);
    }
}

/// Row `y` of an RGBA image `width` pixels wide.
pub open spec fn rgba_row(d: Seq<u8>, width: int, y: int) -> Seq<u8> {
    d.subrange(width * 4 * y, width * 4 * y + width * 4)
}

proof fn lemma_concat_row(rows: Seq<Seq<u8>>, row_len: int, y: int)
    requires
        0 <= y < rows.len(),
        row_len >= 0,
        forall|i: int| 0 <= i < rows.len() ==> (#[trigger] rows[i]).len() == row_len,
    ensures
        concat_rows(rows).subrange(row_len * y, row_len * y + row_len) == rows[y],
    decreases rows.len(),
{
    let init = rows.drop_last();
    assert forall|i: int| 0 <= i < init.len() implies (#[trigger] init[i]).len() == row_len by {
        assert(init[i] == rows[i]);
    }
    lemma_concat_rows_len(init, row_len);
    let all = concat_rows(rows);
    assert(all == concat_rows(init) + rows.last());
    if y < rows.len() - 1 {
        lemma_concat_row(init, row_len, y);
        assert(row_len * y + row_len <= init.len() * row_len) by (nonlinear_arith)
            requires
                y + 1 <= init.len(),
                row_len >= 0,
        ;
        assert(all.subrange(row_len * y, row_len * y + row_len) =~= concat_rows(init).subrange(
            row_len * y,
            row_len * y + row_len,
        ));
    } else {
        assert(row_len * y == init.len() * row_len) by (nonlinear_arith)
            requires
                y == init.len(),
        ;
        assert(all.subrange(row_len * y, row_len * y + row_len) =~= rows.last());
    }
}

proof fn lemma_rle_line_agree(
    b0: Seq<u8>,
    b1: Seq<u8>,
    lo: int,
    ch: int,
    pos: int,
    pkt: int,
    is_rle: bool,
    wanted: int,
    acc: Seq<u8>,
)
    requires
        b0.len() == b1.len(),
        forall|i: int| lo <= i < b0.len() ==> b0[i] == b1[i],
        0 <= lo <= pos,
        ch >= 0,
    ensures
        rle_line(b0, ch, pos, pkt, is_rle, wanted, acc) == rle_line(b1, ch, pos, pkt, is_rle, wanted, acc),
        rle_line(b0, ch, pos, pkt, is_rle, wanted, acc) matches Some((_, p, _, _)) ==> lo <= p,
    decreases wanted,
{
    if wanted > 0 && !(pkt <= 0 && !(0 <= pos < b0.len())) {
        let pos1 = if pkt <= 0 {
            pos + 1
        } else {
            pos
        };
        if pkt <= 0 {
            assert(b0[pos] == b1[pos]);
        }
        let pkt1 = if pkt <= 0 {
            (b0[pos] & TGA_FLAG_PACKET_LEN) as int + 1
        } else {
            pkt
        };
        let rle1 = if pkt <= 0 {
            b0[pos] & TGA_FLAG_PACKET_IS_RLE > 0
        } else {
            is_rle
        };
        let copy = if wanted < pkt1 {
            wanted
        } else {
            pkt1
        };
        if rle1 {
            if pos1 + ch <= b0.len() {
                assert(b0.subrange(pos1, pos1 + ch) =~= b1.subrange(pos1, pos1 + ch));
                lemma_rle_line_agree(
                    b0,
                    b1,
                    lo,
                    ch,
                    pos1 + ch,
                    pkt1 - copy,
                    rle1,
                    wanted - copy,
                    acc + repeat_pixel(b0.subrange(pos1, pos1 + ch), copy as nat),
                );
            }
        } else {
            assert(copy * ch >= 0) by (nonlinear_arith)
                requires
                    copy >= 1,
                    ch >= 0,
            ;
            if pos1 + copy * ch <= b0.len() {
                assert(b0.subrange(pos1, pos1 + copy * ch) =~= b1.subrange(pos1, pos1 + copy * ch));
                lemma_rle_line_agree(
                    b0,
                    b1,
                    lo,
                    ch,
                    pos1 + copy * ch,
                    pkt1 - copy,
                    rle1,
                    wanted - copy,
                    acc + b0.subrange(pos1, pos1 + copy * ch),
                );
            }
        }
    }
}

proof fn lemma_rle_lines_agree(
    b0: Seq<u8>,
    b1: Seq<u8>,
    lo: int,
    ch: int,
    width: int,
    n: nat,
    pos: int,
    pkt: int,
    is_rle: bool,
)
    requires
        b0.len() == b1.len(),
        forall|i: int| lo <= i < b0.len() ==> b0[i] == b1[i],
        0 <= lo <= pos,
        ch >= 0,
    ensures
        rle_lines(b0, ch, width, n, pos, pkt, is_rle) == rle_lines(b1, ch, width, n, pos, pkt, is_rle),
    decreases n,
{
    if n > 0 {
        lemma_rle_line_agree(b0, b1, lo, ch, pos, pkt, is_rle, width, Seq::empty());
        if let Some((line, p, k, r)) = rle_line(b0, ch, pos, pkt, is_rle, width, Seq::empty()) {
            lemma_rle_lines_agree(b0, b1, lo, ch, width, (n - 1) as nat, p, k, r);
        }
    }
}

/// Setting the origin flag of a TGA file turns its image upside down: the file decodes,
/// or fails with the same error, as before; it decodes to an image of the same size and
/// channels, whose row `y` is row `height - 1 - y` of the image without the flag.
pub proof fn lemma_origin_flag_flips_rows(b0: Seq<u8>, b1: Seq<u8>)
    requires
        b0.len() >= 18,
        b0[17] & TGA_FLAG_ORIGIN_AT_TOP == 0,
        b1 == b0.update(17, b0[17] | TGA_FLAG_ORIGIN_AT_TOP),
    ensures
        spec_read_tga(b0) matches Err(e) ==> spec_read_tga(b1) == Err::<
            (TgaHeader, TgaChannels, Seq<u8>),
            TgaDecodeError,
        >(e),
        spec_read_tga(b0) matches Ok((h0, c0, d0)) ==> spec_read_tga(b1) matches Ok((h1, c1, d1)) && h1.width
            == h0.width && h1.height == h0.height && c1 == c0 && forall|y: int|
            0 <= y < h0.height ==> rgba_row(d1, h0.width as int, y) == rgba_row(
                d0,
                h0.width as int,
                h0.height - 1 - y,
            ),
{
    let f0 = b0[17];
    let f1: u8 = f0 | 0x20;
    assert(f1 & 0xc0 == f0 & 0xc0 && f1 & 0x10 == f0 & 0x10 && f1 & 0x0f == f0 & 0x0f && f1 & 0x20 > 0)
        by (bit_vector)
        requires
            f1 == f0 | 0x20,
    ;
    assert(b1.len() == b0.len());
    assert(forall|i: int| 0 <= i < b0.len() && i != 17 ==> b1[i] == b0[i]);
    if let Ok(h0) = spec_tga_header(b0) {
        let h1 = spec_tga_header(b1).unwrap();
        assert(h1 == TgaHeader { flags: f1, ..h0 });
        assert(spec_tga_unsupported(h1) == spec_tga_unsupported(h0));
        assert(spec_header_channels(h1) == spec_header_channels(h0));
        let n = channel_count(spec_header_channels(h0)) as int;
        let start = 18 + h0.id_len;
        if spec_is_rle(h0.data_type) {
            lemma_rle_lines_agree(b0, b1, 18, n, h0.width as int, h0.height as nat, start, 0, false);
        } else {
            let len = h0.width * n;
            if start + h0.height * len <= b0.len() {
                assert forall|r: int| 0 <= r < h0.height implies #[trigger] b0.subrange(start + r * len, start + r * len + len)
                    =~= b1.subrange(start + r * len, start + r * len + len) by {
                    assert(r * len >= 0 && r * len + len <= h0.height * len) by (nonlinear_arith)
                        requires
                            0 <= r < h0.height,
                            len >= 0,
                    ;
                }
                assert(raw_lines(b0, start, len, h0.height as int) =~= raw_lines(b1, start, len, h0.height as int));
            }
        }
        assert(stored_lines(b1, h1) == stored_lines(b0, h0));
        if let Ok((h, c, d0)) = spec_read_tga(b0) {
            let rows = lemma_decoded_rows(b0);
            let rows1 = lemma_decoded_rows(b1);
            assert(rows1 == rows);
            let (_, _, d1) = spec_read_tga(b1).unwrap();
            let w = h0.width as int;
            let hh = h0.height as int;
            let rev = rows.reverse();
            assert forall|i: int| 0 <= i < rev.len() implies (#[trigger] rev[i]).len() == w * 4 by {
                assert(rev[i] == rows[rows.len() - 1 - i]);
            }
            assert forall|y: int| 0 <= y < hh implies rgba_row(d1, w, y) == rgba_row(d0, w, hh - 1 - y) by {
                lemma_concat_row(rows, w * 4, y);
                lemma_concat_row(rev, w * 4, hh - 1 - y);
                assert(rev[hh - 1 - y] == rows[y]);
            }
        }
    }
}

} // verus!
