//! The framing of INP files: magic bytes, the JSON puppet payload and the texture section.
//!
//! An INP file is `TRNSRTS\0`, a big-endian `u32` length and that many bytes of UTF-8 JSON,
//! then `TEX_SECT`, a big-endian `u32` texture count and, per texture, a big-endian `u32`
//! length, an encoding byte and that many bytes of encoded image.

use vstd::prelude::*;
use vstd::string::StringSliceAdditionalSpecFns;
use vstd::utf8::{decode_utf8, encode_utf8_decode_utf8, valid_utf8};

use crate::formats::json_data::{json_parsed, meta_matches, parse_json, JsonData};
use crate::formats::node_tree::{deserialize_puppet, puppet_complete, puppet_meta_object, puppet_nodes, NodeTree};
use crate::model::{ImageFormat, ModelTexture};
use crate::puppet::PuppetMeta;

verus! {

#[verifier::external_type_specification]
#[verifier::external_body]
pub struct ExUtf8Error(core::str::Utf8Error);

/// Why an INP file could not be read.
#[derive(Debug)]
pub enum ParseInpError {
    /// Magic bytes do not match: the file is not in the INP format.
    IncorrectMagic,
    /// There is no texture section.
    NoTexSect,
    /// BC7 texture encoding is not supported yet.
    Bc7NotSupported,
    /// Invalid texture encoding.
    InvalidTexEncoding(u8),
    /// The data ended before a field it announced.
    Io,
    /// The puppet payload is not UTF-8.
    Utf8(core::str::Utf8Error),
    /// The puppet payload is not JSON.
    JsonParse(json::Error),
    /// The puppet description is not complete: meta information, physics, nodes or
    /// parameters are missing or malformed.
    InoxParse,
}

/// The framing errors, without the payload of the UTF-8 error.
#[derive(Debug, PartialEq, Eq, Structural)]
pub enum InpErrorKind {
    IncorrectMagic,
    NoTexSect,
    Bc7NotSupported,
    InvalidTexEncoding(u8),
    Io,
    Utf8,
    JsonParse,
    InoxParse,
}

pub open spec fn error_kind(e: ParseInpError) -> InpErrorKind {
    match e {
        ParseInpError::IncorrectMagic => InpErrorKind::IncorrectMagic,
        ParseInpError::NoTexSect => InpErrorKind::NoTexSect,
        ParseInpError::Bc7NotSupported => InpErrorKind::Bc7NotSupported,
        ParseInpError::InvalidTexEncoding(n) => InpErrorKind::InvalidTexEncoding(n),
        ParseInpError::Io => InpErrorKind::Io,
        ParseInpError::Utf8(_) => InpErrorKind::Utf8,
        ParseInpError::JsonParse(_) => InpErrorKind::JsonParse,
        ParseInpError::InoxParse => InpErrorKind::InoxParse,
    }
}

/// `TRNSRTS\0`, the magic bytes at the start of an INP file.
pub open spec fn inp_magic() -> Seq<u8> {
    seq![0x54u8, 0x52, 0x4e, 0x53, 0x52, 0x54, 0x53, 0x00]
}

/// `TEX_SECT`, the header of the texture section.
pub open spec fn tex_sect() -> Seq<u8> {
    seq![0x54u8, 0x45, 0x58, 0x5f, 0x53, 0x45, 0x43, 0x54]
}

/// The big-endian `u32` stored at `i .. i + 4`.
pub open spec fn be_u32_at(b: Seq<u8>, i: int) -> u32 {
    (b[i] as int * 0x1000000 + b[i + 1] as int * 0x10000 + b[i + 2] as int * 0x100 + b[i
        + 3] as int) as u32
}

/// The puppet payload of an INP file and the offset just after it, or the framing error.
pub open spec fn spec_inp_payload(b: Seq<u8>) -> Result<(Seq<u8>, int), InpErrorKind> {
    if b.len() < 8 {
        Err(InpErrorKind::Io)
    } else if b.take(8) != inp_magic() {
        Err(InpErrorKind::IncorrectMagic)
    } else if b.len() < 12 {
        Err(InpErrorKind::Io)
    } else {
        let n = be_u32_at(b, 8) as int;
        if 12 + n > b.len() {
            Err(InpErrorKind::Io)
        } else {
            Ok((b.subrange(12, 12 + n), 12 + n))
        }
    }
}

/// The encoding that an encoding byte stands for, or the error for it.
pub open spec fn spec_tex_encoding(e: u8) -> Result<ImageFormat, InpErrorKind> {
    if e == 0 {
        Ok(ImageFormat::Png)
    } else if e == 1 {
        Ok(ImageFormat::Tga)
    } else if e == 2 {
        Err(InpErrorKind::Bc7NotSupported)
    } else {
        Err(InpErrorKind::InvalidTexEncoding(e))
    }
}

/// `n` texture records from `pos` on.
pub open spec fn spec_tex_records(b: Seq<u8>, pos: int, n: nat) -> Result<
    Seq<(ImageFormat, Seq<u8>)>,
    InpErrorKind,
>
    decreases n,
{
    if n == 0 {
        Ok(Seq::empty())
    } else if pos + 4 > b.len() {
        Err(InpErrorKind::Io)
    } else {
        let len = be_u32_at(b, pos) as int;
        if pos + 5 > b.len() {
            Err(InpErrorKind::Io)
        } else {
            match spec_tex_encoding(b[pos + 4]) {
                Err(e) => Err(e),
                Ok(format) => if pos + 5 + len > b.len() {
                    Err(InpErrorKind::Io)
                } else {
                    match spec_tex_records(b, pos + 5 + len, (n - 1) as nat) {
                        Err(e) => Err(e),
                        Ok(rest) => Ok(seq![(format, b.subrange(pos + 5, pos + 5 + len))] + rest),
                    }
                },
            }
        }
    }
}

/// The texture section that starts at `pos`.
pub open spec fn spec_inp_textures(b: Seq<u8>, pos: int) -> Result<
    Seq<(ImageFormat, Seq<u8>)>,
    InpErrorKind,
> {
    if pos + 8 > b.len() || b.subrange(pos, pos + 8) != tex_sect() {
        Err(InpErrorKind::NoTexSect)
    } else if pos + 12 > b.len() {
        Err(InpErrorKind::Io)
    } else {
        spec_tex_records(b, pos + 12, be_u32_at(b, pos + 8) as nat)
    }
}

/// The encoding and bytes of each texture.
pub open spec fn textures_view(v: Seq<ModelTexture>) -> Seq<(ImageFormat, Seq<u8>)> {
    Seq::new(v.len(), |i: int| (v[i].format, v[i].data@))
}

/// Calls `std::str::from_utf8`, which succeeds exactly on valid UTF-8 and then views
/// the same bytes as text.
#[verifier::external_body]
fn str_from_utf8(v: &[u8]) -> (res: Result<&str, core::str::Utf8Error>)
    ensures
        res is Ok <==> valid_utf8(v@),
        res matches Ok(s) ==> s.spec_bytes() == v@,
{
    core::str::from_utf8(v)
}

/// Reads the byte at `*pos` and moves past it.
pub fn read_u8(data: &[u8], pos: &mut usize) -> (res: Result<u8, ParseInpError>)
    ensures
        *old(pos) < data@.len() ==> (res matches Ok(v) && v == data@[*old(pos) as int]
            && *final(pos) == *old(pos) + 1),
        *old(pos) >= data@.len() ==> (res matches Err(ParseInpError::Io) && *final(pos) == *old(pos)),
{
    if *pos >= data.len() {
        return Err(ParseInpError::Io);
    }
    let v = data[*pos];
    *pos = *pos + 1;
    Ok(v)
}

/// Reads the big-endian `u32` at `*pos` and moves past it.
pub fn read_be_u32(data: &[u8], pos: &mut usize) -> (res: Result<u32, ParseInpError>)
    ensures
        *old(pos) + 4 <= data@.len() ==> (res matches Ok(v) && v == be_u32_at(data@, *old(pos) as int)
            && *final(pos) == *old(pos) + 4),
        *old(pos) + 4 > data@.len() ==> (res matches Err(ParseInpError::Io) && *final(pos) == *old(pos)),
{
    if *pos > data.len() || data.len() - *pos < 4 {
        return Err(ParseInpError::Io);
    }
    let i = *pos;
    let v = data[i] as u32 * 0x1000000 + data[i + 1] as u32 * 0x10000 + data[i + 2] as u32 * 0x100
        + data[i + 3] as u32;
    *pos = i + 4;
    Ok(v)
}

/// Reads the `n` bytes at `*pos` and moves past them.
pub fn read_vec(data: &[u8], pos: &mut usize, n: usize) -> (res: Result<Vec<u8>, ParseInpError>)
    ensures
        *old(pos) + n <= data@.len() ==> (res matches Ok(v) && v@ == data@.subrange(
            *old(pos) as int,
            *old(pos) + n,
        ) && *final(pos) == *old(pos) + n),
        *old(pos) + n > data@.len() ==> (res matches Err(ParseInpError::Io) && *final(pos) == *old(pos)),
{
    if *pos > data.len() || data.len() - *pos < n {
        return Err(ParseInpError::Io);
    }
    let v = vstd::slice::slice_to_vec(vstd::slice::slice_subrange(data, *pos, *pos + n));
    *pos = *pos + n;
    Ok(v)
}

fn bytes_eq(a: &[u8], b: &[u8]) -> (r: bool)
    ensures
        r == (a@ == b@),
{
    if a.len() != b.len() {
        return false;
    }
    let mut i: usize = 0;
    while i < a.len()
        invariant
            a@.len() == b@.len(),
            i <= a@.len(),
            forall|k: int| 0 <= k < i ==> a@[k] == b@[k],
        decreases a@.len() - i,
    {
        if a[i] != b[i] {
            return false;
        }
        i = i + 1;
    }
    assert(a@ =~= b@);
    true
}

/// Checks the magic bytes and reads the puppet payload of an INP file.
/// Gives the payload text and the offset where the texture section should start.
pub fn read_inp_payload(data: &[u8]) -> (res: Result<(&str, usize), ParseInpError>)
    ensures
        match spec_inp_payload(data@) {
            Err(e) => res matches Err(err) && error_kind(err) == e,
            Ok((p, end)) => if valid_utf8(p) {
                res matches Ok((s, e)) && s.spec_bytes() == p && e == end
            } else {
                res matches Err(ParseInpError::Utf8(_))
            },
        },
{
    let mut pos: usize = 0;
    let magic = read_vec(data, &mut pos, 8)?;
    let expected = vec![0x54u8, 0x52, 0x4e, 0x53, 0x52, 0x54, 0x53, 0x00];
    assert(expected@ =~= inp_magic());
    if !bytes_eq(magic.as_slice(), expected.as_slice()) {
        return Err(ParseInpError::IncorrectMagic);
    }
    let json_length = read_be_u32(data, &mut pos)? as usize;
    let payload_start = pos;
    if pos > data.len() || data.len() - pos < json_length {
        return Err(ParseInpError::Io);
    }
    let end = pos + json_length;
    let payload = vstd::slice::slice_subrange(data, payload_start, end);
    match str_from_utf8(payload) {
        Ok(s) => Ok((s, end)),
        Err(e) => Err(ParseInpError::Utf8(e)),
    }
}

/// Reads the texture section of an INP file, which starts at `pos`.
pub fn read_inp_textures(data: &[u8], pos: usize) -> (res: Result<Vec<ModelTexture>, ParseInpError>)
    ensures
        match spec_inp_textures(data@, pos as int) {
            Err(e) => res matches Err(err) && error_kind(err) == e,
            Ok(ts) => res matches Ok(v) && textures_view(v@) == ts,
        },
{
    let ghost section = pos as int;
    let mut cursor = pos;
    let tex_sect_bytes = match read_vec(data, &mut cursor, 8) {
        Ok(v) => v,
        Err(_) => return Err(ParseInpError::NoTexSect),
    };
    let expected = vec![0x54u8, 0x45, 0x58, 0x5f, 0x53, 0x45, 0x43, 0x54];
    assert(expected@ =~= tex_sect());
    if !bytes_eq(tex_sect_bytes.as_slice(), expected.as_slice()) {
        return Err(ParseInpError::NoTexSect);
    }
    let tex_count = read_be_u32(data, &mut cursor)? as usize;
    let ghost total = spec_tex_records(data@, cursor as int, tex_count as nat);
    assert(total == spec_inp_textures(data@, section));
    let mut textures: Vec<ModelTexture> = Vec::new();
    let mut i: usize = 0;
    while i < tex_count
        invariant
            i <= tex_count,
            section == pos as int,
            total == spec_inp_textures(data@, section),
            match total {
                Err(e) => match spec_tex_records(data@, cursor as int, (tex_count - i) as nat) {
                    Err(e2) => e2 == e,
                    Ok(_) => false,
                },
                Ok(all) => match spec_tex_records(data@, cursor as int, (tex_count - i) as nat) {
                    Err(_) => false,
                    Ok(rest) => all == textures_view(textures@) + rest,
                },
            },
        decreases tex_count - i,
    {
        let ghost start = cursor as int;
        let ghost cur = spec_tex_records(data@, start, (tex_count - i) as nat);
        assert(cur == spec_tex_records(data@, start, (tex_count - i) as nat));
        let tex_length = match read_be_u32(data, &mut cursor) {
            Ok(v) => v as usize,
            Err(e) => {
                assert(cur == Err::<Seq<(ImageFormat, Seq<u8>)>, InpErrorKind>(InpErrorKind::Io));
                return Err(e);
            },
        };
        let tex_encoding = match read_u8(data, &mut cursor) {
            Ok(v) => v,
            Err(e) => {
                assert(cur == Err::<Seq<(ImageFormat, Seq<u8>)>, InpErrorKind>(InpErrorKind::Io));
                return Err(e);
            },
        };
        let format = match tex_encoding {
            0 => ImageFormat::Png,
            1 => ImageFormat::Tga,
            2 => {
                assert(cur == Err::<Seq<(ImageFormat, Seq<u8>)>, InpErrorKind>(
                    InpErrorKind::Bc7NotSupported,
                ));
                return Err(ParseInpError::Bc7NotSupported);
            },
            n => {
                assert(cur == Err::<Seq<(ImageFormat, Seq<u8>)>, InpErrorKind>(
                    InpErrorKind::InvalidTexEncoding(n),
                ));
                return Err(ParseInpError::InvalidTexEncoding(n));
            },
        };
        let tex_data = match read_vec(data, &mut cursor, tex_length) {
            Ok(v) => v,
            Err(e) => {
                assert(cur == Err::<Seq<(ImageFormat, Seq<u8>)>, InpErrorKind>(InpErrorKind::Io));
                return Err(e);
            },
        };
        let ghost prev = textures@;
        textures.push(ModelTexture { format, data: tex_data });
        assert(textures_view(textures@) =~= textures_view(prev).push((format, tex_data@)));
        proof {
            let r = spec_tex_records(data@, cursor as int, (tex_count - i - 1) as nat);
            if let Ok(rr) = r {
                assert(textures_view(prev) + (seq![(format, tex_data@)] + rr) =~= textures_view(
                    prev,
                ).push((format, tex_data@)) + rr);
            }
        }
        i = i + 1;
    }
    assert(textures_view(textures@) + Seq::<(ImageFormat, Seq<u8>)>::empty() =~= textures_view(
        textures@,
    ));
    Ok(textures)
}

proof fn lemma_tex_records_count(b: Seq<u8>, pos: int, n: nat)
    ensures
        spec_tex_records(b, pos, n) matches Ok(ts) ==> ts.len() == n,
    decreases n,
{
    if n > 0 && pos + 5 <= b.len() {
        let len = be_u32_at(b, pos) as int;
        lemma_tex_records_count(b, pos + 5 + len, (n - 1) as nat);
    }
}

/// The texture section of an INP file yields exactly as many textures as its header
/// declares, each with the encoding and bytes of its record.
pub proof fn lemma_texture_count(b: Seq<u8>, pos: int)
    ensures
        spec_inp_textures(b, pos) matches Ok(ts) ==> ts.len() == be_u32_at(b, pos + 8),
{
    if pos + 12 <= b.len() {
        lemma_tex_records_count(b, pos + 12, be_u32_at(b, pos + 8) as nat);
    }
}

/// The contents of an INP file: the puppet description, its meta information and node
/// tree, and the encoded textures.
#[derive(Debug)]
pub struct InpModel {
    pub puppet: JsonData,
    pub meta: PuppetMeta,
    pub nodes: NodeTree,
    pub textures: Vec<ModelTexture>,
}

/// Reads a whole INP file: the magic bytes, the JSON puppet payload, which must be UTF-8
/// text that parses as JSON and is a complete puppet description, then the texture section.
/// Each step fails with its own error, in that order.
pub fn parse_inp_bytes(data: &[u8]) -> (r: Result<InpModel, ParseInpError>)
    ensures
        match spec_inp_payload(data@) {
            Err(e) => r matches Err(err) && error_kind(err) == e,
            Ok((p, end)) => if !valid_utf8(p) {
                r matches Err(ParseInpError::Utf8(_))
            } else {
                match json_parsed(decode_utf8(p)) {
                    None => r matches Err(ParseInpError::JsonParse(_)),
                    Some(puppet) => if !puppet_complete(puppet) {
                        r matches Err(ParseInpError::InoxParse)
                    } else {
                        match spec_inp_textures(data@, end) {
                            Err(e) => r matches Err(err) && error_kind(err) == e,
                            Ok(ts) => r matches Ok(m) && m.puppet == puppet && meta_matches(
                                m.meta,
                                puppet_meta_object(puppet),
                            ) && m.nodes@ == puppet_nodes(puppet) && textures_view(m.textures@) == ts,
                        }
                    },
                }
            },
        },
{
    let (payload, textures_start) = read_inp_payload(data)?;
    proof {
        encode_utf8_decode_utf8(payload@);
    }
    let puppet = match parse_json(payload) {
        Ok(p) => p,
        Err(e) => return Err(ParseInpError::JsonParse(e)),
    };
    let description = match deserialize_puppet(&puppet) {
        Some(d) => d,
        None => return Err(ParseInpError::InoxParse),
    };
    let textures = read_inp_textures(data, textures_start)?;
    Ok(InpModel { puppet, meta: description.meta, nodes: description.nodes, textures })
}

} // verus!
