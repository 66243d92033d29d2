use image::ImageEncoder;
use inox2d::model::{ImageFormat, ModelTexture};
use inox2d::texture::decode_texture;
use inox2d::texture::tga::{
    bgr_to_rgba, bgra_to_rgba, read_tga, read_tga_header, to_rgba, y_to_rgba, ya_to_rgba, DataType, TgaChannels,
    TgaDecodeError, TgaHeader,
};

/// An 18-byte TGA header.
fn header(id_len: u8, palette_type: u8, data_type: u8, width: u16, height: u16, bits_pp: u8, flags: u8) -> Vec<u8> {
    let mut h = vec![id_len, palette_type, data_type, 0, 0, 0, 0, 0, 0, 0, 0, 0];
    h.extend_from_slice(&width.to_le_bytes());
    h.extend_from_slice(&height.to_le_bytes());
    h.push(bits_pp);
    h.push(flags);
    h
}

fn image(h: Vec<u8>, body: &[u8]) -> Vec<u8> {
    let mut v = h;
    v.extend_from_slice(body);
    v
}

#[test]
fn header_fields_are_read() {
    let bytes = header(3, 0, 2, 640, 480, 32, 0x28);
    let h = read_tga_header(&bytes).unwrap();
    assert_eq!(h.width(), 640);
    assert_eq!(h.height(), 480);
    assert_eq!(h.id_len(), 3);
    assert_eq!(h.palette_type(), 0);
    assert_eq!(h.data_type(), DataType::TrueColor);
    assert_eq!(h.bits_pp(), 32);
    assert_eq!(h.flags(), 0x28);
}

#[test]
fn header_errors() {
    assert_eq!(read_tga_header(&[]).unwrap_err(), TgaDecodeError::Io);
    assert_eq!(read_tga_header(&[0, 0, 5]).unwrap_err(), TgaDecodeError::InvalidHeader);
    assert_eq!(read_tga_header(&[0, 0, 2, 0]).unwrap_err(), TgaDecodeError::Io);
    assert_eq!(read_tga_header(&header(0, 0, 2, 0, 1, 24, 0)).unwrap_err(), TgaDecodeError::InvalidHeader);
    assert_eq!(read_tga_header(&header(0, 0, 2, 1, 0, 24, 0)).unwrap_err(), TgaDecodeError::InvalidHeader);
    assert_eq!(read_tga_header(&header(0, 2, 2, 1, 1, 24, 0)).unwrap_err(), TgaDecodeError::InvalidHeader);
    let mut with_palette = header(0, 0, 2, 1, 1, 24, 0);
    with_palette[5] = 1;
    assert_eq!(read_tga_header(&with_palette).unwrap_err(), TgaDecodeError::InvalidHeader);
}

#[test]
fn raw_bgr_top_origin() {
    let bytes = image(header(0, 0, 2, 2, 1, 24, 0x20), &[1, 2, 3, 4, 5, 6]);
    let img = read_tga(&bytes).unwrap();
    assert_eq!(img.channels, TgaChannels::Bgr);
    assert_eq!(img.data, vec![3, 2, 1, 255, 6, 5, 4, 255]);
}

#[test]
fn raw_bgra_bottom_origin_is_flipped() {
    let bytes = image(header(0, 0, 2, 1, 2, 32, 0x08), &[10, 20, 30, 40, 50, 60, 70, 80]);
    let img = read_tga(&bytes).unwrap();
    assert_eq!(img.channels, TgaChannels::Bgra);
    assert_eq!(img.data, vec![70, 60, 50, 80, 30, 20, 10, 40]);
    assert_eq!(img.data.len(), 1 * 2 * 4);
}

#[test]
fn id_field_is_skipped() {
    let bytes = image(header(2, 0, 2, 1, 1, 24, 0x20), &[99, 99, 1, 2, 3]);
    assert_eq!(read_tga(&bytes).unwrap().data, vec![3, 2, 1, 255]);
}

#[test]
fn gray_and_gray_alpha() {
    let gray = image(header(0, 0, 3, 2, 1, 8, 0x20), &[7, 9]);
    assert_eq!(read_tga(&gray).unwrap().data, vec![7, 7, 7, 255, 9, 9, 9, 255]);
    let gray_alpha = image(header(0, 0, 3, 1, 1, 16, 0x28), &[7, 100]);
    let img = read_tga(&gray_alpha).unwrap();
    assert_eq!(img.channels, TgaChannels::Ya);
    assert_eq!(img.data, vec![7, 7, 7, 100]);
}

#[test]
fn rle_run_and_raw_packets() {
    let run = image(header(0, 0, 10, 3, 1, 24, 0x20), &[0x82, 1, 2, 3]);
    assert_eq!(read_tga(&run).unwrap().data, vec![3, 2, 1, 255, 3, 2, 1, 255, 3, 2, 1, 255]);
    let raw = image(header(0, 0, 10, 2, 1, 24, 0x20), &[0x01, 1, 2, 3, 4, 5, 6]);
    assert_eq!(read_tga(&raw).unwrap().data, vec![3, 2, 1, 255, 6, 5, 4, 255]);
}

#[test]
fn rle_raw_packet_spans_lines() {
    // One raw packet of 4 pixels covers both lines of a 2x2 image.
    let bytes = image(header(0, 0, 11, 2, 2, 8, 0x20), &[0x03, 1, 2, 3, 4]);
    assert_eq!(
        read_tga(&bytes).unwrap().data,
        vec![1, 1, 1, 255, 2, 2, 2, 255, 3, 3, 3, 255, 4, 4, 4, 255]
    );
}

#[test]
fn rle_gray_bottom_origin() {
    let bytes = image(header(0, 0, 11, 2, 2, 8, 0), &[0x81, 5, 0x81, 6]);
    assert_eq!(
        read_tga(&bytes).unwrap().data,
        vec![6, 6, 6, 255, 6, 6, 6, 255, 5, 5, 5, 255, 5, 5, 5, 255]
    );
}

#[test]
fn unsupported_images() {
    let cases: Vec<(Vec<u8>, &str)> = vec![
        (header(0, 0, 2, 1, 1, 24, 0x40), "interlaced"),
        (header(0, 0, 2, 1, 1, 24, 0x10), "right-to-left"),
        (header(0, 0, 2, 1, 1, 24, 0x04), "bits per pixel != 8"),
        (header(0, 1, 2, 1, 1, 24, 0), "palette type != 0"),
        (header(0, 0, 2, 1, 1, 16, 0), "bits per pixel != 24 or 32"),
        (header(0, 0, 3, 1, 1, 24, 0), "unsupported bits per pixel"),
        (header(0, 0, 3, 1, 1, 16, 0), "unsupported bits per pixel"),
        (header(0, 0, 0, 1, 1, 24, 0), "no data type"),
        (header(0, 0, 1, 1, 1, 24, 0), "idx data type"),
        (header(0, 0, 9, 1, 1, 24, 0), "idx rle data type"),
    ];
    for (bytes, why) in cases {
        assert_eq!(read_tga(&bytes).err(), Some(TgaDecodeError::Unsupported(why)));
    }
}

#[test]
fn too_big_and_truncated() {
    let big = header(0, 0, 2, 65535, 65535, 32, 0);
    assert_eq!(read_tga(&big).err(), Some(TgaDecodeError::TooBig));
    let short_raw = image(header(0, 0, 2, 2, 1, 24, 0x20), &[1, 2, 3]);
    assert_eq!(read_tga(&short_raw).err(), Some(TgaDecodeError::Io));
    let short_rle = image(header(0, 0, 10, 2, 1, 24, 0x20), &[0x81]);
    assert_eq!(read_tga(&short_rle).err(), Some(TgaDecodeError::Io));
    let no_packet = header(0, 0, 10, 2, 1, 24, 0x20);
    assert_eq!(read_tga(&no_packet).err(), Some(TgaDecodeError::Io));
}

#[test]
fn channel_conversions() {
    let mut t = [0u8; 8];
    y_to_rgba(&[4, 5], &mut t);
    assert_eq!(t, [4, 4, 4, 255, 5, 5, 5, 255]);
    let mut t = [9u8; 8];
    ya_to_rgba(&[4, 40], &mut t);
    assert_eq!(t, [4, 4, 4, 40, 9, 9, 9, 9]);
    let mut t = [0u8; 4];
    bgr_to_rgba(&[1, 2, 3], &mut t);
    assert_eq!(t, [3, 2, 1, 255]);
    let mut t = [0u8; 4];
    bgra_to_rgba(&[1, 2, 3, 4], &mut t);
    assert_eq!(t, [3, 2, 1, 4]);
    let mut t = [0u8; 4];
    to_rgba(TgaChannels::Bgr, &[7, 8, 9], &mut t);
    assert_eq!(t, [9, 8, 7, 255]);
}

#[test]
fn channel_counts_and_data_types() {
    assert_eq!(TgaChannels::try_from(1u8).unwrap(), TgaChannels::Y);
    assert_eq!(TgaChannels::try_from(4u8).unwrap(), TgaChannels::Bgra);
    assert_eq!(TgaChannels::try_from(5u8).unwrap_err().0, 5);
    assert_eq!(DataType::try_from(10u8).unwrap(), DataType::TruecolorRle);
    assert_eq!(DataType::try_from(4u8).unwrap_err().0, 4);
}

#[test]
fn decode_tga_model_texture() {
    let bytes = image(header(0, 0, 2, 2, 1, 24, 0x20), &[1, 2, 3, 4, 5, 6]);
    let tex = decode_texture(ModelTexture { format: ImageFormat::Tga, data: bytes }).unwrap();
    assert_eq!(tex.width(), 2);
    assert_eq!(tex.height(), 1);
    assert_eq!(tex.pixels(), &[3, 2, 1, 255, 6, 5, 4, 255]);
    let err = decode_texture(ModelTexture { format: ImageFormat::Tga, data: vec![0, 0, 7] });
    assert!(matches!(err, Err(inox2d::texture::DecodeTextureError::TgaDecode(TgaDecodeError::InvalidHeader))));
}

#[test]
fn decode_png_model_texture() {
    let pixels: Vec<u8> = vec![10, 20, 30, 255, 40, 50, 60, 128];
    let mut png = Vec::new();
    image::codecs::png::PngEncoder::new(&mut png)
        .write_image(&pixels, 2, 1, image::ColorType::Rgba8)
        .unwrap();
    let tex = decode_texture(ModelTexture { format: ImageFormat::Png, data: png.clone() }).unwrap();
    assert_eq!(tex.width(), 2);
    assert_eq!(tex.height(), 1);
    assert_eq!(tex.pixels(), pixels.as_slice());
    assert_ne!(tex.pixels(), png.as_slice());
    // A grey PNG comes back as RGBA, four bytes for each pixel.
    let mut grey = Vec::new();
    image::codecs::png::PngEncoder::new(&mut grey)
        .write_image(&[1, 2, 3, 4, 5, 6], 3, 2, image::ColorType::L8)
        .unwrap();
    let tex = decode_texture(ModelTexture { format: ImageFormat::Png, data: grey }).unwrap();
    assert_eq!(tex.pixels().len(), 4 * 3 * 2);
    assert_eq!(&tex.pixels()[..8], &[1, 1, 1, 255, 2, 2, 2, 255]);
    let bad = decode_texture(ModelTexture { format: ImageFormat::Png, data: vec![1, 2, 3] });
    assert!(matches!(bad, Err(inox2d::texture::DecodeTextureError::ImageDecode(_))));
}

#[test]
fn header_struct_is_plain_data() {
    let h = TgaHeader {
        width: 1,
        height: 2,
        id_len: 0,
        palette_type: 0,
        data_type: DataType::Gray,
        bits_pp: 8,
        flags: 0,
    };
    assert_eq!(h.width() as u32 * h.height() as u32, 2);
}

#[test]
fn origin_flag_turns_the_image_upside_down() {
    // Three rows of two BGR pixels, run-length encoded: one run per row.
    let body = [0x81, 1, 2, 3, 0x81, 4, 5, 6, 0x81, 7, 8, 9];
    let bottom = read_tga(&image(header(0, 0, 10, 2, 3, 24, 0x00), &body)).unwrap();
    let top = read_tga(&image(header(0, 0, 10, 2, 3, 24, 0x20), &body)).unwrap();
    assert_eq!(bottom.header.width(), top.header.width());
    assert_eq!(bottom.header.height(), top.header.height());
    for y in 0..3 {
        assert_eq!(top.data[8 * y..8 * y + 8], bottom.data[8 * (2 - y)..8 * (2 - y) + 8]);
    }
    assert_eq!(top.data[..8], [3, 2, 1, 255, 3, 2, 1, 255]);
    // Errors do not depend on the flag.
    let short = &body[..6];
    assert!(matches!(read_tga(&image(header(0, 0, 10, 2, 3, 24, 0x00), short)), Err(TgaDecodeError::Io)));
    assert!(matches!(read_tga(&image(header(0, 0, 10, 2, 3, 24, 0x20), short)), Err(TgaDecodeError::Io)));
}
