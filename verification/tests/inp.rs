use inox2d::formats::inp::{
    parse_inp_bytes, read_be_u32, read_inp_payload, read_inp_textures, read_u8, read_vec, ParseInpError,
};
use inox2d::formats::json_data::{JsonData, JsonNumber};
use inox2d::model::ImageFormat;

fn inp(payload: &[u8], textures: &[(u8, &[u8])]) -> Vec<u8> {
    let mut v = b"TRNSRTS\0".to_vec();
    v.extend_from_slice(&(payload.len() as u32).to_be_bytes());
    v.extend_from_slice(payload);
    v.extend_from_slice(b"TEX_SECT");
    v.extend_from_slice(&(textures.len() as u32).to_be_bytes());
    for (encoding, data) in textures {
        v.extend_from_slice(&(data.len() as u32).to_be_bytes());
        v.push(*encoding);
        v.extend_from_slice(data);
    }
    v
}

#[test]
fn payload_and_textures_are_framed() {
    let file = inp(b"{\"a\":1}", &[(0, &[1, 2, 3]), (1, &[4])]);
    let (payload, end) = read_inp_payload(&file).unwrap();
    assert_eq!(payload, "{\"a\":1}");
    assert_eq!(end, 8 + 4 + 7);
    let textures = read_inp_textures(&file, end).unwrap();
    assert_eq!(textures.len(), 2);
    assert_eq!(textures[0].format, ImageFormat::Png);
    assert_eq!(textures[0].data, vec![1, 2, 3]);
    assert_eq!(textures[1].format, ImageFormat::Tga);
    assert_eq!(textures[1].data, vec![4]);
}

#[test]
fn empty_texture_section() {
    let file = inp(b"{}", &[]);
    let (_, end) = read_inp_payload(&file).unwrap();
    assert!(read_inp_textures(&file, end).unwrap().is_empty());
}

#[test]
fn framing_errors() {
    assert!(matches!(read_inp_payload(b"TRNS"), Err(ParseInpError::Io)));
    assert!(matches!(read_inp_payload(b"TRNSRTX\0\0\0\0\0"), Err(ParseInpError::IncorrectMagic)));
    assert!(matches!(read_inp_payload(b"TRNSRTS\0\0\0"), Err(ParseInpError::Io)));
    assert!(matches!(read_inp_payload(b"TRNSRTS\0\0\0\0\x05ab"), Err(ParseInpError::Io)));
    assert!(matches!(read_inp_payload(b"TRNSRTS\0\0\0\0\x02\xff\xfe"), Err(ParseInpError::Utf8(_))));
}

#[test]
fn texture_section_errors() {
    let file = inp(b"{}", &[(2, &[1])]);
    let (_, end) = read_inp_payload(&file).unwrap();
    assert!(matches!(read_inp_textures(&file, end), Err(ParseInpError::Bc7NotSupported)));
    let file = inp(b"{}", &[(7, &[1])]);
    assert!(matches!(read_inp_textures(&file, end), Err(ParseInpError::InvalidTexEncoding(7))));
    let mut file = inp(b"{}", &[]);
    file[end] = b'X';
    assert!(matches!(read_inp_textures(&file, end), Err(ParseInpError::NoTexSect)));
    let file = inp(b"{}", &[(0, &[1, 2])]);
    let truncated = &file[..file.len() - 1];
    assert!(matches!(read_inp_textures(truncated, end), Err(ParseInpError::Io)));
    assert!(matches!(read_inp_textures(&file[..end + 10], end), Err(ParseInpError::Io)));
}

#[test]
fn cursor_reads() {
    let data = [1u8, 0, 0, 1, 2, 3];
    let mut pos = 0;
    assert_eq!(read_u8(&data, &mut pos).unwrap(), 1);
    assert_eq!(pos, 1);
    let mut pos = 0;
    assert_eq!(read_be_u32(&data, &mut pos).unwrap(), 0x01000001);
    assert_eq!(pos, 4);
    assert_eq!(read_vec(&data, &mut pos, 2).unwrap(), vec![2, 3]);
    assert_eq!(pos, 6);
    assert!(matches!(read_u8(&data, &mut pos), Err(ParseInpError::Io)));
    assert!(matches!(read_vec(&data, &mut pos, 1), Err(ParseInpError::Io)));
    assert_eq!(pos, 6);
}

/// A node object with the members every node needs.
fn node(uuid: u32, name: &str, kind: &str, extra: &str, children: &str) -> String {
    format!(
        r#"{{"uuid":{uuid},"name":"{name}","type":"{kind}","enabled":true,"zsort":0.5,
        "transform":{{"trans":[0,0,0],"rot":[0,0,0],"scale":[1,1]}},"lockToRoot":false{extra},
        "children":[{children}]}}"#
    )
}

/// A complete puppet description with the given meta object and root node.
fn puppet(meta: &str, nodes: &str) -> Vec<u8> {
    format!(r#"{{"meta":{meta},"physics":{{"pixelsPerMeter":1000,"gravity":9.8}},"nodes":{nodes},"param":[]}}"#)
        .into_bytes()
}

#[test]
fn whole_inp_file_is_parsed() {
    let composite = node(
        2,
        "Body",
        "Composite",
        r#","blend_mode":"Normal","tint":[1,1,1],"screenTint":[0,0,0],"mask_threshold":0.5,"opacity":1"#,
        &node(3, "Arm", "Node", "", ""),
    );
    let root = node(1, "Root", "Node", "", &format!("{composite},{}", node(4, "Tail", "Custom", "", "")));
    let payload = puppet(r#"{"name":"Aka","version":"1.0-alpha","preservePixels":true,"thumbnailId":3}"#, &root);
    let file = inp(&payload, &[(0, &[1, 2, 3]), (1, &[4])]);
    let model = parse_inp_bytes(&file).unwrap();
    assert_eq!(model.meta.name.as_deref(), Some("Aka"));
    assert_eq!(model.meta.version, "1.0-alpha");
    assert!(model.meta.preserve_pixels);
    assert_eq!(model.meta.thumbnail_id, Some(3));
    assert_eq!(model.textures.len(), 2);
    assert_eq!(model.textures[0].format, ImageFormat::Png);
    assert_eq!(model.textures[1].data, vec![4]);
    let nodes = &model.nodes.nodes;
    assert_eq!(nodes.iter().map(|n| n.uuid).collect::<Vec<_>>(), vec![1, 2, 3, 4]);
    assert_eq!(nodes[1].node_type, "Composite");
    assert_eq!(nodes[2].parent, Some(1));
    assert_eq!(nodes[0].children, vec![1, 3]);
    match &model.puppet {
        JsonData::Object(members) => {
            assert_eq!(members.len(), 4);
            assert_eq!(members[0].0, "meta");
            match &members[1].1 {
                JsonData::Object(physics) => {
                    assert!(matches!(
                        physics[1].1,
                        JsonData::Number(JsonNumber { positive: true, mantissa: 98, exponent: -1 })
                    ));
                    assert!(matches!(
                        physics[0].1,
                        JsonData::Number(JsonNumber { positive: true, mantissa: 1000, exponent: 0 })
                    ));
                }
                _ => panic!("physics is not an object"),
            }
            assert!(matches!(&members[3].1, JsonData::Array(a) if a.is_empty()));
        }
        _ => panic!("the puppet is not an object"),
    }
}

#[test]
fn inp_file_errors_come_in_order() {
    let root = node(1, "Root", "Node", "", "");
    let good = puppet(r#"{"version":"1.0","preservePixels":false}"#, &root);
    assert!(matches!(parse_inp_bytes(b"TRNSRTX\0\0\0\0\0"), Err(ParseInpError::IncorrectMagic)));
    assert!(matches!(parse_inp_bytes(&inp(b"\xff\xfe", &[])), Err(ParseInpError::Utf8(_))));
    assert!(matches!(parse_inp_bytes(&inp(b"{\"meta\":", &[])), Err(ParseInpError::JsonParse(_))));
    // A missing version is refused; a missing name is not.
    let no_version = puppet(r#"{"name":"Aka","preservePixels":false}"#, &root);
    assert!(matches!(parse_inp_bytes(&inp(&no_version, &[])), Err(ParseInpError::InoxParse)));
    assert!(matches!(parse_inp_bytes(&inp(b"[]", &[])), Err(ParseInpError::InoxParse)));
    // Meta information alone is not a puppet: physics, nodes and parameters are needed.
    let meta_only = br#"{"meta":{"version":"1.0","preservePixels":false}}"#;
    assert!(matches!(parse_inp_bytes(&inp(meta_only, &[])), Err(ParseInpError::InoxParse)));
    let bad_node = puppet(r#"{"version":"1.0","preservePixels":false}"#, &node(1, "Root", "Node", "", "7"));
    assert!(matches!(parse_inp_bytes(&inp(&bad_node, &[])), Err(ParseInpError::InoxParse)));
    let model = parse_inp_bytes(&inp(&good, &[])).unwrap();
    assert_eq!(model.meta.name, None);
    assert_eq!(model.nodes.nodes.len(), 1);
    assert!(model.textures.is_empty());
    assert!(matches!(parse_inp_bytes(&inp(&good, &[(2, &[])])), Err(ParseInpError::Bc7NotSupported)));
    let mut no_tex = inp(&good, &[]);
    no_tex.truncate(no_tex.len() - 12);
    assert!(matches!(parse_inp_bytes(&no_tex), Err(ParseInpError::NoTexSect)));
}
