use inox2d::formats::json_data::{JsonData, JsonNumber};
use inox2d::formats::node_tree::{deserialize_node_tree, deserialize_puppet};

fn to_data(value: &json::JsonValue) -> JsonData {
    match value {
        json::JsonValue::Null => JsonData::Null,
        json::JsonValue::Short(s) => JsonData::Str(s.as_str().to_owned()),
        json::JsonValue::String(s) => JsonData::Str(s.clone()),
        json::JsonValue::Number(n) => {
            let (positive, mantissa, exponent) = n.as_parts();
            JsonData::Number(JsonNumber { positive, mantissa, exponent })
        }
        json::JsonValue::Boolean(b) => JsonData::Boolean(*b),
        json::JsonValue::Object(o) => JsonData::Object(o.iter().map(|(k, v)| (k.to_owned(), to_data(v))).collect()),
        json::JsonValue::Array(a) => JsonData::Array(a.iter().map(to_data).collect()),
    }
}

fn object(text: &str) -> Vec<(String, JsonData)> {
    match to_data(&json::parse(text).unwrap()) {
        JsonData::Object(o) => o,
        _ => panic!("not an object"),
    }
}

const COMMON: &str = r#""enabled":true,"zsort":-1.5,"transform":{"trans":[1,2,3],"rot":[0,0,0.5],"scale":[1,1],"pixel_snap":false},"lockToRoot":false"#;
const DRAWABLE: &str = r#""blend_mode":"Multiply","tint":[1,1,1],"screenTint":[0,0,0],"mask_threshold":0.5,"opacity":1,"masks":[{"bad":1}]"#;
const MESH: &str = r#""mesh":{"verts":[0,0,1,0,1,1],"uvs":[0,0,1,0,1,1],"indices":[0,1,2],"origin":[0,0]}"#;

fn node(uuid: u32, kind: &str, extra: &str, children: &str) -> String {
    format!(r#"{{"uuid":{uuid},"name":"n{uuid}","type":"{kind}",{COMMON}{extra},"children":{children}}}"#)
}

fn part(uuid: u32, textures: &str, mesh: &str) -> String {
    node(uuid, "Part", &format!(r#","textures":{textures},{DRAWABLE},{mesh}"#), "[]")
}

#[test]
fn node_tree_in_pre_order_with_parents_and_children() {
    let physics = node(
        5,
        "SimplePhysics",
        r#","param":7,"model_type":"Pendulum","map_mode":"AngleLength","gravity":1,"length":100,"frequency":1,"angle_damping":0.5,"length_damping":0.5,"output_scale":[1,1]"#,
        "[]",
    );
    let composite = node(2, "Composite", &format!(",{DRAWABLE}"), &format!("[{},{}]", part(3, "[0]", MESH), physics));
    let root = node(1, "Node", "", &format!("[{composite},{}]", part(4, "[1,2,3,99.5]", MESH)));
    let tree = deserialize_node_tree(&object(&root)).unwrap();
    let uuids: Vec<u32> = tree.nodes.iter().map(|n| n.uuid).collect();
    assert_eq!(uuids, vec![1, 2, 3, 5, 4]);
    let parents: Vec<Option<usize>> = tree.nodes.iter().map(|n| n.parent).collect();
    assert_eq!(parents, vec![None, Some(0), Some(1), Some(1), Some(0)]);
    assert_eq!(tree.nodes[0].children, vec![1, 4]);
    assert_eq!(tree.nodes[1].children, vec![2, 3]);
    assert!(tree.nodes[2].children.is_empty());
    assert_eq!(tree.nodes[3].name, "n5");
    assert_eq!(tree.nodes[3].node_type, "SimplePhysics");
    // Parents and children name each other.
    for (i, n) in tree.nodes.iter().enumerate() {
        for &c in &n.children {
            assert!(c > i);
            assert_eq!(tree.nodes[c].parent, Some(i));
        }
        if let Some(p) = n.parent {
            assert!(p < i && tree.nodes[p].children.contains(&i));
        }
    }
}

#[test]
fn children_that_are_not_an_array_make_a_leaf() {
    let tree = deserialize_node_tree(&object(&node(9, "Mystery", "", "{}"))).unwrap();
    assert_eq!(tree.nodes.len(), 1);
    assert_eq!(tree.nodes[0].node_type, "Mystery");
    assert!(tree.nodes[0].children.is_empty());
}

#[test]
fn node_tree_refuses_incomplete_nodes() {
    let ok = |text: String| deserialize_node_tree(&object(&text)).is_some();
    assert!(ok(part(3, "[0]", MESH)));
    // No children member.
    assert!(!ok(format!(r#"{{"uuid":1,"name":"a","type":"Node",{COMMON}}}"#)));
    // A child that is not an object.
    assert!(!ok(node(1, "Node", "", "[3]")));
    // A uuid that is not a whole number.
    assert!(!ok(node(1, "Node", "", "[]").replace(r#""uuid":1"#, r#""uuid":1.5"#)));
    // A z value that is not a number.
    assert!(!ok(node(1, "Node", "", "[]").replace(r#""zsort":-1.5"#, r#""zsort":"front""#)));
    // A scale of three numbers.
    assert!(!ok(node(1, "Node", "", "[]").replace(r#""scale":[1,1]"#, r#""scale":[1,1,1]"#)));
    // A pixel-snap flag that is not a flag.
    assert!(!ok(node(1, "Node", "", "[]").replace(r#""pixel_snap":false"#, r#""pixel_snap":0"#)));
    // Parts: no texture, a texture index that is not whole, a fourth member is not read.
    assert!(!ok(part(3, "[]", MESH)));
    assert!(!ok(part(3, "[0,1.5]", MESH)));
    assert!(ok(part(3, "[0,1,2,\"x\"]", MESH)));
    // An odd number of vertex coordinates, or no mesh.
    assert!(!ok(part(3, "[0]", &MESH.replace("[0,0,1,0,1,1],\"uvs\"", "[0,0,1],\"uvs\""))));
    assert!(!ok(node(3, "Part", &format!(r#","textures":[0],{DRAWABLE}"#), "[]")));
    // An unknown blend mode.
    assert!(!ok(part(3, "[0]", MESH).replace("Multiply", "Overlay")));
    // An invalid node deep in the tree.
    let deep = node(1, "Node", "", &format!("[{}]", node(2, "Node", "", &format!("[{}]", part(3, "[]", MESH)))));
    assert!(!ok(deep));
}

#[test]
fn puppet_description_needs_meta_physics_nodes_and_parameters() {
    let nodes = node(1, "Node", "", "[]");
    let text = |physics: &str, param: &str| {
        format!(r#"{{"meta":{{"version":"1.0","preservePixels":true}},"physics":{physics},"nodes":{nodes}{param}}}"#)
    };
    let good = to_data(&json::parse(&text(r#"{"pixelsPerMeter":1000,"gravity":9.8}"#, r#","param":[]"#)).unwrap());
    let description = deserialize_puppet(&good).unwrap();
    assert_eq!(description.meta.version, "1.0");
    assert_eq!(description.nodes.nodes.len(), 1);
    let no_param = to_data(&json::parse(&text(r#"{"pixelsPerMeter":1000,"gravity":9.8}"#, "")).unwrap());
    assert!(deserialize_puppet(&no_param).is_none());
    let bad_physics = to_data(&json::parse(&text(r#"{"pixelsPerMeter":"many","gravity":9.8}"#, r#","param":[]"#)).unwrap());
    assert!(deserialize_puppet(&bad_physics).is_none());
}
