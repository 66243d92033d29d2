use inox2d::formats::json_data::{
    deserialize_mask, deserialize_meta_of_puppet, deserialize_puppet_meta, deserialize_puppet_usage_rights, get,
    get_bool, get_str, get_u32, JsonData, JsonNumber,
};
use inox2d::nodes::node::InoxNodeUuid;
use inox2d::nodes::node_data::MaskMode;
use inox2d::puppet::{PuppetAllowedModification, PuppetAllowedRedistribution, PuppetAllowedUsers};

fn s(v: &str) -> JsonData {
    JsonData::Str(v.to_owned())
}

fn num(positive: bool, mantissa: u64, exponent: i16) -> JsonData {
    JsonData::Number(JsonNumber { positive, mantissa, exponent })
}

fn obj(members: Vec<(&str, JsonData)>) -> Vec<(String, JsonData)> {
    members.into_iter().map(|(k, v)| (k.to_owned(), v)).collect()
}

fn rights() -> Vec<(String, JsonData)> {
    obj(vec![
        ("allowed_users", s("Everyone")),
        ("allow_violence", JsonData::Boolean(true)),
        ("allow_sexual", JsonData::Boolean(false)),
        ("allow_commercial", JsonData::Boolean(true)),
        ("allow_redistribution", s("CopyleftLicense")),
        ("allow_modification", s("AllowPersonal")),
        ("require_attribution", JsonData::Boolean(true)),
    ])
}

#[test]
fn member_lookup() {
    let o = obj(vec![("a", num(true, 7, 0)), ("b", s("x")), ("c", JsonData::Boolean(true))]);
    assert!(matches!(get(&o, "a"), Some(JsonData::Number(_))));
    assert!(get(&o, "z").is_none());
    assert_eq!(get_u32(&o, "a"), Some(7));
    assert_eq!(get_u32(&o, "b"), None);
    assert_eq!(get_str(&o, "b"), Some("x"));
    assert_eq!(get_bool(&o, "c"), Some(true));
    assert_eq!(get_bool(&o, "a"), None);
}

#[test]
fn whole_numbers_only() {
    let o = obj(vec![
        ("neg", num(false, 7, 0)),
        ("frac", num(true, 75, -1)),
        ("big", num(true, 1 << 32, 0)),
        ("max", num(true, u32::MAX as u64, 0)),
    ]);
    assert_eq!(get_u32(&o, "neg"), None);
    assert_eq!(get_u32(&o, "frac"), None);
    assert_eq!(get_u32(&o, "big"), None);
    assert_eq!(get_u32(&o, "max"), Some(u32::MAX));
}

#[test]
fn usage_rights_from_json() {
    let r = deserialize_puppet_usage_rights(&rights()).unwrap();
    assert_eq!(r.allowed_users, PuppetAllowedUsers::Everyone);
    assert!(r.allow_violence);
    assert!(!r.allow_sexual);
    assert!(r.allow_commercial);
    assert_eq!(r.allow_redistribution, PuppetAllowedRedistribution::CopyleftLicense);
    assert_eq!(r.allow_modification, PuppetAllowedModification::AllowPersonal);
    assert!(r.require_attribution);

    let mut bad = rights();
    bad[0].1 = s("Nobody");
    assert!(deserialize_puppet_usage_rights(&bad).is_none());
    let mut missing = rights();
    missing.pop();
    assert!(deserialize_puppet_usage_rights(&missing).is_none());
}

#[test]
fn masks_from_json() {
    let m = deserialize_mask(&obj(vec![("source", num(true, 42, 0)), ("mode", s("Mask"))])).unwrap();
    assert_eq!(m.source, InoxNodeUuid(42));
    assert_eq!(m.mode, MaskMode::Mask);
    assert!(deserialize_mask(&obj(vec![("source", num(true, 42, 0)), ("mode", s("DodgeMask"))])).is_none());
    assert!(deserialize_mask(&obj(vec![("mode", s("Mask"))])).is_none());
}

#[test]
fn meta_from_json() {
    let meta = deserialize_puppet_meta(&obj(vec![
        ("name", s("Aka")),
        ("version", s("1.0-alpha")),
        ("artist", s("someone")),
        ("rights", JsonData::Object(rights())),
        ("thumbnailId", num(true, 3, 0)),
        ("licenseURL", num(true, 3, 0)),
        ("preservePixels", JsonData::Boolean(true)),
    ]))
    .unwrap();
    assert_eq!(meta.name.as_deref(), Some("Aka"));
    assert_eq!(meta.version, "1.0-alpha");
    assert_eq!(meta.artist.as_deref(), Some("someone"));
    assert!(meta.rigger.is_none());
    assert!(meta.license_url.is_none());
    assert_eq!(meta.thumbnail_id, Some(3));
    assert!(meta.preserve_pixels);
    assert_eq!(meta.rights.unwrap().allowed_users, PuppetAllowedUsers::Everyone);

    let unnamed = deserialize_puppet_meta(&obj(vec![
        ("version", s("1.0-alpha")),
        ("preservePixels", JsonData::Boolean(false)),
    ]))
    .unwrap();
    assert!(unnamed.name.is_none());
    assert_eq!(unnamed.version, "1.0-alpha");
    assert!(!unnamed.preserve_pixels);

    assert!(deserialize_puppet_meta(&obj(vec![("name", s("Aka")), ("preservePixels", JsonData::Boolean(true))])).is_none());
    assert!(deserialize_puppet_meta(&obj(vec![("version", s("1.0-alpha"))])).is_none());
    let no_rights = deserialize_puppet_meta(&obj(vec![
        ("version", s("1.0-alpha")),
        ("rights", s("all")),
        ("preservePixels", JsonData::Boolean(false)),
    ]))
    .unwrap();
    assert!(no_rights.rights.is_none());
}

#[test]
fn meta_of_puppet() {
    let puppet = JsonData::Object(obj(vec![(
        "meta",
        JsonData::Object(obj(vec![
            ("name", s("Midori")),
            ("version", s("1.0-alpha")),
            ("preservePixels", JsonData::Boolean(false)),
        ])),
    )]));
    let meta = deserialize_meta_of_puppet(&puppet).unwrap();
    assert_eq!(meta.version, "1.0-alpha");
    assert_eq!(meta.name.as_deref(), Some("Midori"));
    assert!(deserialize_meta_of_puppet(&JsonData::Array(vec![])).is_none());
    assert!(deserialize_meta_of_puppet(&JsonData::Object(vec![])).is_none());
}
