//! The puppet description as JSON data, and reading the parts of it that are whole
//! numbers, text and flags: the puppet meta information, usage rights and masks.

use vstd::prelude::*;

use crate::nodes::node::InoxNodeUuid;
use crate::nodes::node_data::{spec_mask_mode, Mask, MaskMode};
use crate::puppet::{
    spec_puppet_allowed_modification, spec_puppet_allowed_redistribution, spec_puppet_allowed_users, PuppetAllowedModification,
    PuppetAllowedRedistribution, PuppetAllowedUsers, PuppetMeta, PuppetUsageRights,
};
use crate::strings::str_eq;

verus! {

/// A JSON number as sign, decimal mantissa and decimal exponent:
/// `(if positive { 1 } else { -1 }) * mantissa * 10^exponent`. A NaN is not positive.
#[derive(Debug, Clone, Copy, PartialEq, Eq, Structural)]
pub struct JsonNumber {
    pub positive: bool,
    pub mantissa: u64,
    pub exponent: i16,
}

/// A JSON value. An object lists its members in order, each key once.
#[derive(Debug)]
pub enum JsonData {
    Null,
    Str(String),
    Number(JsonNumber),
    Boolean(bool),
    Object(Vec<(String, JsonData)>),
    Array(Vec<JsonData>),
}

#[verifier::external_type_specification]
#[verifier::external_body]
pub struct ExJsonValue(json::JsonValue);

#[verifier::external_type_specification]
#[verifier::external_body]
pub struct ExJsonError(json::Error);

/// The JSON data that the `json` crate's parser gives for a text, or `None` where the
/// text is not JSON it accepts.
pub uninterp spec fn json_parsed(text: Seq<char>) -> Option<JsonData>;

/// Converts a value of the `json` crate into the library's JSON data, variant for
/// variant. No contract: it only moves what the value holds into the library's type,
/// and what comes out is stated through `json_parsed` by `parse_json`.
#[verifier::external_body]
fn json_value_to_data(value: &json::JsonValue) -> JsonData {
    match value {
        json::JsonValue::Null => JsonData::Null,
        json::JsonValue::Short(s) => JsonData::Str(s.as_str().to_owned()),
        json::JsonValue::String(s) => JsonData::Str(s.clone()),
        json::JsonValue::Number(n) => {
            let (positive, mantissa, exponent) = n.as_parts();
            JsonData::Number(JsonNumber { positive, mantissa, exponent })
        },
        json::JsonValue::Boolean(b) => JsonData::Boolean(*b),
        json::JsonValue::Object(o) => JsonData::Object(o.iter().map(|(k, v)| (k.to_owned(), json_value_to_data(v))).collect()),
        json::JsonValue::Array(a) => JsonData::Array(a.iter().map(json_value_to_data).collect()),
    }
}

/// Calls `json::parse` on the text. The contract claims that the parse depends on the text
/// alone, so that its outcome is `json_parsed` of the text: it fails exactly where that is
/// `None`, and otherwise gives that data. What the parser accepts and what it builds are
/// left to the name.
#[verifier::external_body]
pub(crate) fn parse_json(text: &str) -> (r: Result<JsonData, json::Error>)
    ensures
        r is Ok <==> json_parsed(text@) is Some,
        r matches Ok(d) ==> json_parsed(text@) == Some(d),
{
    match json::parse(text) {
        Ok(v) => Ok(json_value_to_data(&v)),
        Err(e) => Err(e),
    }
}

/// The value of the first member of `obj` named `key`.
pub open spec fn lookup(obj: Seq<(String, JsonData)>, key: Seq<char>) -> Option<JsonData>
    decreases obj.len(),
{
    if obj.len() == 0 {
        None
    } else if obj[0].0@ == key {
        Some(obj[0].1)
    } else {
        lookup(obj.drop_first(), key)
    }
}

/// The text of a string value.
pub open spec fn json_str(v: Option<JsonData>) -> Option<Seq<char>> {
    match v {
        Some(JsonData::Str(s)) => Some(s@),
        _ => None,
    }
}

/// The flag of a boolean value.
pub open spec fn json_bool(v: Option<JsonData>) -> Option<bool> {
    match v {
        Some(JsonData::Boolean(b)) => Some(b),
        _ => None,
    }
}

/// The value of a number that is a whole, non-negative number without exponent and fits
/// in 32 bits.
pub open spec fn json_u32(v: Option<JsonData>) -> Option<u32> {
    match v {
        Some(JsonData::Number(n)) => if n.positive && n.exponent == 0 && n.mantissa <= u32::MAX {
            Some(n.mantissa as u32)
        } else {
            None
        },
        _ => None,
    }
}

/// The members of an object value.
pub open spec fn json_object(v: Option<JsonData>) -> Option<Seq<(String, JsonData)>> {
    match v {
        Some(JsonData::Object(o)) => Some(o@),
        _ => None,
    }
}

/// The value of the first member of `obj` named `key`.
pub fn get<'a>(obj: &'a [(String, JsonData)], key: &str) -> (r: Option<&'a JsonData>)
    ensures
        match r {
            Some(v) => lookup(obj@, key@) == Some(*v),
            None => lookup(obj@, key@) is None,
        },
{
    let mut i: usize = 0;
    assert(obj@.skip(0) =~= obj@);
    while i < obj.len()
        invariant
            i <= obj@.len(),
            lookup(obj@, key@) == lookup(obj@.skip(i as int), key@),
        decreases obj@.len() - i,
    {
        assert(obj@.skip(i as int).drop_first() =~= obj@.skip(i + 1));
        if str_eq(obj[i].0.as_str(), key) {
            return Some(&obj[i].1);
        }
        i = i + 1;
    }
    None
}

/// The text of the member named `key`, if it is a string.
pub fn get_str<'a>(obj: &'a [(String, JsonData)], key: &str) -> (r: Option<&'a str>)
    ensures
        match r {
            Some(s) => json_str(lookup(obj@, key@)) == Some(s@),
            None => json_str(lookup(obj@, key@)) is None,
        },
{
    match get(obj, key) {
        Some(JsonData::Str(s)) => Some(s.as_str()),
        _ => None,
    }
}

/// The flag of the member named `key`, if it is a boolean.
pub fn get_bool(obj: &[(String, JsonData)], key: &str) -> (r: Option<bool>)
    ensures
        r == json_bool(lookup(obj@, key@)),
{
    match get(obj, key) {
        Some(JsonData::Boolean(b)) => Some(*b),
        _ => None,
    }
}

/// The number of the member named `key`, if it is a whole number that fits in 32 bits.
pub fn get_u32(obj: &[(String, JsonData)], key: &str) -> (r: Option<u32>)
    ensures
        r == json_u32(lookup(obj@, key@)),
{
    match get(obj, key) {
        Some(JsonData::Number(n)) => {
            if n.positive && n.exponent == 0 && n.mantissa <= 0xffff_ffffu64 {
                Some(n.mantissa as u32)
            } else {
                None
            }
        },
        _ => None,
    }
}

/// The members of the member named `key`, if it is an object.
pub fn get_object<'a>(obj: &'a [(String, JsonData)], key: &str) -> (r: Option<&'a [(String, JsonData)]>)
    ensures
        match r {
            Some(o) => json_object(lookup(obj@, key@)) == Some(o@),
            None => json_object(lookup(obj@, key@)) is None,
        },
{
    match get(obj, key) {
        Some(JsonData::Object(o)) => Some(o.as_slice()),
        _ => None,
    }
}

/// The usage rights that an object describes, or `None` where a member is missing, has
/// the wrong type or names no known value.
pub open spec fn spec_usage_rights(obj: Seq<(String, JsonData)>) -> Option<PuppetUsageRights> {
    let users = match json_str(lookup(obj, "allowed_users"@)) {
        Some(s) => spec_puppet_allowed_users(s),
        None => None,
    };
    let redistribution = match json_str(lookup(obj, "allow_redistribution"@)) {
        Some(s) => spec_puppet_allowed_redistribution(s),
        None => None,
    };
    let modification = match json_str(lookup(obj, "allow_modification"@)) {
        Some(s) => spec_puppet_allowed_modification(s),
        None => None,
    };
    let violence = json_bool(lookup(obj, "allow_violence"@));
    let sexual = json_bool(lookup(obj, "allow_sexual"@));
    let commercial = json_bool(lookup(obj, "allow_commercial"@));
    let attribution = json_bool(lookup(obj, "require_attribution"@));
    if users is Some && violence is Some && sexual is Some && commercial is Some && redistribution is Some
        && modification is Some && attribution is Some {
        Some(
            PuppetUsageRights {
                allowed_users: users.unwrap(),
                allow_violence: violence.unwrap(),
                allow_sexual: sexual.unwrap(),
                allow_commercial: commercial.unwrap(),
                allow_redistribution: redistribution.unwrap(),
                allow_modification: modification.unwrap(),
                require_attribution: attribution.unwrap(),
            },
        )
    } else {
        None
    }
}

/// Each usage right of `u` is the member of `obj` of the same name: each flag the boolean
/// of its member, each kind the value that its member's text names.
pub open spec fn usage_rights_read_from(u: PuppetUsageRights, obj: Seq<(String, JsonData)>) -> bool {
    &&& json_bool(lookup(obj, "allow_violence"@)) == Some(u.allow_violence)
    &&& json_bool(lookup(obj, "allow_sexual"@)) == Some(u.allow_sexual)
    &&& json_bool(lookup(obj, "allow_commercial"@)) == Some(u.allow_commercial)
    &&& json_bool(lookup(obj, "require_attribution"@)) == Some(u.require_attribution)
    &&& json_str(lookup(obj, "allowed_users"@)) matches Some(t) && spec_puppet_allowed_users(t) == Some(
        u.allowed_users,
    )
    &&& json_str(lookup(obj, "allow_redistribution"@)) matches Some(t) && spec_puppet_allowed_redistribution(t)
        == Some(u.allow_redistribution)
    &&& json_str(lookup(obj, "allow_modification"@)) matches Some(t) && spec_puppet_allowed_modification(t) == Some(
        u.allow_modification,
    )
}

/// Usage rights are read exactly when every right is there: each flag a boolean and each
/// kind a known name. Then each right is the member of the same name.
pub proof fn lemma_usage_rights_members(obj: Seq<(String, JsonData)>)
    ensures
        spec_usage_rights(obj) is Some <==> (exists|u: PuppetUsageRights| usage_rights_read_from(u, obj)),
        spec_usage_rights(obj) matches Some(u) ==> usage_rights_read_from(u, obj),
        forall|u: PuppetUsageRights|
            usage_rights_read_from(u, obj) ==> spec_usage_rights(obj) == Some(u),
{
    if let Some(u) = spec_usage_rights(obj) {
        assert(usage_rights_read_from(u, obj));
    }
}

/// Reads the usage rights of a puppet from their JSON object.
pub fn deserialize_puppet_usage_rights(obj: &[(String, JsonData)]) -> (r: Option<PuppetUsageRights>)
    ensures
        r == spec_usage_rights(obj@),
        r matches Some(u) ==> usage_rights_read_from(u, obj@),
{
    proof {
        lemma_usage_rights_members(obj@);
    }
    let allowed_users = match get_str(obj, "allowed_users") {
        Some(s) => match PuppetAllowedUsers::try_from(s) {
            Ok(u) => u,
            Err(_) => return None,
        },
        None => return None,
    };
    let allow_violence = get_bool(obj, "allow_violence")?;
    let allow_sexual = get_bool(obj, "allow_sexual")?;
    let allow_commercial = get_bool(obj, "allow_commercial")?;
    let allow_redistribution = match get_str(obj, "allow_redistribution") {
        Some(s) => match PuppetAllowedRedistribution::try_from(s) {
            Ok(u) => u,
            Err(_) => return None,
        },
        None => return None,
    };
    let allow_modification = match get_str(obj, "allow_modification") {
        Some(s) => match PuppetAllowedModification::try_from(s) {
            Ok(u) => u,
            Err(_) => return None,
        },
        None => return None,
    };
    let require_attribution = get_bool(obj, "require_attribution")?;
    Some(
        PuppetUsageRights {
            allowed_users,
            allow_violence,
            allow_sexual,
            allow_commercial,
            allow_redistribution,
            allow_modification,
            require_attribution,
        },
    )
}

/// The mask that an object describes, or `None` where a member is missing or wrong.
pub open spec fn spec_mask(obj: Seq<(String, JsonData)>) -> Option<Mask> {
    match (json_u32(lookup(obj, "source"@)), json_str(lookup(obj, "mode"@))) {
        (Some(source), Some(mode)) => match spec_mask_mode(mode) {
            Some(m) => Some(Mask { source: InoxNodeUuid(source), mode: m }),
            None => None,
        },
        _ => None,
    }
}

/// Reads a mask from its JSON object.
pub fn deserialize_mask(obj: &[(String, JsonData)]) -> (r: Option<Mask>)
    ensures
        r == spec_mask(obj@),
{
    let source = get_u32(obj, "source")?;
    let mode = match get_str(obj, "mode") {
        Some(s) => match MaskMode::try_from(s) {
            Ok(m) => m,
            Err(_) => return None,
        },
        None => return None,
    };
    Some(Mask { source: InoxNodeUuid(source), mode })
}

/// The text of an optional string field.
pub open spec fn opt_field(v: Option<String>) -> Option<Seq<char>> {
    match v {
        Some(s) => Some(s@),
        None => None,
    }
}

/// Whether `m` is the meta information that object `obj` describes: optional texts and
/// thumbnail where present and of the right type, usage rights where present and valid,
/// the version text of the `version` member, and the pixel flag.
pub open spec fn meta_matches(m: PuppetMeta, obj: Seq<(String, JsonData)>) -> bool {
    &&& opt_field(m.name) == json_str(lookup(obj, "name"@))
    &&& Some(m.version@) == json_str(lookup(obj, "version"@))
    &&& opt_field(m.rigger) == json_str(lookup(obj, "rigger"@))
    &&& opt_field(m.artist) == json_str(lookup(obj, "artist"@))
    &&& m.rights == (match json_object(lookup(obj, "rights"@)) {
        Some(o) => spec_usage_rights(o),
        None => None,
    })
    &&& opt_field(m.copyright) == json_str(lookup(obj, "copyright"@))
    &&& opt_field(m.license_url) == json_str(lookup(obj, "licenseURL"@))
    &&& opt_field(m.contact) == json_str(lookup(obj, "contact"@))
    &&& opt_field(m.reference) == json_str(lookup(obj, "reference"@))
    &&& m.thumbnail_id == json_u32(lookup(obj, "thumbnailId"@))
    &&& Some(m.preserve_pixels) == json_bool(lookup(obj, "preservePixels"@))
}

/// Read meta information holds each member of the meta object under its own name: the
/// name, rigger, artist, copyright, licence URL, contact and reference are the texts of
/// the members of those names (none where a member is missing or not text), the version
/// is the text of `version`, the thumbnail the whole number under `thumbnailId`, and the
/// pixel flag the boolean under `preservePixels`.
pub proof fn lemma_meta_members(m: PuppetMeta, obj: Seq<(String, JsonData)>)
    requires
        meta_matches(m, obj),
    ensures
        json_str(lookup(obj, "name"@)) == opt_field(m.name),
        json_str(lookup(obj, "version"@)) == Some(m.version@),
        json_str(lookup(obj, "rigger"@)) == opt_field(m.rigger),
        json_str(lookup(obj, "artist"@)) == opt_field(m.artist),
        json_str(lookup(obj, "copyright"@)) == opt_field(m.copyright),
        json_str(lookup(obj, "licenseURL"@)) == opt_field(m.license_url),
        json_str(lookup(obj, "contact"@)) == opt_field(m.contact),
        json_str(lookup(obj, "reference"@)) == opt_field(m.reference),
        json_u32(lookup(obj, "thumbnailId"@)) == m.thumbnail_id,
        json_bool(lookup(obj, "preservePixels"@)) == Some(m.preserve_pixels),
        m.rights matches Some(u) ==> usage_rights_read_from(u, json_object(lookup(obj, "rights"@)).unwrap()),
{
    if let Some(o) = json_object(lookup(obj, "rights"@)) {
        lemma_usage_rights_members(o);
    }
}

fn owned(s: Option<&str>) -> (r: Option<String>)
    ensures
        opt_field(r) == match s {
            Some(x) => Some(x@),
            None => None,
        },
{
    match s {
        Some(x) => Some(x.to_owned()),
        None => None,
    }
}

/// Whether a meta object has the members that meta information needs: the `version` of
/// the Inochi2D specification as text, and the `preservePixels` flag.
pub open spec fn meta_complete(obj: Seq<(String, JsonData)>) -> bool {
    json_str(lookup(obj, "version"@)) is Some && json_bool(lookup(obj, "preservePixels"@)) is Some
}

/// Reads the meta information of a puppet from its JSON object. It needs the `version`
/// text and the `preservePixels` flag; every other member, the name among them, is
/// optional.
pub fn deserialize_puppet_meta(obj: &[(String, JsonData)]) -> (r: Option<PuppetMeta>)
    ensures
        r is Some <==> meta_complete(obj@),
        r matches Some(m) ==> meta_matches(m, obj@),
{
    let name = owned(get_str(obj, "name"));
    let version = get_str(obj, "version")?.to_owned();
    let rigger = owned(get_str(obj, "rigger"));
    let artist = owned(get_str(obj, "artist"));
    let rights = match get_object(obj, "rights") {
        Some(o) => deserialize_puppet_usage_rights(o),
        None => None,
    };
    let copyright = owned(get_str(obj, "copyright"));
    let license_url = owned(get_str(obj, "licenseURL"));
    let contact = owned(get_str(obj, "contact"));
    let reference = owned(get_str(obj, "reference"));
    let thumbnail_id = get_u32(obj, "thumbnailId");
    let preserve_pixels = get_bool(obj, "preservePixels")?;
    Some(
        PuppetMeta {
            name,
            version,
            rigger,
            artist,
            rights,
            copyright,
            license_url,
            contact,
            reference,
            thumbnail_id,
            preserve_pixels,
        },
    )
}

/// Reads the meta information of a puppet description: the object under its `meta` member.
pub fn deserialize_meta_of_puppet(puppet: &JsonData) -> (r: Option<PuppetMeta>)
    ensures
        r is Some <==> puppet_meta_complete(*puppet),
        r matches Some(m) ==> puppet_meta_matches(m, *puppet),
{
    match puppet {
        JsonData::Object(o) => match get_object(o.as_slice(), "meta") {
            Some(meta) => deserialize_puppet_meta(meta),
            None => None,
        },
        _ => None,
    }
}

/// Whether a puppet description has a `meta` object with the members that meta
/// information needs.
pub open spec fn puppet_meta_complete(puppet: JsonData) -> bool {
    match puppet {
        JsonData::Object(o) => match json_object(lookup(o@, "meta"@)) {
            Some(meta) => meta_complete(meta),
            None => false,
        },
        _ => false,
    }
}

/// Whether `m` is the meta information under the `meta` member of a puppet description.
pub open spec fn puppet_meta_matches(m: PuppetMeta, puppet: JsonData) -> bool {
    match puppet {
        JsonData::Object(o) => match json_object(lookup(o@, "meta"@)) {
            Some(meta) => meta_matches(m, meta),
            None => false,
        },
        _ => false,
    }
}

} // verus!
