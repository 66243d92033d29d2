//! Metadata of a puppet: usage rights, authorship and the interpolation of its parameters.

use vstd::prelude::*;

pub mod stages;

use crate::strings::str_eq;
use vstd::string::StrSliceExecFns;

verus! {

/// Version of the Inochi2D specification that this library follows.
pub const INOCHI2D_SPEC_VERSION: &'static str = "1.0-alpha";

/// Who is allowed to use the puppet?
#[derive(Clone, Copy, Debug, PartialEq, Eq, Structural)]
pub enum PuppetAllowedUsers {
    /// Only the author(s) are allowed to use the puppet.
    OnlyAuthor,
    /// Only licensee(s) are allowed to use the puppet.
    OnlyLicensee,
    /// Everyone may use the model.
    Everyone,
}

impl Default for PuppetAllowedUsers {
    fn default() -> (r: Self)
        ensures
            r == PuppetAllowedUsers::OnlyAuthor,
    {
        PuppetAllowedUsers::OnlyAuthor
    }
}

/// An allowed-users name that no `PuppetAllowedUsers` has.
#[derive(Debug, Clone)]
pub struct UnknownPuppetAllowedUsersError(pub String);

/// The value whose name is `name`, if any.
pub open spec fn spec_puppet_allowed_users(name: Seq<char>) -> Option<PuppetAllowedUsers> {
    if name == "OnlyAuthor"@ {
        Some(PuppetAllowedUsers::OnlyAuthor)
    } else if name == "OnlyLicensee"@ {
        Some(PuppetAllowedUsers::OnlyLicensee)
    } else if name == "Everyone"@ {
        Some(PuppetAllowedUsers::Everyone)
    } else {
        None
    }
}

impl TryFrom<&str> for PuppetAllowedUsers {
    type Error = UnknownPuppetAllowedUsersError;

    fn try_from(value: &str) -> (res: Result<Self, Self::Error>)
        ensures
            match spec_puppet_allowed_users(value@) {
                Some(m) => res == Ok::<PuppetAllowedUsers, UnknownPuppetAllowedUsersError>(m),
                None => res matches Err(e) && e.0@ == value@,
            },
    {
        if str_eq(value, "OnlyAuthor") {
            Ok(PuppetAllowedUsers::OnlyAuthor)
        } else if str_eq(value, "OnlyLicensee") {
            Ok(PuppetAllowedUsers::OnlyLicensee)
        } else if str_eq(value, "Everyone") {
            Ok(PuppetAllowedUsers::Everyone)
        } else {
            Err(UnknownPuppetAllowedUsersError(value.to_owned()))
        }
    }
}

impl vstd::std_specs::convert::TryFromSpecImpl<&str> for PuppetAllowedUsers {
    open spec fn obeys_try_from_spec() -> bool {
        false
    }

    open spec fn try_from_spec(value: &str) -> Result<Self, Self::Error> {
        arbitrary()
    }
}

impl PuppetAllowedUsers {
    /// The text that describes the value to a reader.
    pub fn display_name(&self) -> (r: &'static str)
        ensures
            r@ == spec_display_puppet_allowed_users(*self)@,
    {
        match self {
            PuppetAllowedUsers::OnlyAuthor => "only author",
            PuppetAllowedUsers::OnlyLicensee => "only licensee",
            PuppetAllowedUsers::Everyone => "Everyone",
        }
    }
}

pub open spec fn spec_display_puppet_allowed_users(v: PuppetAllowedUsers) -> &'static str {
    match v {
        PuppetAllowedUsers::OnlyAuthor => "only author",
        PuppetAllowedUsers::OnlyLicensee => "only licensee",
        PuppetAllowedUsers::Everyone => "Everyone",
    }
}

/// Can the puppet be redistributed?
#[derive(Clone, Copy, Debug, PartialEq, Eq, Structural)]
pub enum PuppetAllowedRedistribution {
    /// Redistribution is prohibited
    Prohibited,
    /// Redistribution is allowed, but only under the same license
    /// as the source puppet.
    ViralLicense,
    /// Redistribution is allowed, and the puppet may be
    /// redistributed under a different license than the source puppet.
    /// 
    /// This goes in conjunction with modification rights.
    CopyleftLicense,
}

impl Default for PuppetAllowedRedistribution {
    fn default() -> (r: Self)
        ensures
            r == PuppetAllowedRedistribution::Prohibited,
    {
        PuppetAllowedRedistribution::Prohibited
    }
}

/// A redistribution name that no `PuppetAllowedRedistribution` has.
#[derive(Debug, Clone)]
pub struct UnknownPuppetAllowedRedistributionError(pub String);

/// The value whose name is `name`, if any.
pub open spec fn spec_puppet_allowed_redistribution(name: Seq<char>) -> Option<PuppetAllowedRedistribution> {
    if name == "Prohibited"@ {
        Some(PuppetAllowedRedistribution::Prohibited)
    } else if name == "ViralLicense"@ {
        Some(PuppetAllowedRedistribution::ViralLicense)
    } else if name == "CopyleftLicense"@ {
        Some(PuppetAllowedRedistribution::CopyleftLicense)
    } else {
        None
    }
}

impl TryFrom<&str> for PuppetAllowedRedistribution {
    type Error = UnknownPuppetAllowedRedistributionError;

    fn try_from(value: &str) -> (res: Result<Self, Self::Error>)
        ensures
            match spec_puppet_allowed_redistribution(value@) {
                Some(m) => res == Ok::<PuppetAllowedRedistribution, UnknownPuppetAllowedRedistributionError>(m),
                None => res matches Err(e) && e.0@ == value@,
            },
    {
        if str_eq(value, "Prohibited") {
            Ok(PuppetAllowedRedistribution::Prohibited)
        } else if str_eq(value, "ViralLicense") {
            Ok(PuppetAllowedRedistribution::ViralLicense)
        } else if str_eq(value, "CopyleftLicense") {
            Ok(PuppetAllowedRedistribution::CopyleftLicense)
        } else {
            Err(UnknownPuppetAllowedRedistributionError(value.to_owned()))
        }
    }
}

impl vstd::std_specs::convert::TryFromSpecImpl<&str> for PuppetAllowedRedistribution {
    open spec fn obeys_try_from_spec() -> bool {
        false
    }

    open spec fn try_from_spec(value: &str) -> Result<Self, Self::Error> {
        arbitrary()
    }
}

impl PuppetAllowedRedistribution {
    /// The text that describes the value to a reader.
    pub fn display_name(&self) -> (r: &'static str)
        ensures
            r@ == spec_display_puppet_allowed_redistribution(*self)@,
    {
        match self {
            PuppetAllowedRedistribution::Prohibited => "prohibited",
            PuppetAllowedRedistribution::ViralLicense => "viral license",
            PuppetAllowedRedistribution::CopyleftLicense => "copyleft license",
        }
    }
}

pub open spec fn spec_display_puppet_allowed_redistribution(v: PuppetAllowedRedistribution) -> &'static str {
    match v {
        PuppetAllowedRedistribution::Prohibited => "prohibited",
        PuppetAllowedRedistribution::ViralLicense => "viral license",
        PuppetAllowedRedistribution::CopyleftLicense => "copyleft license",
    }
}

/// Can the puppet be modified?
#[derive(Clone, Copy, Debug, PartialEq, Eq, Structural)]
pub enum PuppetAllowedModification {
    /// Modification is prohibited
    Prohibited,
    /// Modification is only allowed for personal use
    AllowPersonal,
    /// Modification is allowed with redistribution, see
    /// `allowed_redistribution` for redistribution terms.
    AllowRedistribute,
}

impl Default for PuppetAllowedModification {
    fn default() -> (r: Self)
        ensures
            r == PuppetAllowedModification::Prohibited,
    {
        PuppetAllowedModification::Prohibited
    }
}

/// A modification name that no `PuppetAllowedModification` has.
#[derive(Debug, Clone)]
pub struct UnknownPuppetAllowedModificationError(pub String);

/// The value whose name is `name`, if any.
pub open spec fn spec_puppet_allowed_modification(name: Seq<char>) -> Option<PuppetAllowedModification> {
    if name == "Prohibited"@ {
        Some(PuppetAllowedModification::Prohibited)
    } else if name == "AllowPersonal"@ {
        Some(PuppetAllowedModification::AllowPersonal)
    } else if name == "AllowRedistribute"@ {
        Some(PuppetAllowedModification::AllowRedistribute)
    } else {
        None
    }
}

impl TryFrom<&str> for PuppetAllowedModification {
    type Error = UnknownPuppetAllowedModificationError;

    fn try_from(value: &str) -> (res: Result<Self, Self::Error>)
        ensures
            match spec_puppet_allowed_modification(value@) {
                Some(m) => res == Ok::<PuppetAllowedModification, UnknownPuppetAllowedModificationError>(m),
                None => res matches Err(e) && e.0@ == value@,
            },
    {
        if str_eq(value, "Prohibited") {
            Ok(PuppetAllowedModification::Prohibited)
        } else if str_eq(value, "AllowPersonal") {
            Ok(PuppetAllowedModification::AllowPersonal)
        } else if str_eq(value, "AllowRedistribute") {
            Ok(PuppetAllowedModification::AllowRedistribute)
        } else {
            Err(UnknownPuppetAllowedModificationError(value.to_owned()))
        }
    }
}

impl vstd::std_specs::convert::TryFromSpecImpl<&str> for PuppetAllowedModification {
    open spec fn obeys_try_from_spec() -> bool {
        false
    }

    open spec fn try_from_spec(value: &str) -> Result<Self, Self::Error> {
        arbitrary()
    }
}

impl PuppetAllowedModification {
    /// The text that describes the value to a reader.
    pub fn display_name(&self) -> (r: &'static str)
        ensures
            r@ == spec_display_puppet_allowed_modification(*self)@,
    {
        match self {
            PuppetAllowedModification::Prohibited => "prohibited",
            PuppetAllowedModification::AllowPersonal => "allow personal",
            PuppetAllowedModification::AllowRedistribute => "allow redistribute",
        }
    }
}

pub open spec fn spec_display_puppet_allowed_modification(v: PuppetAllowedModification) -> &'static str {
    match v {
        PuppetAllowedModification::Prohibited => "prohibited",
        PuppetAllowedModification::AllowPersonal => "allow personal",
        PuppetAllowedModification::AllowRedistribute => "allow redistribute",
    }
}

/// How a parameter binding interpolates between its points.
#[derive(Clone, Copy, Debug, PartialEq, Eq, Structural)]
pub enum InterpolateMode {
    /// Linear interpolation.
    Linear,
}

/// An interpolation name that no `InterpolateMode` has.
#[derive(Debug, Clone)]
pub struct UnknownInterpolateModeError(pub String);

/// The value whose name is `name`, if any.
pub open spec fn spec_interpolate_mode(name: Seq<char>) -> Option<InterpolateMode> {
    if name == "Linear"@ {
        Some(InterpolateMode::Linear)
    } else {
        None
    }
}

impl TryFrom<&str> for InterpolateMode {
    type Error = UnknownInterpolateModeError;

    fn try_from(value: &str) -> (res: Result<Self, Self::Error>)
        ensures
            match spec_interpolate_mode(value@) {
                Some(m) => res == Ok::<InterpolateMode, UnknownInterpolateModeError>(m),
                None => res matches Err(e) && e.0@ == value@,
            },
    {
        if str_eq(value, "Linear") {
            Ok(InterpolateMode::Linear)
        } else {
            Err(UnknownInterpolateModeError(value.to_owned()))
        }
    }
}

impl vstd::std_specs::convert::TryFromSpecImpl<&str> for InterpolateMode {
    open spec fn obeys_try_from_spec() -> bool {
        false
    }

    open spec fn try_from_spec(value: &str) -> Result<Self, Self::Error> {
        arbitrary()
    }
}

/// Terms of usage of the puppet.
#[derive(Clone, Debug)]
pub struct PuppetUsageRights {
    /// Who is allowed to use the puppet?
    pub allowed_users: PuppetAllowedUsers,
    /// Whether violence content is allowed.
    pub allow_violence: bool,
    /// Whether sexual content is allowed.
    pub allow_sexual: bool,
    /// Whether commercial use is allowed.
    pub allow_commercial: bool,
    /// Whether a model may be redistributed.
    pub allow_redistribution: PuppetAllowedRedistribution,
    /// Whether a model may be modified.
    pub allow_modification: PuppetAllowedModification,
    /// Whether the author(s) must be attributed for use.
    pub require_attribution: bool,
}

impl Default for PuppetUsageRights {
    fn default() -> (r: Self)
        ensures
            r.allowed_users == PuppetAllowedUsers::OnlyAuthor,
            !r.allow_violence,
            !r.allow_sexual,
            !r.allow_commercial,
            r.allow_redistribution == PuppetAllowedRedistribution::Prohibited,
            r.allow_modification == PuppetAllowedModification::Prohibited,
            !r.require_attribution,
    {
        PuppetUsageRights {
            allowed_users: PuppetAllowedUsers::default(),
            allow_violence: false,
            allow_sexual: false,
            allow_commercial: false,
            allow_redistribution: PuppetAllowedRedistribution::default(),
            allow_modification: PuppetAllowedModification::default(),
            require_attribution: false,
        }
    }
}

pub open spec fn spec_allowed_bool(value: bool) -> &'static str {
    if value {
        "allowed"
    } else {
        "prohibited"
    }
}

/// The word that describes a permission.
pub fn allowed_bool(value: bool) -> (r: &'static str)
    ensures
        r@ == spec_allowed_bool(value)@,
{
    if value {
        "allowed"
    } else {
        "prohibited"
    }
}

pub open spec fn spec_attribution_text(required: bool) -> &'static str {
    if required {
        "required"
    } else {
        "not required"
    }
}

/// The lines that describe the usage rights to a reader.
pub open spec fn spec_usage_rights_text(r: PuppetUsageRights) -> Seq<char> {
    "| allowed users:  "@ + spec_display_puppet_allowed_users(r.allowed_users)@ + "\n"@
        + "| violence:       "@ + spec_allowed_bool(r.allow_violence)@ + "\n"@
        + "| sexual:         "@ + spec_allowed_bool(r.allow_sexual)@ + "\n"@
        + "| commercial:     "@ + spec_allowed_bool(r.allow_commercial)@ + "\n"@
        + "| redistribution: "@ + spec_display_puppet_allowed_redistribution(r.allow_redistribution)@
        + "\n"@ + "| modification:   "@ + spec_display_puppet_allowed_modification(r.allow_modification)@
        + "\n"@ + "| attribution: "@ + spec_attribution_text(r.require_attribution)@ + "\n"@
}

impl PuppetUsageRights {
    /// The usage rights as text, one line per right.
    pub fn to_display_string(&self) -> (s: String)
        ensures
            s@ == spec_usage_rights_text(*self),
    {
        let mut s = String::new();
        s.append("| allowed users:  ");
        s.append(self.allowed_users.display_name());
        s.append("\n");
        s.append("| violence:       ");
        s.append(allowed_bool(self.allow_violence));
        s.append("\n");
        s.append("| sexual:         ");
        s.append(allowed_bool(self.allow_sexual));
        s.append("\n");
        s.append("| commercial:     ");
        s.append(allowed_bool(self.allow_commercial));
        s.append("\n");
        s.append("| redistribution: ");
        s.append(self.allow_redistribution.display_name());
        s.append("\n");
        s.append("| modification:   ");
        s.append(self.allow_modification.display_name());
        s.append("\n");
        s.append("| attribution: ");
        s.append(if self.require_attribution {
            "required"
        } else {
            "not required"
        });
        s.append("\n");
        s
    }
}

/// Puppet meta information.
#[derive(Clone, Debug)]
pub struct PuppetMeta {
    /// Name of the puppet.
    pub name: Option<String>,
    /// Version of the Inochi2D spec that was used when creating this model.
    pub version: String,
    /// Rigger(s) of the puppet.
    pub rigger: Option<String>,
    /// Artist(s) of the puppet.
    pub artist: Option<String>,
    /// Usage Rights of the puppet.
    pub rights: Option<PuppetUsageRights>,
    /// Copyright string.
    pub copyright: Option<String>,
    /// URL of the license.
    pub license_url: Option<String>,
    /// Contact information of the first author.
    pub contact: Option<String>,
    /// Link to the origin of this puppet.
    pub reference: Option<String>,
    /// Texture ID of this puppet's thumbnail.
    pub thumbnail_id: Option<u32>,
    /// Whether the puppet should preserve pixel borders.
    /// This feature is mainly useful for puppets that use pixel art.
    pub preserve_pixels: bool,
}

impl Default for PuppetMeta {
    fn default() -> (r: Self)
        ensures
            r.name is None,
            r.version@ == INOCHI2D_SPEC_VERSION@,
            r.rigger is None,
            r.artist is None,
            r.rights is None,
            r.copyright is None,
            r.license_url is None,
            r.contact is None,
            r.reference is None,
            r.thumbnail_id is None,
            !r.preserve_pixels,
    {
        PuppetMeta {
            name: None,
            version: INOCHI2D_SPEC_VERSION.to_owned(),
            rigger: None,
            artist: None,
            rights: None,
            copyright: None,
            license_url: None,
            contact: None,
            reference: None,
            thumbnail_id: None,
            preserve_pixels: false,
        }
    }
}

/// Identifier of a loaded puppet.
#[derive(Clone, Copy, Debug, PartialEq, Eq, Structural)]
pub struct PuppetId(pub usize);

/// The width, in characters, that field labels are padded to.
pub const LABEL_WIDTH: usize = 17;

/// `n` spaces.
pub open spec fn spaces(n: int) -> Seq<char>
    decreases n,
{
    if n <= 0 {
        Seq::empty()
    } else {
        spaces(n - 1).push(' ')
    }
}

/// `field_name` followed by a colon, padded with spaces to `LABEL_WIDTH` characters.
pub open spec fn field_label(field_name: Seq<char>) -> Seq<char> {
    let l = field_name + ":"@;
    l + spaces(LABEL_WIDTH - l.len())
}

/// The line that describes a field whose value is `value`, if it has one.
pub open spec fn field_line(field_name: Seq<char>, value: Option<Seq<char>>) -> Seq<char> {
    match value {
        Some(v) => field_label(field_name) + v + "\n"@,
        None => Seq::empty(),
    }
}

/// The decimal digit `d`.
pub open spec fn digit_text(d: int) -> Seq<char> {
    if d == 0 {
        "0"@
    } else if d == 1 {
        "1"@
    } else if d == 2 {
        "2"@
    } else if d == 3 {
        "3"@
    } else if d == 4 {
        "4"@
    } else if d == 5 {
        "5"@
    } else if d == 6 {
        "6"@
    } else if d == 7 {
        "7"@
    } else if d == 8 {
        "8"@
    } else {
        "9"@
    }
}

/// `n` in decimal, without leading zeros.
pub open spec fn decimal_text(n: nat) -> Seq<char>
    decreases n,
{
    if n < 10 {
        digit_text(n as int)
    } else {
        decimal_text(n / 10) + digit_text((n % 10) as int)
    }
}

pub open spec fn opt_text(v: Option<String>) -> Option<Seq<char>> {
    match v {
        Some(s) => Some(s@),
        None => None,
    }
}

/// The first lines that describe the puppet meta information: name, version, rigger, artist.
pub open spec fn meta_head_text(m: PuppetMeta) -> Seq<char> {
    let name = match m.name {
        Some(n) => field_line("Name"@, Some(n@)),
        None => "(No Name)"@ + "\n"@,
    };
    name + field_line("Version"@, Some(m.version@)) + field_line("Rigger"@, opt_text(m.rigger)) + field_line(
        "Artist"@,
        opt_text(m.artist),
    )
}

/// The usage rights under their heading, if the puppet states them.
pub open spec fn meta_rights_text(m: PuppetMeta) -> Seq<char> {
    match m.rights {
        Some(r) => "Rights:"@ + "\n"@ + spec_usage_rights_text(r) + "\n"@,
        None => Seq::empty(),
    }
}

/// The lines about copyright, license, contact and reference.
pub open spec fn meta_links_text(m: PuppetMeta) -> Seq<char> {
    field_line("Copyright"@, opt_text(m.copyright)) + field_line("License URL"@, opt_text(m.license_url))
        + field_line("Contact"@, opt_text(m.contact)) + field_line("Reference"@, opt_text(m.reference))
}

/// The last lines: thumbnail and pixel preservation.
pub open spec fn meta_tail_text(m: PuppetMeta) -> Seq<char> {
    let thumbnail = match m.thumbnail_id {
        Some(id) => Some(decimal_text(id as nat)),
        None => None,
    };
    field_line("Thumbnail ID"@, thumbnail) + field_line(
        "Preserve pixels"@,
        Some(
            if m.preserve_pixels {
                "yes"@
            } else {
                "no"@
            },
        ),
    )
}

/// The lines that describe the puppet meta information to a reader.
pub open spec fn spec_meta_text(m: PuppetMeta) -> Seq<char> {
    meta_head_text(m) + meta_rights_text(m) + meta_links_text(m) + meta_tail_text(m)
}

fn digit_str(d: u32) -> (r: &'static str)
    requires
        d < 10,
    ensures
        r@ == digit_text(d as int),
{
    if d == 0 {
        "0"
    } else if d == 1 {
        "1"
    } else if d == 2 {
        "2"
    } else if d == 3 {
        "3"
    } else if d == 4 {
        "4"
    } else if d == 5 {
        "5"
    } else if d == 6 {
        "6"
    } else if d == 7 {
        "7"
    } else if d == 8 {
        "8"
    } else {
        "9"
    }
}

fn append_decimal(s: &mut String, n: u32)
    ensures
        final(s)@ == old(s)@ + decimal_text(n as nat),
    decreases n,
{
    if n >= 10 {
        append_decimal(s, n / 10);
    }
    s.append(digit_str(n % 10));
    assert(final(s)@ =~= old(s)@ + decimal_text(n as nat));
}

fn append_label(s: &mut String, field_name: &str)
    ensures
        final(s)@ == old(s)@ + field_label(field_name@),
{
    s.append(field_name);
    s.append(":");
    let n = field_name.unicode_len();
    proof {
        reveal_strlit(":");
        reveal_strlit(" ");
    }
    let ghost label = field_name@ + ":"@;
    let ghost start = old(s)@;
    assert(spaces(0) =~= Seq::<char>::empty());
    assert(s@ =~= start + label + spaces(0));
    if n < LABEL_WIDTH - 1 {
        let used = n + 1;
        let mut k: usize = used;
        while k < LABEL_WIDTH
            invariant
                used == label.len(),
                used <= k <= LABEL_WIDTH,
                s@ == start + label + spaces(k - used),
                " "@ == seq![' '],
            decreases LABEL_WIDTH - k,
        {
            s.append(" ");
            k = k + 1;
            assert(s@ =~= start + label + spaces(k - used));
        }
    } else {
        assert(spaces(LABEL_WIDTH - label.len()) =~= Seq::<char>::empty());
    }
    assert(s@ =~= start + field_label(field_name@));
}

/// Appends the line that describes a field, if it has a value.
fn writeln_opt(s: &mut String, field_name: &str, value: Option<&str>)
    ensures
        final(s)@ == old(s)@ + field_line(
            field_name@,
            match value {
                Some(v) => Some(v@),
                None => None,
            },
        ),
{
    match value {
        Some(v) => {
            append_label(s, field_name);
            s.append(v);
            s.append("\n");
        },
        None => {},
    }
}

fn opt_str(v: &Option<String>) -> (r: Option<&str>)
    ensures
        match r {
            Some(x) => opt_text(*v) == Some(x@),
            None => opt_text(*v) is None,
        },
{
    match v {
        Some(x) => Some(x.as_str()),
        None => None,
    }
}

impl PuppetMeta {
    fn append_head(&self, s: &mut String)
        ensures
            final(s)@ == old(s)@ + meta_head_text(*self),
    {
        let ghost start = s@;
        match &self.name {
            Some(name) => writeln_opt(s, "Name", Some(name.as_str())),
            None => {
                s.append("(No Name)");
                s.append("\n");
            },
        }
        writeln_opt(s, "Version", Some(self.version.as_str()));
        writeln_opt(s, "Rigger", opt_str(&self.rigger));
        writeln_opt(s, "Artist", opt_str(&self.artist));
        assert(s@ =~= start + meta_head_text(*self));
    }

    fn append_rights(&self, s: &mut String)
        ensures
            final(s)@ == old(s)@ + meta_rights_text(*self),
    {
        let ghost start = s@;
        match &self.rights {
            Some(rights) => {
                s.append("Rights:");
                s.append("\n");
                let text = rights.to_display_string();
                s.append(text.as_str());
                s.append("\n");
            },
            None => {},
        }
        assert(s@ =~= start + meta_rights_text(*self));
    }

    fn append_links(&self, s: &mut String)
        ensures
            final(s)@ == old(s)@ + meta_links_text(*self),
    {
        let ghost start = s@;
        writeln_opt(s, "Copyright", opt_str(&self.copyright));
        writeln_opt(s, "License URL", opt_str(&self.license_url));
        writeln_opt(s, "Contact", opt_str(&self.contact));
        writeln_opt(s, "Reference", opt_str(&self.reference));
        assert(s@ =~= start + meta_links_text(*self));
    }

    fn append_tail(&self, s: &mut String)
        ensures
            final(s)@ == old(s)@ + meta_tail_text(*self),
    {
        let ghost start = s@;
        match self.thumbnail_id {
            Some(id) => {
                append_label(s, "Thumbnail ID");
                append_decimal(s, id);
                s.append("\n");
            },
            None => {},
        }
        writeln_opt(s, "Preserve pixels", Some(if self.preserve_pixels { "yes" } else { "no" }));
        assert(s@ =~= start + meta_tail_text(*self));
    }

    /// The meta information as text: one line per field that has a value, and the usage
    /// rights under their own heading.
    pub fn to_display_string(&self) -> (s: String)
        ensures
            s@ == spec_meta_text(*self),
    {
        let mut s = String::new();
        self.append_head(&mut s);
        self.append_rights(&mut s);
        self.append_links(&mut s);
        self.append_tail(&mut s);
        assert(s@ =~= spec_meta_text(*self));
        s
    }
}

/// Every kind of allowed users has exactly one name, its own: each name reads as the value of that
/// name, and a text that reads as a value is that value's name.
pub proof fn lemma_allowed_users_names(name: Seq<char>)
    ensures
        spec_puppet_allowed_users("OnlyAuthor"@) == Some(PuppetAllowedUsers::OnlyAuthor),
        spec_puppet_allowed_users("OnlyLicensee"@) == Some(PuppetAllowedUsers::OnlyLicensee),
        spec_puppet_allowed_users("Everyone"@) == Some(PuppetAllowedUsers::Everyone),
        spec_puppet_allowed_users(name) == Some(PuppetAllowedUsers::OnlyAuthor) ==> name == "OnlyAuthor"@,
        spec_puppet_allowed_users(name) == Some(PuppetAllowedUsers::OnlyLicensee) ==> name == "OnlyLicensee"@,
        spec_puppet_allowed_users(name) == Some(PuppetAllowedUsers::Everyone) ==> name == "Everyone"@,
{
    reveal_strlit("OnlyAuthor");
    reveal_strlit("OnlyLicensee");
    reveal_strlit("Everyone");
    assert("OnlyAuthor"@.len() != "OnlyLicensee"@.len());
    assert("OnlyAuthor"@ != "OnlyLicensee"@);
    assert("OnlyAuthor"@.len() != "Everyone"@.len());
    assert("OnlyAuthor"@ != "Everyone"@);
    assert("OnlyLicensee"@.len() != "Everyone"@.len());
    assert("OnlyLicensee"@ != "Everyone"@);
}

/// Every redistribution right has exactly one name, its own: each name reads as the value of that
/// name, and a text that reads as a value is that value's name.
pub proof fn lemma_allowed_redistribution_names(name: Seq<char>)
    ensures
        spec_puppet_allowed_redistribution("Prohibited"@) == Some(PuppetAllowedRedistribution::Prohibited),
        spec_puppet_allowed_redistribution("ViralLicense"@) == Some(PuppetAllowedRedistribution::ViralLicense),
        spec_puppet_allowed_redistribution("CopyleftLicense"@) == Some(PuppetAllowedRedistribution::CopyleftLicense),
        spec_puppet_allowed_redistribution(name) == Some(PuppetAllowedRedistribution::Prohibited) ==> name == "Prohibited"@,
        spec_puppet_allowed_redistribution(name) == Some(PuppetAllowedRedistribution::ViralLicense) ==> name == "ViralLicense"@,
        spec_puppet_allowed_redistribution(name) == Some(PuppetAllowedRedistribution::CopyleftLicense) ==> name == "CopyleftLicense"@,
{
    reveal_strlit("Prohibited");
    reveal_strlit("ViralLicense");
    reveal_strlit("CopyleftLicense");
    assert("Prohibited"@.len() != "ViralLicense"@.len());
    assert("Prohibited"@ != "ViralLicense"@);
    assert("Prohibited"@.len() != "CopyleftLicense"@.len());
    assert("Prohibited"@ != "CopyleftLicense"@);
    assert("ViralLicense"@.len() != "CopyleftLicense"@.len());
    assert("ViralLicense"@ != "CopyleftLicense"@);
}

/// Every modification right has exactly one name, its own: each name reads as the value of that
/// name, and a text that reads as a value is that value's name.
pub proof fn lemma_allowed_modification_names(name: Seq<char>)
    ensures
        spec_puppet_allowed_modification("Prohibited"@) == Some(PuppetAllowedModification::Prohibited),
        spec_puppet_allowed_modification("AllowPersonal"@) == Some(PuppetAllowedModification::AllowPersonal),
        spec_puppet_allowed_modification("AllowRedistribute"@) == Some(PuppetAllowedModification::AllowRedistribute),
        spec_puppet_allowed_modification(name) == Some(PuppetAllowedModification::Prohibited) ==> name == "Prohibited"@,
        spec_puppet_allowed_modification(name) == Some(PuppetAllowedModification::AllowPersonal) ==> name == "AllowPersonal"@,
        spec_puppet_allowed_modification(name) == Some(PuppetAllowedModification::AllowRedistribute) ==> name == "AllowRedistribute"@,
{
    reveal_strlit("Prohibited");
    reveal_strlit("AllowPersonal");
    reveal_strlit("AllowRedistribute");
    assert("Prohibited"@.len() != "AllowPersonal"@.len());
    assert("Prohibited"@ != "AllowPersonal"@);
    assert("Prohibited"@.len() != "AllowRedistribute"@.len());
    assert("Prohibited"@ != "AllowRedistribute"@);
    assert("AllowPersonal"@.len() != "AllowRedistribute"@.len());
    assert("AllowPersonal"@ != "AllowRedistribute"@);
}

/// Every interpolation mode has exactly one name, its own: each name reads as the value of that
/// name, and a text that reads as a value is that value's name.
pub proof fn lemma_interpolate_mode_names(name: Seq<char>)
    ensures
        spec_interpolate_mode("Linear"@) == Some(InterpolateMode::Linear),
        spec_interpolate_mode(name) == Some(InterpolateMode::Linear) ==> name == "Linear"@,
{
    reveal_strlit("Linear");
}

} // verus!
