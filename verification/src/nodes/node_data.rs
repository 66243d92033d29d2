//! Drawing properties of nodes: blend modes and masks.

use vstd::prelude::*;

use super::node::InoxNodeUuid;
use crate::strings::str_eq;

verus! {

/// Blending mode.
#[derive(Debug, Clone, Copy, PartialEq, Eq, Structural)]
pub enum BlendMode {
    /// Normal blending mode.
    Normal,
    /// Multiply blending mode.
    Multiply,
    /// Color Dodge.
    ColorDodge,
    /// Linear Dodge.
    LinearDodge,
    /// Screen.
    Screen,
    /// Clip to Lower.
    /// Special blending mode that clips the drawable
    /// to a lower rendered area.
    ClipToLower,
    /// Slice from Lower.
    /// Special blending mode that slices the drawable
    /// via a lower rendered area.
    /// (Basically inverse ClipToLower.)
    SliceFromLower,
}

/// A blend mode name that no `BlendMode` has.
#[derive(Debug, Clone)]
pub struct UnknownBlendModeError(pub String);

/// The blend mode whose name is `name`, if any.
pub open spec fn spec_blend_mode(name: Seq<char>) -> Option<BlendMode> {
    if name == "Normal"@ {
        Some(BlendMode::Normal)
    } else if name == "Multiply"@ {
        Some(BlendMode::Multiply)
    } else if name == "ColorDodge"@ {
        Some(BlendMode::ColorDodge)
    } else if name == "LinearDodge"@ {
        Some(BlendMode::LinearDodge)
    } else if name == "Screen"@ {
        Some(BlendMode::Screen)
    } else if name == "ClipToLower"@ {
        Some(BlendMode::ClipToLower)
    } else if name == "SliceFromLower"@ {
        Some(BlendMode::SliceFromLower)
    } else {
        None
    }
}

impl TryFrom<&str> for BlendMode {
    type Error = UnknownBlendModeError;

    fn try_from(value: &str) -> (res: Result<Self, Self::Error>)
        ensures
            match spec_blend_mode(value@) {
                Some(m) => res == Ok::<BlendMode, UnknownBlendModeError>(m),
                None => res matches Err(e) && e.0@ == value@,
            },
    {
        if str_eq(value, "Normal") {
            Ok(BlendMode::Normal)
        } else if str_eq(value, "Multiply") {
            Ok(BlendMode::Multiply)
        } else if str_eq(value, "ColorDodge") {
            Ok(BlendMode::ColorDodge)
        } else if str_eq(value, "LinearDodge") {
            Ok(BlendMode::LinearDodge)
        } else if str_eq(value, "Screen") {
            Ok(BlendMode::Screen)
        } else if str_eq(value, "ClipToLower") {
            Ok(BlendMode::ClipToLower)
        } else if str_eq(value, "SliceFromLower") {
            Ok(BlendMode::SliceFromLower)
        } else {
            Err(UnknownBlendModeError(value.to_owned()))
        }
    }
}

impl vstd::std_specs::convert::TryFromSpecImpl<&str> for BlendMode {
    open spec fn obeys_try_from_spec() -> bool {
        false
    }

    open spec fn try_from_spec(value: &str) -> Result<Self, Self::Error> {
        arbitrary()
    }
}

/// How a mask source restricts what it masks.
#[derive(Clone, Copy, Debug, PartialEq, Eq, Structural)]
pub enum MaskMode {
    /// Draw only where the source was drawn.
    Mask,
}

/// A mask mode name that no `MaskMode` has.
#[derive(Debug, Clone)]
pub struct UnknownMaskModeError(pub String);

/// The value whose name is `name`, if any.
pub open spec fn spec_mask_mode(name: Seq<char>) -> Option<MaskMode> {
    if name == "Mask"@ {
        Some(MaskMode::Mask)
    } else {
        None
    }
}

impl TryFrom<&str> for MaskMode {
    type Error = UnknownMaskModeError;

    fn try_from(value: &str) -> (res: Result<Self, Self::Error>)
        ensures
            match spec_mask_mode(value@) {
                Some(m) => res == Ok::<MaskMode, UnknownMaskModeError>(m),
                None => res matches Err(e) && e.0@ == value@,
            },
    {
        if str_eq(value, "Mask") {
            Ok(MaskMode::Mask)
        } else {
            Err(UnknownMaskModeError(value.to_owned()))
        }
    }
}

impl vstd::std_specs::convert::TryFromSpecImpl<&str> for MaskMode {
    open spec fn obeys_try_from_spec() -> bool {
        false
    }

    open spec fn try_from_spec(value: &str) -> Result<Self, Self::Error> {
        arbitrary()
    }
}

/// A mask applied to a drawable: the node whose drawing is the mask, and how it applies.
#[derive(Debug, Clone, Copy, PartialEq, Eq, Structural)]
pub struct Mask {
    pub source: InoxNodeUuid,
    pub mode: MaskMode,
}

/// Every blend mode has exactly one name, its own: each name reads as the value of that
/// name, and a text that reads as a value is that value's name.
pub proof fn lemma_blend_mode_names(name: Seq<char>)
    ensures
        spec_blend_mode("Normal"@) == Some(BlendMode::Normal),
        spec_blend_mode("Multiply"@) == Some(BlendMode::Multiply),
        spec_blend_mode("ColorDodge"@) == Some(BlendMode::ColorDodge),
        spec_blend_mode("LinearDodge"@) == Some(BlendMode::LinearDodge),
        spec_blend_mode("Screen"@) == Some(BlendMode::Screen),
        spec_blend_mode("ClipToLower"@) == Some(BlendMode::ClipToLower),
        spec_blend_mode("SliceFromLower"@) == Some(BlendMode::SliceFromLower),
        spec_blend_mode(name) == Some(BlendMode::Normal) ==> name == "Normal"@,
        spec_blend_mode(name) == Some(BlendMode::Multiply) ==> name == "Multiply"@,
        spec_blend_mode(name) == Some(BlendMode::ColorDodge) ==> name == "ColorDodge"@,
        spec_blend_mode(name) == Some(BlendMode::LinearDodge) ==> name == "LinearDodge"@,
        spec_blend_mode(name) == Some(BlendMode::Screen) ==> name == "Screen"@,
        spec_blend_mode(name) == Some(BlendMode::ClipToLower) ==> name == "ClipToLower"@,
        spec_blend_mode(name) == Some(BlendMode::SliceFromLower) ==> name == "SliceFromLower"@,
{
    reveal_strlit("Normal");
    reveal_strlit("Multiply");
    reveal_strlit("ColorDodge");
    reveal_strlit("LinearDodge");
    reveal_strlit("Screen");
    reveal_strlit("ClipToLower");
    reveal_strlit("SliceFromLower");
    assert("Normal"@.len() != "Multiply"@.len());
    assert("Normal"@ != "Multiply"@);
    assert("Normal"@.len() != "ColorDodge"@.len());
    assert("Normal"@ != "ColorDodge"@);
    assert("Normal"@.len() != "LinearDodge"@.len());
    assert("Normal"@ != "LinearDodge"@);
    assert("Normal"@[0] != "Screen"@[0]);
    assert("Normal"@ != "Screen"@);
    assert("Normal"@.len() != "ClipToLower"@.len());
    assert("Normal"@ != "ClipToLower"@);
    assert("Normal"@.len() != "SliceFromLower"@.len());
    assert("Normal"@ != "SliceFromLower"@);
    assert("Multiply"@.len() != "ColorDodge"@.len());
    assert("Multiply"@ != "ColorDodge"@);
    assert("Multiply"@.len() != "LinearDodge"@.len());
    assert("Multiply"@ != "LinearDodge"@);
    assert("Multiply"@.len() != "Screen"@.len());
    assert("Multiply"@ != "Screen"@);
    assert("Multiply"@.len() != "ClipToLower"@.len());
    assert("Multiply"@ != "ClipToLower"@);
    assert("Multiply"@.len() != "SliceFromLower"@.len());
    assert("Multiply"@ != "SliceFromLower"@);
    assert("ColorDodge"@.len() != "LinearDodge"@.len());
    assert("ColorDodge"@ != "LinearDodge"@);
    assert("ColorDodge"@.len() != "Screen"@.len());
    assert("ColorDodge"@ != "Screen"@);
    assert("ColorDodge"@.len() != "ClipToLower"@.len());
    assert("ColorDodge"@ != "ClipToLower"@);
    assert("ColorDodge"@.len() != "SliceFromLower"@.len());
    assert("ColorDodge"@ != "SliceFromLower"@);
    assert("LinearDodge"@.len() != "Screen"@.len());
    assert("LinearDodge"@ != "Screen"@);
    assert("LinearDodge"@[0] != "ClipToLower"@[0]);
    assert("LinearDodge"@ != "ClipToLower"@);
    assert("LinearDodge"@.len() != "SliceFromLower"@.len());
    assert("LinearDodge"@ != "SliceFromLower"@);
    assert("Screen"@.len() != "ClipToLower"@.len());
    assert("Screen"@ != "ClipToLower"@);
    assert("Screen"@.len() != "SliceFromLower"@.len());
    assert("Screen"@ != "SliceFromLower"@);
    assert("ClipToLower"@.len() != "SliceFromLower"@.len());
    assert("ClipToLower"@ != "SliceFromLower"@);
}

/// Every mask mode has exactly one name, its own: each name reads as the value of that
/// name, and a text that reads as a value is that value's name.
pub proof fn lemma_mask_mode_names(name: Seq<char>)
    ensures
        spec_mask_mode("Mask"@) == Some(MaskMode::Mask),
        spec_mask_mode(name) == Some(MaskMode::Mask) ==> name == "Mask"@,
{
    reveal_strlit("Mask");
}

} // verus!
