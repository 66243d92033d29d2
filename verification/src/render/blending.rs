//! How each blend mode combines a drawable with what is already drawn.

use vstd::prelude::*;

use crate::nodes::node_data::BlendMode;

verus! {

/// A factor of a blend equation.
#[derive(Debug, Clone, Copy, PartialEq, Eq, Structural)]
pub enum BlendFactor {
    One,
    OneMinusSrc,
    OneMinusSrcAlpha,
    Dst,
    DstAlpha,
}

/// How the two scaled terms of a blend equation are combined.
#[derive(Debug, Clone, Copy, PartialEq, Eq, Structural)]
pub enum BlendOperation {
    Add,
    Subtract,
}

/// One blend equation: `operation(src * src_factor, dst * dst_factor)`.
#[derive(Debug, Clone, Copy, PartialEq, Eq, Structural)]
pub struct BlendComponent {
    pub src_factor: BlendFactor,
    pub dst_factor: BlendFactor,
    pub operation: BlendOperation,
}

/// The blend equations of the colour and of the alpha channel.
#[derive(Debug, Clone, Copy, PartialEq, Eq, Structural)]
pub struct BlendState {
    pub color: BlendComponent,
    pub alpha: BlendComponent,
}

/// The blend equation of `mode`.
pub open spec fn blend_component(mode: BlendMode) -> BlendComponent {
    let (src_factor, dst_factor, operation) = match mode {
        BlendMode::Normal => (BlendFactor::One, BlendFactor::OneMinusSrcAlpha, BlendOperation::Add),
        BlendMode::Multiply => (BlendFactor::Dst, BlendFactor::OneMinusSrcAlpha, BlendOperation::Add),
        BlendMode::ColorDodge => (BlendFactor::Dst, BlendFactor::One, BlendOperation::Add),
        BlendMode::LinearDodge => (BlendFactor::One, BlendFactor::One, BlendOperation::Add),
        BlendMode::Screen => (BlendFactor::One, BlendFactor::OneMinusSrc, BlendOperation::Add),
        BlendMode::ClipToLower => (BlendFactor::DstAlpha, BlendFactor::OneMinusSrcAlpha, BlendOperation::Add),
        BlendMode::SliceFromLower => (
            BlendFactor::DstAlpha,
            BlendFactor::OneMinusSrcAlpha,
            BlendOperation::Subtract,
        ),
    };
    BlendComponent { src_factor, dst_factor, operation }
}

/// The blend state of `mode`: the same equation for colour and alpha.
pub fn blend_state_for_blend_mode(mode: BlendMode) -> (r: BlendState)
    ensures
        r.color == blend_component(mode),
        r.alpha == blend_component(mode),
        (r.color.operation == BlendOperation::Subtract) == (mode == BlendMode::SliceFromLower),
{
    let component = match mode {
        BlendMode::Normal => BlendComponent {
            src_factor: BlendFactor::One,
            dst_factor: BlendFactor::OneMinusSrcAlpha,
            operation: BlendOperation::Add,
        },
        BlendMode::Multiply => BlendComponent {
            src_factor: BlendFactor::Dst,
            dst_factor: BlendFactor::OneMinusSrcAlpha,
            operation: BlendOperation::Add,
        },
        BlendMode::ColorDodge => BlendComponent {
            src_factor: BlendFactor::Dst,
            dst_factor: BlendFactor::One,
            operation: BlendOperation::Add,
        },
        BlendMode::LinearDodge => BlendComponent {
            src_factor: BlendFactor::One,
            dst_factor: BlendFactor::One,
            operation: BlendOperation::Add,
        },
        BlendMode::Screen => BlendComponent {
            src_factor: BlendFactor::One,
            dst_factor: BlendFactor::OneMinusSrc,
            operation: BlendOperation::Add,
        },
        BlendMode::ClipToLower => BlendComponent {
            src_factor: BlendFactor::DstAlpha,
            dst_factor: BlendFactor::OneMinusSrcAlpha,
            operation: BlendOperation::Add,
        },
        BlendMode::SliceFromLower => BlendComponent {
            src_factor: BlendFactor::DstAlpha,
            dst_factor: BlendFactor::OneMinusSrcAlpha,
            operation: BlendOperation::Subtract,
        },
    };

    BlendState { color: component, alpha: component }
}

/// Only slicing subtracts: every blend mode adds its two terms except `SliceFromLower`,
/// which subtracts. Clipping to and slicing from what is below scale by the same factors
/// and differ only in that operation; and no two blend modes blend alike.
pub proof fn lemma_blend_modes_distinct(m1: BlendMode, m2: BlendMode)
    ensures
        (blend_component(m1).operation == BlendOperation::Subtract) == (m1 == BlendMode::SliceFromLower),
        blend_component(BlendMode::ClipToLower).src_factor == blend_component(BlendMode::SliceFromLower).src_factor,
        blend_component(BlendMode::ClipToLower).dst_factor == blend_component(BlendMode::SliceFromLower).dst_factor,
        blend_component(BlendMode::ClipToLower).operation != blend_component(BlendMode::SliceFromLower).operation,
        m1 != m2 ==> blend_component(m1) != blend_component(m2),
{
}

} // verus!
