//! Outcome of drawing the shelf.
use vstd::prelude::*;
use crate::config::RenderMode;

verus! {

/// What is drawn under the icons: no shelf (the 3D scene draws it), the
/// procedural shelf, or the textured one.
#[derive(Debug, Clone, Copy, PartialEq, Eq, Structural)]
pub enum ShelfLayer {
    NoShelf,
    Procedural,
    Texture2d,
}

/// The shelf layer for the theme's renderer: none when the 3D scene renders
/// (it has not fallen back), the texture for the 2D texture renderer, and the
/// procedural shelf otherwise (also when the 3D scene fell back).
pub fn shelf_layer_for(renderer: RenderMode, scene3d_fell_back: bool) -> (r: ShelfLayer)
    ensures
        r == (match renderer {
            RenderMode::Scene3d => if scene3d_fell_back {
                ShelfLayer::Procedural
            } else {
                ShelfLayer::NoShelf
            },
            RenderMode::Texture2d => ShelfLayer::Texture2d,
            RenderMode::Procedural2d => ShelfLayer::Procedural,
        }),
{
    match renderer {
        RenderMode::Scene3d => if scene3d_fell_back {
            ShelfLayer::Procedural
        } else {
            ShelfLayer::NoShelf
        },
        RenderMode::Texture2d => ShelfLayer::Texture2d,
        RenderMode::Procedural2d => ShelfLayer::Procedural,
    }
}

/// Whether the 2D renderer draws the glass shelf under the icons.
pub fn draws_shelf(layer: ShelfLayer) -> (r: bool)
    ensures
        r == (layer != ShelfLayer::NoShelf),
{
    !matches!(layer, ShelfLayer::NoShelf)
}

/// Whether a shelf renderer drew, and why not when it fell back.
#[derive(Debug, Clone, PartialEq)]
pub struct ShelfRenderResult {
    pub rendered: bool,
    pub fallback_reason: Option<String>,
}

impl ShelfRenderResult {
    /// The shelf was drawn.
    pub fn rendered() -> (r: Self)
        ensures
            r.rendered,
            r.fallback_reason is None,
    {
        ShelfRenderResult { rendered: true, fallback_reason: None }
    }

    /// The shelf was not drawn, for the given reason.
    pub fn fallback(reason: String) -> (r: Self)
        ensures
            !r.rendered,
            r.fallback_reason == Some(reason),
    {
        ShelfRenderResult { rendered: false, fallback_reason: Some(reason) }
    }
}

} // verus!
