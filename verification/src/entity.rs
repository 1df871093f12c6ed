//! The colors with which an entity, or a variant of an enumerated entity,
//! is drawn.
use vstd::prelude::*;

verus! {

/// A color chosen by name.
#[derive(Copy, Clone, PartialEq)]
pub enum NamedColor {
    White,
    Black,
    Red,
    Orange,
    Brown,
    Yellow,
    Green,
    Blue,
    Purple,
}

/// A value of an enumerated entity, and the color to draw it with.
#[derive(Clone)]
pub struct EnumVariant {
    pub color: Option<NamedColor>,
}

} // verus!
