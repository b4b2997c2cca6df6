//! Converts SVG markup into CeTZ drawing commands.
//!
//! The conversion is a walk over the pieces of the markup with a stack of
//! scopes ([`engine`]): each piece changes the stack or draws, and what it
//! draws is written as text ([`emit`]). The contracts are machine-checked.
//! That of each step says exactly what the step does; that of the whole
//! conversion ([`convert`]) says that it is the walk over the pieces that the
//! reader reports of the document, and leaves open only what `svgtypes`
//! makes of transforms and paths.
//!
//! Numbers are decimal fixed-point values ([`fixed`], [`decimal`]): all that
//! is computed here is computed in integers, and rounding is part of the
//! contracts. A number in the markup, or a coordinate computed from it, that
//! is beyond their range ends the conversion with an error. The markup is
//! cut into pieces by `quick_xml` ([`markup`]); transform lists and path
//! data are read by `svgtypes` ([`svgdata`]).

pub mod affine;
pub mod attrs;
pub mod convert;
pub mod decimal;
pub mod emit;
pub mod engine;
pub mod error;
pub mod fixed;
pub mod markup;
pub mod style;
pub mod svgdata;
pub mod text;
