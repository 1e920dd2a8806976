//! Text, input and image logic of a screen OCR tool: hotkey parsing,
//! settings files, OCR text layout, language selection and pixel buffers.
use vstd::prelude::*;

pub mod cli;
pub mod geometry;
pub mod hotkey;
pub mod image;
pub mod languages;
pub mod number;
pub mod ocr_text;
pub mod settings;
pub mod text;
pub mod wide;
pub mod window;
pub mod worker;

verus! {

} // verus!
