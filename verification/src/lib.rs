//! Generation of image challenges: a raster canvas, a chain of distortion
//! filters, and a builder that composes glyphs and crops the result.

mod audio;
mod captcha;
mod codec;
mod error;
pub mod filters;
mod fonts;
mod geometry;
mod images;
mod pixel;
mod rng;
mod samples;

pub use audio::{add_noise, Audio};
pub use captcha::{Captcha, RngCaptcha};
pub use error::CaptchaError;
pub use fonts::{DefaultFont, Font};
pub use geometry::Geometry;
pub use images::Image;
pub use pixel::Pixl;
pub use rng::RandomSource;
pub use samples::{by_name, gen, CaptchaName, Difficulty};
