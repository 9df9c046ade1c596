//! Verified cores of the portfolio demos: the software framebuffer, the
//! falling-sand simulation, and the rules of the Solar Siege arcade game.
//! Everything that touches the browser (canvas, WebAudio, local storage) or
//! works in floating point lives in the companion `app` crate.

pub mod audio;
pub mod fb;
pub mod rng;
pub mod sand;
pub mod sand_laws;
pub mod scores;
pub mod scores_laws;
pub mod siege;
pub mod siege_laws;
