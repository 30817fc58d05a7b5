//! Integer core of a recursive path tracer: packed RGBA8 pixels, the
//! framebuffer layout handed to the image sink, the depth-limited control of
//! the recursive color evaluator, and closest-hit selection over a scene.

pub mod pixel;
pub mod framebuffer;
pub mod trace;
pub mod scene;
