//! Mars rover simulator: parses loose user input into a plateau bound and a
//! batch of (start pose, command string) pairs, normalizes and validates the
//! batch, then drives each rover over the plateau with boundary and collision
//! checks, reporting the final poses in input order or the first error.

pub mod laws;
pub mod rover;
pub mod text;
