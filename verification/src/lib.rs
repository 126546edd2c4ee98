//! Integer sets over `u16`, in many representations, each proved to behave
//! as a mathematical set of 16-bit integers.

pub mod bits;
pub mod count;
pub mod run;
pub mod scenario;
pub mod set_int;
pub mod timer;
pub mod types;
