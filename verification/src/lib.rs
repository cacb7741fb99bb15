//! An I/O buffer library: a handle onto a byte allocation that exposes a
//! movable *window* within fixed *limits*, together with typed big- and
//! little-endian reads and writes of fixed-width integers.
//!
//! The handle keeps four 32-bit cursors `lo_min <= lo <= hi <= hi_max` into
//! its backing bytes. The window `[lo, hi)` is the currently visible range;
//! the limits `[lo_min, hi_max)` bound every range the window may ever be
//! moved to. Cursor operations (`advance`, `extend`, `resize`, `narrow`,
//! `flip_lo`, `flip_hi`, `compact`, splits and sub-windows) move the cursors
//! within the limits; checked forms report failure through a `Result` and
//! leave the handle unchanged, unchecked forms carry the bounds as
//! preconditions. Every operation's contract is stated against the handle's
//! abstract value, and the cursor invariant is proved to hold at every
//! public boundary.

pub mod endian;
pub mod prim;
pub mod raw;
pub mod show;
