//! The control core of a joystick-driven launcher for emulators.
//!
//! One store owns the state of the application and changes it by reducing
//! queued actions. A tree of entities decides, from the state alone, which
//! behaviours are active; the active ones answer to input events by asking
//! the store for actions, and say what is to be drawn. Players bind the
//! buttons, hats and axes of their controllers to the controls of an
//! emulator, and the bindings are kept per controller identity.
//!
//! Windows, bitmaps, devices, files and processes are left to the caller:
//! the library takes and hands back plain values.

pub mod bindings;
pub mod draw;
pub mod entity;
pub mod input;
pub mod joystick;
pub mod launch;
pub mod launcher;
pub mod reducer;
pub mod render;
pub mod roms;
pub mod state;
pub mod store;
pub mod text;
pub mod tree;
pub mod vec_map;
