//! Several users on one machine, each behind screens of their own.
//!
//! A worker runs in the session of each user. It writes the frames of the user's monitors into
//! shared memory and turns the input packets that it receives into input for the system. A
//! controller shows the frames of all workers and sends them the input of the person in front
//! of it.
//!
//! This library holds what the two decide and compute. The calls of the operating system, the
//! network and the window are the program's.
pub mod bytes;
pub mod control;
pub mod discovery;
pub mod image;
pub mod keys;
pub mod monitors;
pub mod names;
pub mod options;
pub mod packet;
pub mod ports;
pub mod remote;
pub mod session;
pub mod shm;
pub mod text;
pub mod utf16;
pub mod view;
