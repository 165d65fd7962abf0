//! Planning and checking logic for a capability-space initializer: the root
//! task that carves the boot-time authority of a microkernel into the objects,
//! capability slots, address spaces and threads of a declared system. Beside
//! it stand the descriptor of shared-memory ring buffers and the register
//! logic of the serial ports used for diagnostics.
pub mod boot;
pub mod descriptor;
pub mod inventory;
pub mod materialize;
pub mod model;
pub mod plan;
pub mod uart;
