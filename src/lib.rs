//! Core runtime subsystems of a small x86_64 microkernel, modelled so that
//! their logic can be verified: address-space management, the two-tier kernel
//! heap, the task scheduler and the compositing display pipeline.

pub mod acpi;
pub mod buffer;
pub mod compositor;
pub mod elf;
pub mod heap;
pub mod interrupts;
pub mod mini_buffer;
pub mod msi;
pub mod mtrr;
pub mod observer;
pub mod paging;
pub mod pci;
pub mod region;
pub mod sched;
pub mod shadow_buffer;
pub mod stack;
pub mod timer;

