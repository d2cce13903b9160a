//! Verified core of a CHIP-8 emulator front end for an STM32F3 board with an
//! SH1106 display: the keypad state, the pseudo-random generator, the
//! double-resolution frame buffer with its display command stream, and the
//! LED chaser.
pub mod random;
pub mod screen;
pub mod keypad;
pub mod blinker;
pub mod panel;
