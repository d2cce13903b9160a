# chip8rtic

A CHIP-8 emulator front end for the STM32F3DISCOVERY board with an SH1106
128x64 I2C display and eight push buttons.

- `src/` is the verified library: the keypad state (`keypad`), the PCG32
  random source (`random`), the double-resolution frame buffer and the I2C
  command frames that bring the panel up to date (`screen`), a model of the
  display controller with the proof that those frames make the panel show
  the buffer (`panel`), and the LED chaser (`blinker`).
- `app/` is the RTIC firmware: it reads the buttons, writes the frames to
  the I2C bus, drives the LEDs and schedules the emulator's tasks. It needs
  the `chip8vm` crate and a ROM image under `games/`.
