# frame

Firmware library for a Raspberry Pi Pico photo frame: a 200 x 200 e-paper
panel (YRD0150), an SD card with BMP images, and two buttons. The library is
written in Verus. Its functions carry contracts that Verus proves, except five
small trusted wrappers around outside crates (three `heapless::String` calls
and two embedded-graphics drawing calls), whose contracts are taken on trust
and stated in their doc comments.

- `src/graphics/framebuffer.rs`: the one-bit frame (`EpdFramebuffer`), its
  pixel layout, drawing single pixels, clearing, and laying masks over it.
- `src/graphics/drawing.rs`: screen elements (texts and lines), rasterised by
  embedded-graphics behind trusted wrappers, and drawn over a frame.
- `src/display/yrd0150.rs`: the panel driver. Each command decides the exact
  sequence of pin, SPI, delay and busy-wait operations, which it queues; the
  firmware carries them out on the hardware.
- `src/menu.rs`: the image menu: up to 32 names (in `heapless` strings), the
  selection and page, its screen layout and drawing. It starts with the
  built-in images' names (`src/images.rs`).
- `src/storage/bmp.rs`: BMP header checks and the decoder that turns a
  200 x 200, 24-bit BMP into a one-bit frame, fed the file piece by piece.
- `src/storage/card.rs`: the full-duplex SPI adapter state and the fixed clock
  for the filesystem.
- `src/firmware.rs`: start-up status codes and messages, which SD files are
  listed, and the button state machine of the main loop.
- `app/`: the firmware itself (hardware set-up, the SD filesystem, the main
  loop), using the library.

The library uses `std` (`Vec` and `String`, through vstd), so `app/` builds
only for targets with `std`; it cannot be flashed to the Pico (thumbv6m) as it
stands, and it does not link panic-halt, whose handler would clash with
`std`'s.
