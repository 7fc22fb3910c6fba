# lights

Light programs for a strip of RGB LEDs, with the strip seen through composable
coordinate spaces (grids laid out in switchback rows, mirrors, tori, rectangles and
stretches cut out of them, Bresenham lines).

- `src/` is the verified library: the LED strip and its windows, the spaces and
  projections, line plotting, reading values out of bytes, the message mailbox, the
  timing futures, the random generator, and the integer logic of the programs (the
  grid walk, the tides, the scrolling stripes, the lines, the valentine greeting).
  Every function carries a contract that Verus proves; the `law_*` proof functions
  state what holds across calls.
- `tests/` runs the library on concrete values.
- `app/` is the terminal simulator around it: the frame loop, rendering, sending a
  strip to a device, and the programs whose colours come from floating-point easing.
