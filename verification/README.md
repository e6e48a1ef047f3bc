# flappy_mpc

Flappy Bird flown by a Model Predictive Control policy, as a Verus-verified
library plus a small macroquad front end.

- `src/` — the verified library: geometry (`Aabb`), the bird, pipes and the
  scrolling base with integer pixel physics, the exact MPC controller (all
  `2^N` flap sequences are evaluated in exact integer arithmetic; an
  on-screen sequence is preferred, then the first cheapest), and the
  fixed-step `Game`.
- `tests/` — tests of the library.
- `app/` — the window, input, fixed 30 Hz loop and rendering (macroquad).

Positions, velocities and tilts are whole pixels and degrees; the only
randomness is the gap top of a new pipe, drawn with `rand` from `[50, 450)`.
