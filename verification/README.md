# crosshair

A transparent crosshair overlay for desktop displays. The library (`src/`) holds the
logic, verified with Verus: the command language (`cl_crosshairsize 8`, `crosshair_offset
-30 0`, several commands joined by `;`), the configuration and profile files, display geometry, the choice of overlay
backend, the overlay's request/frame decisions and the pixel blending of both overlays.
`app/` is the program around it: the eframe/egui interface, file and environment access,
the Windows layered window and the Wayland layer-shell surface.

Lengths (size, gap, thickness, outline thickness) are `f32` numbers. The library holds
their bit patterns (`Length`) and decides on them exactly as `f32` comparisons do; reading
an `f32` from text and writing one as text is done by the caller, which hands the results
to `RuntimeState::apply`, `AppConfig::from_text`, `AppConfig::text` and `RuntimeState::status`.

`src/laws.rs` states what holds across calls: the configuration round trip, the active
profile round trip, toggling, resetting, offsets staying on the display, and display refresh.
