# vulkan_ubershader_ui_demo

A small Vulkan renderer for UI panels drawn by one "ubershader", split in two:

- `src/` is a library verified with Verus. It holds the renderer's decisions,
  each with a contract: queue-family and physical-device selection
  (`queue_family`, `device`), memory-type lookup (`memory`), swapchain format,
  present mode, extent and image count (`swapchain`), the per-frame sequence of
  Vulkan work as a state machine (`frame`), and the packing of rasterised glyphs
  into a single-channel font atlas (`font_atlas`), and the order in which
  system fonts are tried (`font_source`).
- `app/` is the program around it: window and event loop (winit), the Vulkan
  calls themselves (ash), font loading and glyph rasterisation (rusttype), and
  GLSL compilation (shaderc). It reads what the library needs from Vulkan,
  hands it over as plain values, and performs the actions the library chooses.
- `tests/` exercise the library on concrete inputs.
