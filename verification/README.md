# laser_cutter

Tools for a hobby laser cutter: turn cuts into G-code, read G-code lines back,
and run a program through an emulator that draws what the head does.

- `src/` is the library, written in Verus and verified: command planning
  (`plan`), the workspace's G-code program (`workspace`), the G-code line
  format and its reader (`gcode`, `line_roundtrip`, `readback`), the emulator
  (`emulator`), the renderers (`renderer`, `pixel_renderer`, and `svg_paths`,
  which joins drawn moves into SVG paths), the drawing grid
  (`grid`) and the console menu (`console`).
- `app/` is the command-line program around it: reading SVG files and images,
  the floating-point geometry, saving and loading files, and the SVG renderer.
- `tests/` runs the library on concrete inputs.

Points reach the library as ids: the program gives each distinct coordinate an
id and the text with which it is printed, and the library plans and checks
everything over those ids.
