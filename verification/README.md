# native-terminal

A terminal for a native surface. `src/` is a library, verified with Verus: it
turns what a terminal emulator shows into colored spans, lays them out as text,
places backgrounds, cursor and lines in pixels, and decides what the shell is
told. `app/` is the program around it: the shell's process, the GPU, the fonts
and the window.

| Module | What it holds |
| --- | --- |
| `theme`, `color` | themes, and the colors that programs ask for |
| `emulator` | `alacritty_terminal`'s emulator, read into plain values |
| `terminal`, `surface` | the state between frames, and the messages to the shell |
| `grid` | from cells to spans |
| `layout`, `text` | from spans to text with byte ranges |
| `frame`, `cursor` | from cells to pixels, and batches of one color |
| `digest` | the hash that tells an idle terminal |
| `laws` | what holds across all of these |

The emulator, `String::push` and the sort of rectangles are taken on trust; the
doc comments of `emulator`, `text` and `cursor` say what is claimed of them.
