# partty

A GPU terminal emulator with proper Persian and right-to-left text. The
terminal's logic is a library verified with Verus; the window, the GPU
drawing, the shell process and the clipboard are ordinary Rust around it.

## Layout

- `src/` — the verified library:
  - `color.rs`: `#rrggbb` colours, the 16-slot palette, the 256-colour table,
    and the palette a configuration asks for.
  - `screen.rs`: the mathematical model of the terminal (`Screen`) and what
    each control does to it.
  - `grid.rs`: the terminal grid itself (printing, control bytes and
    sequences, scrollback, alternate screen, selection, mouse and focus
    reports, the runs of text to draw), each operation proved against
    `screen.rs`.
  - `clip.rs`: bracketed paste.
  - `shell.rs`: the bytes a key sends to the shell.
  - `input.rs`: which keys paste, and when clicks, drags, focus changes and
    wheel steps go to the program.
  - `fill.rs`: the background, underline and strike-through strips.
  - `image.rs`: kitty graphics commands taken out of the byte stream, their
    keys, pixel decoding, inline files and the picture store.
  - `sixel.rs`: the sixel interpreter.
- `tests/` — tests of the library.
- `app/` — the program: winit window, wgpu and glyphon drawing, the
  pseudo-terminal, the clipboard tools and the TOML configuration.

## Config

`./config.toml`, or `~/.config/partty/config.toml`:

```toml
background = "#1e1e1e"
foreground = "#eeeeec"
font_size = 24
past_bottom = 15
mono = "JetBrains Mono"
fonts = ["~/.fonts/Custom.ttf"]

[colors]
red = "#cc0000"
```

Missing file or keys fall back to defaults.
