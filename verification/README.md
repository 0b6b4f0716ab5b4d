# sidetab

A Contexts-style window switcher for Hyprland: a sidebar panel with windows
grouped by workspace, fuzzy search, Alt-Tab cycling and hover reveal at the
screen edge.

## Layout

- `src/` is the library, written in Verus. Its functions carry contracts
  that Verus proves, except six thin wrappers around outside calls, whose
  contracts are assumed: `text::push_char` (`String::push`),
  `text::from_utf8_lossy`, `text::to_lowercase`, `text::char_to_uppercase`,
  `text::is_alphanumeric` (std), and `windows::fuzzy_score`
  (fuzzy-matcher's `SkimMatcherV2::fuzzy_match`). The modules:
  - `windows`: the window list (MRU order, grouping into Pinned / Full
    Screen / workspace / Floating sections, display order, fuzzy filter);
  - `ui::panel`: the panel's presence state machine (cycling, search,
    hover reveal and hide timers, keys, pins, launchers);
  - `ui::settings`: the rules behind the settings window's controls;
  - `hypr`: the exact request texts sent to Hyprland (legacy and Lua
    parsers) and the event-line parser;
  - `config`, `apps`, `icons`, `bindings`, `client`, `daemon`, `assets`:
    palettes and hex colors, desktop entries, icon candidates, the
    keybinding block, command validation and routing;
  - `text`, `order`: the character-level string model and the facts about
    stable sorting the rest rests on.
- `app/` is the program around the library: sockets, files, the gpui
  windows, and the floating-point layout.
- `tests/` runs the library on concrete values.

Run `sidetab daemon` to start the panel; `sidetab next`, `prev`, `commit`,
`search`, `show`, `hide`, `toggle`, `settings` and `quit` talk to it.
