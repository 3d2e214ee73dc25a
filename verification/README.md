# niri-dynamic-workspaces

Dynamic workspaces for the niri Wayland compositor: a key (`a`–`z`, `0`–`9`)
switches to the workspace named `{prefix}{key}`, creating it with its
configured programs or a template, deletes it, or moves the focused window
to it. A daemon removes dynamic workspaces that became empty.

The library in `src/` holds the logic, verified with Verus: every public
function states what it returns or changes, and the properties that span
several calls are proof functions (`lemma_*`).

- `text`, `naming`, `order`, `assoc`: strings, workspace names and key maps.
- `config`, `resolve`, `loading`, `keybind`, `layout`, `theme`, `template`:
  the configuration, from the parsed file to the resolved settings, with
  every warning the file earns; `hotkeys` proves what the template hotkeys
  handed out always satisfy.
- `ipc`, `commands`, `niri`, `actions`: the workspace actions, as exchanges
  with niri recorded in a session log that the contracts speak about.
- `backend`, `hyprland`: the same actions against a generic compositor
  backend, and the Hyprland command strings.
- `overlay`, `grid`, `session`, `keypress`, `select`: what the overlay shows
  and what a key press in it does.

`app/` is the program around the library: the command line, reading the
config file, and the socket to niri. `tests/` exercises the library.
