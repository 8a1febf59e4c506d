# galaxy_ui

The verified core of a desktop viewer for the space game of `common_game`:
it turns the orchestrator's galaxy into what the canvas draws and decides,
frame by frame, what to ask the orchestrator for.

- `src/` is the library, checked by Verus:
  - `galaxy`: planets in id order with their labels, undirected edges;
  - `galaxy_state`: rebuild of the layout and the position cache;
  - `bag`, `text`: the bag summary, decimal numbers, string order, sorting;
  - `canvas`: explorers on a planet, labels, planet state lines, edge segments;
  - `frame`: polling requests, refresh queue, running effects;
  - `timers`: when each snapshot is polled;
  - `ui_state`: menus, selections and the planet spawn;
  - `startup`: the start screen's choices.
- `app/` is the egui program around it: windows, drawing, channels to the
  orchestrator thread, floating-point layout and animation.
- `tests/` runs the library on concrete values.
