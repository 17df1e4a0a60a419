# elysium

Automation of games with a virtual gamepad: scripts press buttons, look at the
captured window and listen to its sound.

- `src/` is the verified library: the gamepad, the scripts' headers and
  arguments, the run of a task with its time limits and restarts, what is read
  from frames and sound, the journeys on the map, the pages of the interface and
  the launch of a game. Every function states in its contract what it returns.
  What the library takes from other crates stands behind small trusted
  functions: JSON (`json.rs`), the scope of a script (`script_engine.rs`),
  the resizing of pictures (`vision.rs`, `templates.rs`, `assets.rs`) and the
  division of the screen (`layout.rs`). Properties that span
  functions are the public proof functions whose names begin with `law_`.
- `app/` is the program around it: the window, the capture, the gamepad driver,
  text recognition, the sound device, the script engine and the terminal, and
  all that is computed with floating point.
- `tests/` runs the library on concrete values.

Times are in microseconds unless a name says otherwise. Floating point numbers
pass through the library by their bits.
