# hyprfiles

The verified core of HyprFile, a keyboard-first file manager for Linux
integrated with Hyprland and Wayland.

- `src/` is the library, written in Verus: every function carries a
  contract that the verifier proves. It holds the decisions of the file
  manager: directory listing order, hidden files and filters; the job
  table and what a copy does on a name conflict; search matching and the
  fuzzy matcher; preview planning and text/binary classification;
  `.desktop` parsing and `Exec` command lines; the freedesktop trash
  layout and `.trashinfo` parsing; XDG directory resolution and the MIME
  database scan; terminals, portals, configuration defaults and themes.
- `app/` is the program around it: argument parsing, configuration files,
  the Tokio event bus and job queue, and every read of the file system,
  the environment or external programs.
- `tests/` runs the library on concrete values.
