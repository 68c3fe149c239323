# cairn

Cairn keeps a list of blocked domains in force through a marked section of
the system's hosts file, and decides when that protection may be reduced.

- `src/` is the library, verified with Verus: domain names and their
  normalisation, the hosts-file section (writing, reading back, removing),
  the dates and gates that govern reductions, the helper's verbs as state
  machines, and the wire protocol between the application and the helper.
- `app/` is the program around it: the privileged helper's socket, file and
  process work, and the application state that talks to it.
- `tests/` runs the library on concrete values.
