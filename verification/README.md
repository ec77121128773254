# aeon

The verified core of AEON, a small Linux monitoring daemon, with the
daemon, its command line (`aeoncli`) and its guardian around it.

- `src/` is the library, checked by Verus: log analysis (`log`), the alarm
  state machines behind the CPU, memory, disk and network monitors
  (`alarm`), the suspicious-process watcher (`process`), the socket line
  protocol (`protocol`), backup planning (`backup`), command-line actions
  (`cli`), machine facts (`system`), port-scan targets and socket listings
  (`scan`), JSON rendering of a file (`json`) and the text operations they
  share (`text`).
- `app/` is the program: sampling the machine, files, sockets, the HTTP
  status page, notifications and the command line. It measures, decides
  floating-point thresholds, and hands the outcomes to the library.
- `tests/` runs the library on concrete inputs.
