# flydigictl

Control Flydigi BS series laptop coolers on Linux: a command line tool, a fan
curve daemon and a desktop interface over one verified library.

`src/` is the library, written in Verus. It holds everything that decides or
computes:

| Modules | What they are about |
|---------|---------------------|
| `protocol`, `lighting` | frames, checksums, gears, supply levels, standby, animations |
| `device` | finding a cooler, framing for either transport, waiting for an answer |
| `config`, `curve`, `sensor`, `nvidia`, `screens` | what is configured, and what a machine says about itself |
| `control`, `runner` | the control loop, decision by decision |
| `ipc`, `server`, `client`, `cli` | requests, replies and who answers them |
| `gui`, `panes`, `choices`, `editor`, `picker`, `palette`, `theme` | the state of the window and what it shows |
| `text`, `error` | plain text and what can go wrong |

Each public function states what it returns or changes. What holds across
several of them is stated in proof functions named `law_...`, next to the things
they speak of.

`app/` is the rest: hidraw, sysfs, sockets, files, threads, drawing, and the few
things that are floating point by nature. It asks the library what to do, does
it, and reports back what came of it. The three programs are told apart by the
name they are started under: `flydigictl`, `flydigictld` and `flydigictl-gui`.

`tests/` runs the library on concrete values.

The only thing the proofs take on trust beyond Verus and its standard library is
that `String::push` appends the character it is given.
