# amr

A relay that carries the standard streams of a program over MQTT. The user side sends what it reads
from its standard input to a node, and writes what comes back to its standard output and standard
error. The work side of the node runs a child process for every client. Messages are numbered, so
that what arrives late, early or twice comes out in order and once.

## Layout

- `src/` is the library, verified with Verus.
  - `message`: chunks of streams and requests about sessions, and their JSON.
  - `ordering`: numbers for chunks, and the buffer that restores their order.
  - `mqtt_client`: topics, the broker's address, and what a connection is made with.
  - `cli` and `config`: the command line and the configuration file.
  - `user_mode` and `work_mode`: what each side decides.
  - `text`, `json` and `encoding`: characters and numerals, JSON string literals, base64.
- `app/` is the program around it: connections, standard streams, child processes and files.
- `tests/` runs the library.

Public proof functions whose names begin with `law_` state what holds of the library as a whole.
