# my_teams, verified

A small team-chat system (users, private messages, teams with channels,
threads and replies) whose logic is written in Verus and proved against its
contracts.

- `src/` is the verified library:
  - `text` – string helpers (splitting, number formatting and parsing,
    newline escaping) with exact specifications;
  - `command`, `parser`, `protocol` – the client's commands, the command-line
    tokenizer and parser, and the request line for each command;
  - `encoder` – one step of the offline command encoder;
  - `models` – the server's data and its lookups;
  - `client`, `server_model`, `server` – a connection's buffers and context,
    the specification of every server command, and the verified server;
  - `storage` – the data file: writing a database as lines, loading a line;
  - `reload` – loading the written lines back gives the database again;
  - `cli` – the client's reaction to each line from the server;
  - `ffi` – the calls into the C logging library, as values;
  - `laws` – properties that hold across the server's commands.
- `app/` holds the programs: the TCP server loop, the network client, an
  offline command encoder, and the calls into the C logging library.
- `tests/` runs the library on concrete inputs.
