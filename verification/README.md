# wenfox

The verified core of the Wenfox desktop shell, written in Verus.

- `src/` is the library, every function of it verified:
  - `config`: which serialisation format a configuration file or a format
    name selects (`detect_format`, `parse_format`) and the parse-error text;
  - `quest`: the registry of background tasks and its commands;
  - `builder`: the settings of the stand-alone web server;
  - `host`: which texts are host addresses (`localhost`, IPv4, IPv6 in
    any text form), as a grammar and a verified check;
  - `server`: the application's HTTP server: host and port checks, the
    handles of its running task, and the steps of a restart;
  - `web`: the listen address of the health-check service;
  - `cli`: the package information of the command-line help;
  - `text`: character and decimal helpers shared by the others;
  - `external`: the declared outside types and the wrappers around `uuid`
    and `chrono`, with the contracts the library relies on.
- `app/` is the Tauri application around it: windows, plugins, file and
  network I/O, serde, the actix-web and warp servers, and logging.
- `tests/` exercises the library on concrete values.
