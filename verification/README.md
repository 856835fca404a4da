# rust_study

A collection of small Rust programs (an HTTP/1.1 server written by hand, a
Redis server built on `mini-redis`, a course and teacher web service, tools
that rename downloaded files, and a handful of Tokio and actix-web examples)
whose logic is a verified library.

- `src/` is the library, verified with Verus: reading HTTP requests and
  choosing their handler (`http`, `router`), the Redis frame codec and
  key-value responder (`redis`, `frame_scan`, `redis_server`, `read_buffer`), the rules of
  the course service (`course`, `memory_course`), the renaming rules
  (`rename`, `fixmoviename`, `renamepngname`), a linked list (`node`), the
  replies of the web examples (`web_demo`), and shared helpers (`text`,
  `textmap`).
- `app/` holds the programs themselves, one subcommand each
  (`app fixmoviename`, `app server-frame`, `app teacher-service`, ...): the
  sockets, files, databases, async runtimes and web frameworks, which call
  the library for every decision.
- `tests/` exercises the library on concrete inputs.
