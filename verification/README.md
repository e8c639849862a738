# cowboy

The decisions behind the `cowboy` command line, which runs coding agents in
containers: what is read, edited and searched in a workspace, what a container is
made from, which credentials and destinations it may have, how a plan of work
advances, and what is said about all of it.

- `src/` is the library. Its functions are verified with Verus against their
  contracts, but for the few small ones that call into `regex`, `similar`, `reqwest`,
  `sha2`, `base64`, `serde_json` and the standard library: what those promise is taken
  on trust, and the comment above each says what that is. Texts are sequences of characters, byte streams sequences of bytes, and
  what depends on the outside (files, git, Docker, the user) is handed in as plain
  values.
- `tests/` runs the library on concrete values.
- `app/` is the program around it: arguments, files, git, Docker, sockets.

Where to start:

| module | what it decides |
| --- | --- |
| `edit`, `repair`, `diagnose`, `atomic` | edits of a file, what is said of one that does not match, and how a file is replaced |
| `view`, `grep`, `listing`, `workspace`, `pattern`, `confine` | reading, searching and listing a workspace |
| `container`, `runtime`, `gateway`, `output`, `shell`, `process` | containers and the commands in them |
| `approvals`, `control`, `sandbox`, `secrets`, `grant`, `trust`, `localsock` | what is allowed, and who may ask |
| `ranch`, `roundup`, `advance`, `depths`, `ranch_text` | plans of work |
| `models`, `setup`, `mcp`, `init`, `firstrun`, `harnesses` | configuration |
| `sessions`, `journal`, `web`, `worker`, `session`, `review` | sessions and those who watch them |
| `worktree`, `patch`, `compose`, `paths` | repositories |
| `text`, `words`, `search`, `order`, `registry` | what the others are built on |
