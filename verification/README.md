# async-bash-mcp

An MCP server that starts bash commands in the background and lets a client
poll their output incrementally, list them, and terminate them.

- `src/` is the verified library (Verus):
  - `text.rs`: line tails, white-space and decimal helpers;
  - `disk.rs`: the file-system questions asked about a working directory,
    each answer tied to the path it was asked about;
  - `validation.rs`: command and working-directory validation;
  - `process.rs`: the process registry (identifiers, buffered output,
    incremental polls, listing, progress reports) and its laws;
  - `history.rs`: laws over whole histories of registry operations
    (identifiers in spawn order, what a listing shows);
  - `logging.rs`: log lines (the caller hands them to the log writer), log
    file names and directory, size budget;
  - `server.rs`: the checks on poll requests.
- `app/` is the program around it: it starts the shell processes, pumps their
  pipes into the registry, waits for polls, writes log files and speaks MCP.
- `tests/` exercises the library.
