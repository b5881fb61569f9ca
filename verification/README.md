# qemu_agent

Run commands in a microVM over a single serial channel. A server in the guest
hosts a command behind a PTY; a client on the host bridges the local terminal to
it. Both ends talk in length-prefixed frames over one byte stream.

The library under `src/` decides, the programs under `app/` act: the library
reads, writes and runs nothing, it takes what was found out and tells what to do
next. The library is verified with
[Verus](https://github.com/verus-lang/verus); its contracts say exactly what each function returns, and functions named
`law_…` prove what holds of the whole.

| Module                          | What it decides                                      |
| ------------------------------- | ---------------------------------------------------- |
| `frame`, `reader`               | the wire format, and reading it piece by piece       |
| `attach`, `terminal`, `escape`  | the client's end of a session                        |
| `server`, `session`, `login`    | the server's end of a session                        |
| `status`                        | exit codes                                           |
| `kernel`, `qemu`, `launch`      | how a VM is booted                                   |
| `vmctl`                         | VM environments and the processes of a session       |
| `command`, `path`, `text`, `error` | command lines, paths, text, errors                |

## What is trusted

- the wait status macros of `libc` (`WIFEXITED`, `WEXITSTATUS`, `WIFSIGNALED`,
  `WTERMSIG`), as they are on Linux;
- `String::from_utf8_lossy`, which shows paths.

## Programs

The executable acts by the name it is invoked under: `server`, `agent-server`,
`client`, `init`, and otherwise `vmctl`:

```
$ vmctl init --root-fs base.qcow2
$ vmctl run -- /bin/sh -c 'uname -a'
```

`Ctrl-]` then `q` disconnects.
