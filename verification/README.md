# dsh-desktop

A desktop shell for `npx -y @deepseek-ai/dsh web`: it finds or installs Node.js, runs the command in
a terminal, opens the page of the service in a window, recovers where plugins keep the service from
starting, and keeps itself up to date with signed packages.

`src/` is the library: what the shell decides and computes, with contracts that Verus proves.

| module | what it is about |
| --- | --- |
| `text`, `number`, `utf8`, `json` | characters, lines and words; numbers; bytes; JSON strings |
| `event` | what the window is told |
| `terminal`, `reader` | the output of the command: plain text, questions, the address of the service |
| `launch`, `wait` | how the command is started, and the wait for the service |
| `profile`, `patch`, `patch_laws`, `diagnose`, `recovery` | plugins that keep the service from starting |
| `release`, `signature`, `download`, `update`, `install` | releases, and the course of an update |
| `environment` | Node.js: the search for it and its installation |
| `ui`, `window`, `icon` | pages, scripts, and what an event means for the window |

`app/` is the program around it: windows, processes, files and the network. `tests/` run the library
with the crates that it calls.
