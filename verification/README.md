# termy

The backend of a terminal emulator: tabs with local shells and shells on servers,
a file tree over SFTP, transfers, and remote files that are edited locally.

`src/` is a library, verified with [Verus](https://github.com/verus-lang/verus),
that holds what the backend decides. Of the system it asks only where the home
directory is; all other input and output stays outside it.

| module | what it settles |
| --- | --- |
| `config` | what a new tab holds, and where to connect |
| `auth` | which ways to log in are tried, in what order, and what follows each |
| `opening` | the steps to a session, in an order that keeps logins from servers that are not trusted |
| `hostkey` | whether a server is trusted, and under which name it is remembered |
| `secrets` | places in the keychain, dialogs, and reading what they print |
| `shells` | reading a shell, keeping it alive, telling how it ended |
| `osc` | titles and directories in the output of a shell |
| `reconnect` | when a lost session is connected again |
| `sessions` | which tab is served by what |
| `listing` | the file tree of a directory, sorted |
| `transfer`, `edit` | moving files, and sending edits back |
| `lsof` | the directory of a local shell |
| `settings` | what is kept between two runs |
| `paths`, `text` | paths and text as sequences of characters |
| `events`, `failures` | what the window and the user are told |
| `outside` | what is taken from other crates and from std on trust |

Each function states in its contract what it returns. Properties that span
several functions are the public proof functions whose names begin with `law_`.

`tests/` runs the library. `app/` is the program around it: the commands that the
window calls, the sessions, the processes and the files.

Servers are listed in `~/.config/termy/known_hosts` by name and port: one on the
usual port under its host, any other as `[host]:port`. A server on another port
that stands in the list under its bare host is not looked up there: it is met as
new once, and listed under its own name.
