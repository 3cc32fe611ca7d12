# pfnc

A dual-pane file manager for the terminal, for local disks, SFTP hosts and
archives: copy, move, delete, make directories, edit, and one-way directory
sync, all as jobs that can be cancelled.

The rules of the program are a library under `src/`, verified with Verus. It
touches no disk, network or terminal. Where something outside has to be done, a
function of the library says what is needed next and is told what came of it;
`app/` does the work in between.

| Modules | What they hold |
|---------|----------------|
| `path`, `vfs`, `text`, `numbers`, `hex` | paths, entries, locations, errors, and the texts made of them |
| `scan`, `scan_laws`, `sync_laws` | what a copy, delete or sync has to do, what a scan comes to, and what a sync does to two trees |
| `job`, `work`, `jobs`, `transfer` | the operations of a job in order, whole jobs, running jobs, one file's bytes |
| `archive`, `index`, `sparse`, `local`, `remote`, `registry` | the backends |
| `hostkey`, `auth`, `shell`, `deploy`, `agent`, `fast_path` | connecting, and the agent on the other host |
| `panel`, `mode`, `keymap`, `config`, `editor`, `view` | what is on screen and in the config file |
| `app`, `actions`, `app_laws` | what keys and the ends of jobs do |

Functions named `law_…` state what holds of several functions together, for
every input: that nothing is deleted or synced without approval, that the
originals of a move are kept until every operation of the copy was done, that
after a sync there is nothing left to sync, that a changed host key is refused,
that a request reads back as it was written.

`app/` is the program: terminal, threads, disk, SSH, QUIC and the config file.
Started under the name `pfnc-agent` it is the agent.
