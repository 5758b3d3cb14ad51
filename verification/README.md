# kehikko-desktop

The decisions of a desktop shell that opens a window on a local workbench
host and owns the host's lifetime: it adopts a host that is already up,
starts one from an executable `run.sh` when none is, and on the way out
stops exactly the process group it started — TERM, a grace period, then
KILL.

`src/` is the verified library. Every public function has a contract, and
the promises that span functions are proved as lemmas:

- `host` — where the host lives (variable, configuration file, default
  guess), whether a directory can be started, the origin list and the
  environment the host is started with.
- `json` — the two-key reader for `config.json` and the reading of ports.
- `lifecycle` — opening as a sequence of steps, letting go as another; an
  adopted host is never recorded, and only a recorded group is signalled.
- `status` — the sentences on the waiting-room page and the JSON quoting
  they travel in.
- `theme` — the remembered light or dark, and the colour of the first frame.
- `titlebar` — the injected title-bar script and the fullscreen statement.
- `text`, `path` — character-level searching, trimming, replacing, decimal
  rendering and Unix path joining.

`app/` is the Tauri program around it: the window, the process, the file
and network reads, and the signals.
