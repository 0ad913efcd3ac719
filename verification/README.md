# rsaver

The core of a terminal dashboard that manages Windows screensavers, written
in Verus: every rule of the dashboard is an executable function with a
contract, proved by the verifier.

- `src/` — the verified library: text measurement and wrapping (`text`),
  the document viewer's markdown model (`markdown`), a one-line text input
  (`textbox`), screen geometry (`layout`), panel texts (`panels`), dashboard
  state rules (`state`), the dashboard's state and what each key does to it
  (`dashboard`), command-line parsing (`cli`), the
  user's preferences file (`prefs`), registry settings
  (`registry`), repairing saved settings (`config`), screensaver discovery
  rules (`preview`), the random cycle (`cycle`), the online catalog
  (`downloader`), the diagnostics log format (`logger`), installer commands
  (`install`), and the standard-library path and case operations they use
  (`paths`, `chars`).
- `app/` — the program around it: the terminal session and drawing, file and
  registry access, downloads, processes and the log file.
- `tests/` — tests of the library on concrete values.

## Dashboard keys

- `Tab` / `Shift-Tab`: switch between the preferences and the list.
- `↑` / `↓` (or `k` / `j`): move through the preference fields or the list.
- `←` / `→`: change the timeout by a minute, or toggle the focused switch.
- `Enter` / `Space`: toggle the focused preference; `Enter` or `a` on the
  list applies the highlighted screensaver.
- `Space` on the list, `p`, `t`: preview the highlighted screensaver.
- `c`: open the highlighted screensaver's own settings dialog (`/c`).
- `d`: delete the highlighted screensaver, when it was downloaded into the
  drop folder.
- `r`: look for screensavers again. `F1`–`F7`: open the bundled documents.
- `h`: help. `q` / `Esc`: close an overlay, or quit.

The dashboard has no search filter and no catalog screen, so `f` does
nothing; the catalog feeds set in `config.yaml` are read and kept, and the
download machinery (`downloader` and `app/catalog.rs`) is not reached from
any key.
