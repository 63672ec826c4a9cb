# disk_clear_tool

The logic of a Windows disk-cleaning and disk-usage analysis tool, written in
Verus with its behaviour stated as contracts and proved.

- `src/` is the verified library:
  - `classify` — the cleanability verdict of a path (segment-exact rules,
    most specific first, critical system files never `Safe`);
  - `paths` — where each cleaning category looks, given the environment,
    directory listings and which paths exist;
  - `cleaner` — scan and clean tallies (saturating sums, at most 50 errors),
    disk figures;
  - `delete` — deleting analyzer picks behind the classifier's safety gate;
  - `topn`, `drive`, `walk` — the streaming Top-N collector, the single-pass
    drive scan with nested monitored directories, directory totals;
  - `diff` — snapshot diffs with move detection;
  - `snapstore`, `stores` — snapshot index and pruning, history (newest 500),
    schedule and analyzer settings;
  - `cli`, `tasks`, `schedule` — the headless command line, the `schtasks` and
    `reg` command lines, the scheduler's wait;
  - `text`, `order`, `sort`, `lexsort`, `clock` — shared helpers and the
    calls into `chrono` and std.
- `app/` is the command-line program around it: file and process I/O, JSON,
  the Windows API and the timer.
- `tests/` runs the library on concrete cases.
