# Neutron Imaging Launcher

One entry point for imaging applications, notebooks and web pages, driven by a
configuration file. The decisions of the launcher are a library verified with
Verus; the window around it is an egui program.

## Layout

- `src/` is the verified library. Apart from reading the clock it holds no I/O:
  it takes what was read and what happened as plain values, and gives back what
  to show and what to do.
  - `config`: the configuration, searching, availability, the guess whether an
    entry needs a browser.
  - `listing`, `frame`: what is hidden, listed and recently used, the headings,
    the order of the screen, and how the keyboard moves through it.
  - `unlock`: categories behind a password.
  - `state`, `upkeep`, `requests`, `watch`: the state of the
    launcher, and the events that change it: reloads, launches, processes that
    fail, scans for browsers on other machines.
  - `launch`, `shell`, `paths`: how a process is started, and where files live.
  - `recent`, `usage`: the launch history and the usage records.
  - `browser`: logs, scan reports and profile locks.
  - `panel`, `preview`, `theme`, `zoom`, `prefs`: texts, screenshots and
    preferences.
  - `laws`: what holds of the launcher as a whole.
- `tests/` runs the library.
- `app/` is the program: the window, files, processes and the environment.

## What is believed without proof

`text`, `paths`, `preview` and `clock` hold the functions whose contracts are
trusted: `String::push`, `char::is_whitespace`, `str::to_lowercase`,
`String::from_utf8_lossy`, `Path::parent`, `image::load_from_memory` and
`SystemTime::now`. Each says what is claimed of it.

## Configuration

The first argument names the configuration file, else
`UNIFIED_LAUNCHER_CONFIG` does, else the default place is used. A changed file
is loaded again by itself. An entry is either a `command` or a `url`. A category
with `passwords` is hidden until one of them is typed, in capitals or not; they
stand in plain text in the file, so this is a courtesy and no protection. With
`usage_db`, every successful launch becomes one line of JSON in
`<usage_db>/records/<user>.jsonl`.
