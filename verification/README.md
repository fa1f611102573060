# ghlens

The event history of a GitHub repository in the terminal: branch changes, pull
requests, issues, comments, reviews, stars, forks and releases in one list, newest
first, with a chart of the days and a filter for every column.

The logic is a library that is verified with Verus; the terminal and the calls of
`gh` are ordinary Rust around it.

## Layout

- `src/` is the verified library.
  - `text`, `json`: strings and JSON values
  - `event`, `feed`, `gh`, `load`: what the feeds of GitHub say, as a sorted list of
    events
  - `cli`: the arguments of the program
  - `app`, `input`: the state, the filters, and what keys and the mouse do
  - `layout`, `screen`: what stands where on the screen
  - `laws`, `chart_laws`: what holds of all of it together
- `app/` is the program: it runs `gh`, reads the terminal and draws.
- `tests/` runs the library.

## What is trusted

A few functions of `std`, `serde_json` and `ratatui` are taken at their word: each is
declared with the contract that the proofs rest on (see the doc comments of
`to_lowercase`, `push`, `pop` and `from_utf8_lossy` in `text`, of the readers of
values in `json`, and of `split` and `inner` in `layout`).

## Use

    ghlens                        the repository of the current directory
    ghlens push cli/cli           the repository cli/cli, filtered by "push"
    ghlens -R cli/cli             the same without a filter

`gh` has to be on the path and logged in. Piped, the program prints the filtered
rows instead of drawing them.
