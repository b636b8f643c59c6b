# uv_resolver

The decisions behind resolving and installing Python packages, verified with Verus.

The library never waits, reads or prints. It says what is to be done next and what it has to be told
before it can go on. The program around it, under `app/`, does the waiting, reading and printing.

## Layout

- `order`, `version`, `pep440`: versions and their order.
- `range`, `specifier`, `python`: sets of versions, and the ranges that specifiers stand for.
- `collections`, `package`, `dist`, `availability`, `error`, `request`: the values that are passed
  around.
- `solver`: the PubGrub solver, with the history of what it was told. Everything it answers is a
  function of that history.
- `state`: a solver with the package that is next, the pins and the priorities.
- `selection`, `dependencies`, `forks`: how a version is chosen, how its dependencies are found, and
  how they split into forks.
- `step`, `transition`, `resolver`: the resolver as a state machine. `transition` says what each
  answer leads to, and `resolver` does it.
- `resolution`, `outcome`: what was resolved, and how a resolution ends.
- `fetch`: how a request for metadata is processed, and what is recorded of its response.
- `registry`: what was already asked for, so that everything is fetched once.
- `install`, `style`, `text`: the installation command and its messages.
- `laws`: what holds of each step of a resolution.
- `support`, `soundness`: that everything a resolution does rests on what was found, and that every
  step keeps it so.
- `promises`: what a complete resolution promises. Every requirement is resolved in its range, with
  the dependencies of everything that is resolved, what comes from a registry is pinned, and for a
  single environment no package has two versions.

## Trusted code

The solver, its ranges and the order of versions come from outside crates, as do colors and
indentation. Each call stands in a small function of its own with a contract that is believed, and
says so in its comment.
