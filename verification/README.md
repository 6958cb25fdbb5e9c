# bperf

bperf measures browser code and decides whether a change helped. It runs a benchmark module in
Chromium, Firefox, and WebKit, keeps the evidence of every trial, compares a change with the promoted
baseline, and keeps the history of measured changes.

## Layout

- `src/` is the library: definitions of benchmarks and variants, measurement sets and their logs,
  the retention of artifacts, environments, fixtures, the benchmark host, source states, the
  history of changes, promotion, and the two terminal screens. Its functions are written in Verus;
  their contracts are proved.
- `app/` is the program around it: the command line, files, processes, the loopback server, the
  terminal, and everything that is computed with floating-point numbers.
- `tests/` runs the library on concrete values.

## What the library rests on

Paths are texts with slashes; those of Windows are read with a slash in place of each separator and
one before the drive. Numbers with a fraction are kept by their bits and compared, never
computed. What lies on a disk, what a process printed, and what time it is are handed in by the
program as plain values.

A few functions of other crates are called through declarations whose contracts are not proved:
SHA-256 from `sha2`, the URI parser of `http` as `ureq` exports it, the form decoder of
`form_urlencoded`, and from the standard library `String::push`, `str::from_utf8`, and the quoting of
a string. Each says in its comment what it claims.

## Laws

Besides the contracts of its functions the library states laws that relate several of them, as public
proof functions. Among them: an accepted result keeps the log of a measurement readable, a trial has
one valid attempt, every workload and engine keeps its artifacts, accepted artifacts hold the bytes
that are reported, a pinned fixture is kept or refused and a changed file is pinned anew, a written
history is read back, the cycles of a history form one chain, an exact retry appends nothing, a fifth
candidate requires a confirmation, and the lines of a diff rebuild the new text.
