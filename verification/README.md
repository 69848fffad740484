# tomcat_manager

A command line client for the Apache Tomcat Manager text API, with a verified core.

- `src/` is the library: the requests that the commands make, how answers are read,
  what is written in each output format, saved profiles, and the decisions of retrying,
  waiting and expiring sessions from a list. Every function states what it does and is
  proved to do it by Verus.
- `app/` is the `tomcat` command: arguments, files, the network and the clock.
- `tests/` runs the library.

Colours come from the crate `colored` and tables from the crate `tabled`; what the
library relies on in them is stated in `src/style.rs` and `src/table.rs`.
