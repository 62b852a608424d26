# lantern

The verified core of LANtern, a local-first LAN scanner: what a scan
decides (which hosts are present, what is recorded of each, which earlier
devices stay listed as offline, in what order devices are shown), and the
parsers and rules behind its tools (neighbor tables, MAC addresses, OUI
vendors, DHCP offers, ports expressions, ping output, Wake-on-LAN packets,
DNS inputs, network identity and selection).

- `src/` is the library, written in Verus: every function carries a
  contract and is proved against it; the `lemma_*` proof functions state
  properties that span several functions.
- `tests/` exercises the library on concrete values.
- `app/` is the backend around it: sockets, subprocesses, files, the SQLite
  store and the command handlers.

The vendor table is data, not code: `OuiTable::load` parses the IEEE OUI
text (`oui.txt`, one `AA:BB:CC<TAB>Vendor` line per assignment) and
`OuiTable::lookup` answers from it. The application reads that file at run
time (from `LANTERN_OUI_PATH`, or `resources/oui.txt` or `oui.txt` beside
the executable). The full IEEE table is not shipped in this repository;
without the file no vendor is known. The tests use a few real assignments
as a fixture.
