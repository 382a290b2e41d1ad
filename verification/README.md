# disk_analyzer

A disk usage analyzer: it scans a directory or a disk into a tree, computes
directory sizes, sorts and filters the tree, groups files into categories,
keeps scans in SQLite, and lets the user browse and delete entries in a
terminal interface.

- `src/` is the library, written in Verus: the tree model and its measures,
  the size calculation, sorting, filtering, the statistics by category, the
  decisions of a scan, the rules by which saved scans are matched and read
  back, and the state machine of the interface with the effect of each key.
  Every function there carries a contract that Verus proves.
- `app/` is the program around it: the event loop and drawing (crossterm,
  ratatui), walking the file system (rayon), the SQLite store (rusqlite), the
  list of disks (sysinfo) and timestamps (chrono).
- `tests/` exercises the library on concrete trees and states.
