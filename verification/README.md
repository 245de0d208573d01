# radeon-smi

Read-only monitoring of AMD graphics cards with the `radeon` and `amdgpu` drivers: a table of
devices and their users, a list, details, and CSV queries.

- `src/` is a library verified with Verus. It decides what the command line asks for, which devices
  there are and what they are called, what their readings are, who uses them, and what is printed.
  Each module ends with the laws that hold of it.
- `app/` is the program: it reads `/sys`, `/proc` and the device nodes, hands what it reads to the
  library as plain values, and prints the lines that come back. It also writes the power readings,
  which are floating point.
- `tests/` runs the library on concrete values.

| Module | What it is about |
| --- | --- |
| `text`, `number`, `order` | taking texts apart and building them, numbers in text, stable order |
| `pci`, `device` | the PCI id database, the cards of the DRM class directory |
| `process` | open files, clients and their video memory |
| `drm`, `telemetry` | request numbers, sensor files, the order of the questions to a driver |
| `options` | the command line |
| `csv`, `layout`, `report` | CSV fields, table cells, the lines of each report |
| `session` | choosing devices, and the course of a run |
