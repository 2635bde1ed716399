# eos-installer

The decisions of the E-OS installer, verified with [Verus](https://github.com/verus-lang/verus).

Installing erases a disk, so what decides about it is proved rather than tried: which disk an answer
names, which bytes of a device a write touches, which files are copied and removed, what the installed
machine comes up with on its network.

* `src/` is the verified library. Devices, files, the terminal and the desktop never appear in it:
  where the installer alternates between them and its own decisions, a state machine is told what
  happened and answers with what to do next.
  * `disk_wrapper`: byte-addressed reads and writes on a device with whole blocks
  * `disks`: finding disks, showing them, and asking which one to erase
  * `optional`, `toml_tree`: applications that may be declined, and their removal
  * `copy`, `packages`, `install`: the course of an installation
  * `net`: network settings, read from the live system and written into the new one
  * `window`: the pages of the graphical installer
  * `text`: strings
* `app/` is ordinary Rust around it: files, devices, threads, and what is drawn.
* `tests/` runs the library.

Public proof functions whose names start with `law_` state what holds of the library as a whole.
