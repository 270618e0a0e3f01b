# SysInfo

A dashboard for the terminal that shows live hardware telemetry and pending
package updates. Everything it shows is detected while it runs.

The library under `src/` is verified with Verus. It takes the texts of files
under `/proc` and `/sys` and the output of a few commands, and turns them into
the pages of the dashboard. The program under `app/` reads the files, runs the
commands, keeps the time, renders numbers and draws to the terminal.

## Tabs

1. **System & Load**: host, load average, CPU model, frequency, governor and
   temperatures, pending updates (pacman, AUR, flatpak, npm, rustup, cargo, pipx,
   pip, gem, go, composer, deno).
2. **CPU Cores**: a gauge for each core, and temperatures.
3. **Memory & Disk**: main memory, every ZRAM device, block devices.
4. **GPUs**: every card under `/sys/class/drm` with its sensors and video memory.
5. **Network**: traffic and IPv4 address of each interface, Wi-Fi capabilities.
6. **All Sensors**: every hwmon chip that shows something, and a hint at the
   driver that may be missing where no fan is exposed.

## Keys

`1`-`6`, `h`, `l` and the arrow keys switch tabs, `r` checks for updates, `q`,
`Esc` and `Ctrl-C` quit.

## The library

| Module | |
|---|---|
| `text`, `number`, `layout` | characters, words, lines, fields, decimal numbers, columns |
| `names`, `table` | the order of names, things that go by a name, tables keyed by name |
| `host`, `cpu`, `memory`, `gpu`, `wifi`, `net` | the readers |
| `hwmon` | chips and their sensors |
| `cache`, `sampler` | values that are kept for a while, samples over time |
| `updates`, `commands` | the update check, and the commands it runs |
| `keys` | what the keys do |
| `page`, `readings`, `ui` | the pages of the tabs |

A page is text with numbers and gauges that are still to be drawn: floating
point is left to the program.
