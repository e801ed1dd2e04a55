# pseudofs

The logic of a kernel's pseudo file systems, verified with Verus.

The library in `src/` holds what is decided and computed:

* `cgroup`: control groups. A forest of directories and a registry of memberships
  are two indexes that share one publication bit, so that a fork's place is taken
  before the child exists and becomes visible in one step.
* `evdev`: input event devices. A device collects what its driver reports into
  frames and hands each to every open file, through that file's masks.
* `fuse`: file systems in user space. A connection numbers requests and matches
  replies; a superblock keeps ranges of file contents, names and attributes, and
  applies the daemon's notices to them.
* `scanout`, `bootfb`, `fb`, `console_font`, `early_screen`, `drm`: the display.
* `log`, `registration`, `error`, `bytes`, `text`: what the others share.

Functions whose names begin with `law_` state what holds across operations.

`app/` is ordinary Rust around the library: it waits, wakes, copies to and from
user memory and calls drivers. Each of its modules takes the kernel's services as
a trait.

`tests/` runs the library on concrete values, with the outside crates linked.
