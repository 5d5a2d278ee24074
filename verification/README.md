# simulator

A simulator of hierarchical viewport caching for 360-degree video, verified
with Verus.

- `src/ratio.rs`: coverage ratios as exact fractions of integers, compared
  exactly as fractions; a zero denominator stands for not-a-number (`0/0`) or
  an infinity, ordered as floating-point values are.
- `src/ds.rs`: viewports on a panorama 3840 pixels wide that wraps around;
  resizing a viewport around its centre, and how much of one viewport another
  covers.
- `src/text.rs`: splitting lines and reading integers as `str::parse` does;
  the lines of the trace dump and of a user's viewport file.
- `src/simulator.rs`: frames and object paths from the trace dump, and the
  per-frame choice of path and cache level, with the laws the simulation keeps.
- `app/main.rs`: the command-line driver (file and directory reading, the
  JSON file of video objects, the threshold given as a float, printing).

Usage: `app <user viewport dir> <trace dump> <cluster json> <threshold> <segment>
<width> <height> <level two width> <level two height>`.
