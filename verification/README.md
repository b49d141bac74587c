# Dimsome

Dimsome is a Windows tray app for software screen dimming: it darkens the
displays with overlays, gamma ramps or a Magnification color effect, follows a
daily schedule of dim levels with timed fades, lets the user override the
schedule by hand or with global hotkeys, and can launch at sign-in.

This crate holds the app's decisions as a library verified with Verus:

- `schedule`: normalizing and validating settings, and what the schedule says at
  a given time; `timeline` lays the points out day by day and evaluates them.
- `state`: the runtime state machine (manual levels, pause and resume, hotkey nudges).
- `hotkeys`: reading hotkey bindings and deciding what the hotkey thread registers.
- `dimming`: gamma ramps, Magnification matrices, overlay opacity, the dimming
  thread's decisions and display bookkeeping.
- `tray`: tray labels, presets and the settings window's placement.
- `models`, `settings`, `startup`: the data model, loading defaults, launch at sign-in.
- `text`, `sorting`: character and ordering utilities with their proofs.

Dim levels are held in hundredths of a percent (`2500` is 25%) and instants as
seconds since the epoch with a UTC offset.

`app/` is the program around the library: the Tauri shell, the Win32 dimming
and hotkey threads, the settings file and the registry.
