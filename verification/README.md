# tango

The library behind Tango's hosts: the game library (paths, settings,
saves, patches, packages, replays, scans), the selection policy that picks
what a session brings, and the netplay lobby's state machine, with their
behaviour stated as contracts and proved by Verus.

## Layout

- `src/` — the verified library.
  - `paths`, `text`, `order`: the component model of store paths, text
    helpers, and the orders the pickers sort by.
  - `storage`, `scanner`: the storage seam every file access goes through,
    listings, and when a rescan runs.
  - `config`, `save` (with `save::picker`), `tree`, `stats`, `replays`,
    `rom`, `patch`, `package` (with `package::install`), `http`: the
    library's content and its rules, including which package selections a
    library can take in and when an archive may be removed.
  - `loadout` (with `loadout::selection`): what the pickers offer and the
    selection policy.
  - `lobby`: the netplay lobby — state machine, ready handshake, handoff,
    compatibility verdict, matchmaking client and transport pump
    decisions, and the bytes the handshake exchanges.
  - `friend_code`, `dihedral`: friend codes and their Verhoeff check.
  - `web`: what the browser host shows, how it files imports, and how
    touch, keyboard and gamepads fold into one held-buttons word.
  - `backend`: the melonDS backend's screen layout and pixel conversion.
- `tests/` — tests of the library, run against the compiled crate.
- `app/` — the host side that is not verified: the native filesystem
  behind the storage seam, the settings file's JSON form, shared scanners
  behind locks, scan glue, and the body-reading half of a GET.
