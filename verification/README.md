# linux_mod_manager

A mod manager for Steam games on Linux (Cyberpunk 2077 first): it finds the Steam
libraries and games, lists the mods installed in a game directory, enables, disables and
removes them, and installs mods and collections from NexusMods.

The decisions are made by a library verified with Verus (`src/`); the desktop shell
around it (`app/`) reads and writes the file system, talks to NexusMods and drives the
Tauri windows.

- `src/text.rs`: the vocabulary of texts (prefixes, splitting, trimming, numbers, paths).
- `src/sorting.rs`: a verified stable sort and the laws of its order.
- `src/steam.rs`: VDF files, app manifests, game filtering, Steam roots, cover art.
- `src/modding/`: the Cyberpunk 2077 scanners, display names, installed components.
- `src/installed.rs`: the per-game manifest of installed mods.
- `src/display.rs`: the mod list shown to the user, toggling and removal.
- `src/nexusmods.rs`: NexusMods links, API endpoints and replies, archive layouts,
  collections.
- `src/auth.rs`: the in-app NexusMods session and sign-in windows, NXM arguments.
- `src/codec.rs`: base64 and UTF-8 decoding, through their crates.

`tests/` exercises the library on concrete values.
