# xpm

The logic of a package manager for Arch Linux that handles packages of pacman and of Flatpak, written
in Verus.

- `src/` is the library. Everything in it is verified: versions and their order, progress and its
  notation, the configuration of pacman, dependency trees, the catalogue of a Flatpak remote, the news
  feed, the output of running commands, the lists of the window and what the user can ask for.
- `app/` is the program around it: files, processes, the pseudo terminal, the tray icon, libalpm and
  libflatpak.
- `tests/` runs the library.

Functions take what was read and say what is to be shown or run. Texts are sequences of characters in
contracts; structures with texts in them have a model of the same shape. Outside crates are called in
`xml.rs` (quick-xml), `json.rs` (serde_json), `catalogue.rs` (flate2), `tray.rs` (image) and
`backend.rs` (chrono); what is taken on trust there is said at each call.
