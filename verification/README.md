# setlister

SetlisteR fetches artists' setlists from setlist.fm and prints, per artist, a
ranked, setlist-shaped song list.

- `src/` is the verified library (Verus): argument validation, per-song statistics
  over setlists, playlist selection and ranking, the setlist.fm request addresses and
  pacing, the printed report, and where secrets are stored and read.
- `app/` is the command-line program around it: argument parsing (clap), the HTTP
  client (reqwest, tokio), JSON reading (serde), the system keyring, and printing.
- `tests/` runs the library on concrete inputs.
