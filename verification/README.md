# nd_lyrics

A lyrics plugin library for Navidrome, written in Verus: each function of
`src/` carries a contract that Verus proves.

- `src/format`: LRC, enhanced LRC, TTML and Lyricsfile handling, the LRC
  sanitizer, section labels and censoring.
- `src/config`: the plugin's settings, from raw host values to a checked
  configuration; cache times to live; the providers list.
- `src/fetch`: which providers a search asks and in which order, what their
  answers come to, how lyrics are ranked, and the search itself as a state
  machine that takes one answer at a time.
- `src/providers`: what each provider is asked and how its answers become
  lyrics (LRCLIB, lyrics.ovh, lrcmux, KuGou, NetEase, QQ Music, Apple Music,
  stixoi.info), with the KRC and YRC converters.
- `src/cache.rs`, `src/storage.rs`, `src/writing.rs`: cache entries, the
  lyrics store, and the paths lyrics files are written to.
- `app/`: the plugin around the library: the host's services, HTTP
  conversations with the providers, JSON decoding, and file writes.
  QQ Music is not offered there: its requests and search results are
  handled in `src/providers/qqmusic.rs`, but its lyrics arrive encrypted
  and their decryption is not part of this project.

The tests under `tests/` run the library on concrete inputs.
