# sonora

The verified core of Sonora, a desktop app for private peer-to-peer
listening rooms.

- `src/` is the library, verified with Verus: the audio and length-frame
  wire formats, room codes and the keys derived from them, the state a room
  shows and its list of listeners, the sources each capture back end offers
  and how a source id is read back, the clean-up of track metadata, the
  choice of artwork candidates, and the artwork cache.
- `tests/` runs the library on concrete values.
- `app/` is the desktop shell: the commands of the web interface,
  networking, capture and playback devices, the media session, HTTP, and the
  floating-point audio code.

## Collections

The artwork cache is keyed by a text key, and the artwork candidates are
de-duplicated by URL. `std`'s `HashMap<String, _>` and `HashSet<String>`
were tried for both: vstd specifies them only for keys that obey its hash
key model (integers, `bool` and boxes of them), so with `String` keys Verus
proved nothing of them (neither the length after one `insert` nor that the
first `insert` into an empty set is fresh). The cache therefore keeps a
`Vec` of entries with pairwise distinct keys, viewed as a `Map`, and the
candidates are de-duplicated by a verified scan that keeps each URL's first
occurrence.
