# xpde

The XPDE shell's logic as a verified library: desktop entries and the
application index, pinned web sites (probing a page, pinning, the on-disk
records and their desktop entries), sitemap trees, feeds, keyword search
providers and federated search, and the address bar.

- `src/` is the library. Every function there carries a contract that Verus
  proves; calls into outside crates (`url`, `scraper`, `quick-xml`,
  `feed-rs`, `serde_json`, `sha2`, `hex`, `urlencoding`) go through small
  trusted wrappers whose contracts name what the crate computes.
- Work that waits on the network is written as state machines
  (`probe::probe_step`, `tree::walk_step`): the library decides, and the
  program runs the fetches it asks for.
- `app/` is the program: the D-Bus service, HTTP, files, the environment,
  and the serde forms of the library's records. Started as `xpde-webview` or
  `xpde-open-url` it acts as those helpers.
- `tests/` exercises the library on concrete values.

Three collections differ in form from what a plain Rust program would use:
the pinned sites (`store::SiteStore`) are a `Vec` whose ids are kept
distinct by a type invariant, the sitemap walk records visited documents in
a `Vec`, and the application index finds the ids it has already listed by looking
them up in the `Vec` of entries it builds (`desktop::list_apps`). A `HashMap` or `HashSet` keyed by `String`
was not used because Verus's specifications of those std collections give
nothing provable for `String` keys; the forms here let the contracts speak
of the contents as a map and a sequence.

Feeds are parsed by `feed-rs`, which can panic on two kinds of input: an
XML declaration that names an encoding after its first 64 bytes have been
decoded, and time values (`<itunes:duration>`, Media RSS `start`, `end`
and `time`) holding numbers it cannot parse. `feed::feed_items` first tests
the document against `feedscan::feed_safe`, which follows how the parser
decodes the bytes and gathers an element's text, and answers
`FeedError::Refused` where it does not hold. Its remaining margin is
narrow: a time value with a character reference, a non-ASCII character or
more than fifteen significant digits; a late or over-long declaration that
names the encoding already in use; a UTF-16 document whose declaration
names an encoding, or a document with a NUL byte whose opening
declaration names one; and an ISO-2022-JP document with escape sequences.
