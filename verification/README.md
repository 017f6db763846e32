# vellcro

Curation helpers for a music collection kept as Nix expressions: album
manifests rendered from MusicBrainz and Discogs metadata, CUETools TOC ids
of ripped discs, and collection entries for Discogs releases.

The library in `src/` is verified with Verus:

- `text`, `json`: strings and the JSON document model, with their
  mathematical views.
- `utils`, `config`: paths, file-name slugs, track sort keys, artist
  credits, year-month dates, and the settings.
- `manifest` (with `manifest::keys`): key resolution, track extraction,
  track filters and the rendered Nix manifest.
- `discid`: play order of FLAC tracks and the TOC id.
- `remote`, `collection`: the steps of fetching metadata and of adding a
  collection entry, as state machines whose actions the caller performs.
- `natural_order`, `glob`, `pattern`, `digest`: contracts for the
  `alphanumeric-sort`, `globset`, `regex`, `sha1`, `xxhash-rust` and
  `base64` calls the library makes.

`app/` is the command line: it reads files, runs `nix`, talks HTTP and
feeds the answers back to the library.

The manifest settings hold one key table per flag (`metadata`, `mbid`,
`url`); a flag's section renders the keys of its own table. The command
line has `manifest` (with `--torrent` or `--disk`), `discid` and `add`.
