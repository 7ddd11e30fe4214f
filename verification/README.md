# ak_assets

Tools for the assets of Arknights: reading Unity asset bundles (`UnityFS`),
decompressing their storage blocks (LZ4 and the LZ4Inv variant with
big-endian offsets), decoding serialized files and their type trees, and
extracting textures, text, audio and script data; and, for the downloader,
the servers, the addresses of their files and the record of completed
downloads.

## Layout

- `src/` — the library, written and proved with Verus.
  - `unpacker/lz4inv.rs` — the LZ4Inv decoder.
  - `unpacker/bundle/read.rs` — an in-memory reader and the primitive decoders.
  - `unpacker/bundle/{header,block,serialized,typetree}.rs` — the parts of a bundle.
  - `unpacker/bundle/asset/` — the asset kinds.
  - `unpacker/bundle/extraction.rs` — what each object of a bundle yields.
  - `unpacker/extract.rs` — which downloaded files are archives and bundles,
    and the files that each zip archive yields.
  - `downloader/` — servers, addresses, documents, download record.
  - `cli.rs` — the server names of the command line.
- `tests/` — tests of the library on concrete inputs.
- `app/` — the command line and all file and network work: walking
  directories, reading and writing files, HTTP, progress bars and JSON output.

Every function of `src/` states its result in its contract; the proof
functions there state the laws that hold across calls (for instance that a
literal-only LZ4Inv sequence decodes to its literals, that stored blocks are
copied unchanged, and that a recorded download is up to date).
