# mkwp

Builds macOS Dynamic Desktop wallpapers: a HEIF file holding several images
and the `apple_desktop:h24` XMP metadata that tells macOS when to show each.

The library under `src/` is verified with Verus:

- `input` — the manifest entries (time of day or sun position).
- `metadata` — the time and solar payloads, their errors, the property list
  layout (`ti`/`si`, `i`, `t`, `a`, `z`, `ap`, `l`, `d`), and the XMP packet
  that carries the base64 of the binary property list.
- `img` — HEVC presets, the checks before encoding (one primary image, sizes
  that libheif takes), reading JPEG/PNG contents into RGB pixels, and the
  row-by-row pixel copy into a strided plane.
- `cli` — the log level argument.
- `text` — decimal numbers, ASCII case folding and colon-separated fields.
- `laws` — properties of the metadata that hold for every manifest.

`app/` is the program: command line, JSON reading with serde, the property
list values (which hold floating-point numbers) and their serialisation, file
reading, and the libheif calls.
