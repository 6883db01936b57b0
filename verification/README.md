# ambermap

A renderer of Minecraft Bedrock Edition worlds into web map tiles, with its
decoding and planning logic verified by Verus.

`src/` is the verified library:

- `common`: block and chunk coordinates, the error type, little-endian
  helpers, text helpers.
- `leveldb`: database keys, the table-file format (varints, block handles,
  prefix-compressed blocks, footers), block and payload decompression, a
  sorted in-memory key-value store, and chunk lookup.
- `nbt`: the little-endian NBT tag format.
- `subchunk`: block palettes and the subchunk storage layouts (legacy, 8, 9).
- `raster`: the colour table, the top-down column scan, hill-shading inputs.
- `tiler`: tile coordinates, chunk stitching, 2x2 pyramid downsampling,
  tile formats, and the planning of a render (grouping, bounds, metadata).
- `web`: request routing, media types and the status document of the viewer.
- `cli`: dimension names and number formatting for the command line.

`app/` is the command-line program: reading world files, compositing
colours in floating point, writing images, and the HTTP server.
