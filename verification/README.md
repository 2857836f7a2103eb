# stegstr

Steganography that survives social-media JPEG processing: a message is framed
into a checksummed packet, optionally XOR-encrypted with an open-mode key, and
hidden in an image either by block-average quantisation of 8x8 blocks with a
repetition code (JPEG modes) or in the least significant bits of the pixels
(lossless mode).

- `src/` is the library, verified with Verus: packet framing and checking
  (with CRC-32 stated bit by bit, so that any corruption of one byte of a
  packet's flags, body or CRC is proved to be caught),
  bit coding, the repetition code and its majority decoder, the lossless
  writer and reader, detection, mode and platform decisions, base64, text and
  JSON rendering, block geometry, and note bundles. Its public proof functions (`law_*`) state the
  round trips: unpacking a packed body, opening a sealed message, reading
  back what each carrier writer wrote, and detecting a robustly embedded
  message.
- `app/` is the command-line tool `stegstr-cli`: argument parsing, image and
  file I/O, the JSON of note bundles, and the floating-point luma quantisation of blocks.
- `tests/` exercises the library on concrete values.
