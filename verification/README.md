# fovea-io

Image file codecs: BMP and JPEG bytes in and out of typed images, verified with
Verus.

- `src/` is the library. It decodes and encodes in memory; nothing in it touches
  a file or a stream. Every function states what it computes, and Verus proves
  it. The entropy coding of JPEG is left to the `jpeg-decoder` and
  `jpeg-encoder` crates. What is taken on trust, of these crates and of the
  standard library, stands in the contracts of a few small functions, each
  marked `external_body`.
- `tests/` runs the library, with those crates, on concrete files.
- `app/` reads streams, writes bytes out, and converts between the library's
  images and those of the `fovea` crate.

## Layout of the library

| Module  | Contents                                                           |
|---------|--------------------------------------------------------------------|
| `image` | Images and their mathematical model                                |
| `pixel` | Pixel types                                                        |
| `text`  | Bytes and numbers as text                                          |
| `error` | The error type                                                     |
| `bmp`   | Headers, masks, palettes, pixel layouts, run-length decoding       |
| `jpeg`  | Marker segments, TIFF and EXIF, what the codec crates take and give |

The crate root detects formats and loads files of either kind. The modules whose
names end in `laws` prove what holds of several functions together, such as that
an encoded BMP image decodes to itself.
