# mangapress

Converts manga/comic archives (`.cbz` or a folder of chapter folders) into
books tuned to an e-reader's screen: spread detection, margin and
page-number cropping, contrast, resizing, and EPUB/CBZ/PDF packaging.

The library in `src/` is verified with Verus: every public function states
what it returns in its contract (where a result comes from an outside
crate or the operating system, over a name for that result, or, for an
I/O error's wording, only the part the library writes), and the
properties that span functions (natural ordering is a total preorder,
sorting keeps every entry and orders them, grouping into chapters keeps
every page, a quarter turn one way undoes one the other way, written
events are numbered without a gap, extracting an archive the library
wrote gives its files back) are proved, as contracts or as lemmas.

- `gray`, `crop`, `contrast`, `fill_check`: the page raster and the integer
  image analysis (bounding boxes, edge-noise clearing, page-number and
  inter-panel detection, histogram trimming, background detection).
- `natural_sort`, `paths`, `text`: names, paths and their order.
- `archive`, `ebook`, `metadata`, `codec`: reading archives, chapters,
  `ComicInfo.xml`, EPUB and CBZ output, the pages of a PDF, image decoding
  and encoding.
- `profile`, `pipeline`, `resize`, `manga`, `cli`, `protocol`: device
  profiles and the per-page decisions, options, and the event stream.

`app/` holds the command-line program and the floating-point image steps
(gamma, the contrast lookup table, dithering, the FFT rainbow filter,
resampling, PDF layout), which the verified library cannot hold.
