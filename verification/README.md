# armature_files

File processing with proved contracts: ZIP archives built in memory and
extracted from untrusted bytes, PDF documents laid out and written, and
pipelines of image operations planned around a single decoding.

- `src/` is the library.  Every function in it is verified with Verus; what is
  taken from `bytes`, `zip`, `lopdf`, `mime_guess` and the standard library is
  declared next to its use, with what is believed of it.
  - `archive` builds and extracts archives, and decides how a directory tree is
    walked to fill one (`archive::directory`) and how extracted files are moved
    into place (`archive::promotion`).  `archive::laws` states what holds of
    building and extracting taken together.
  - `pdf` lays out documents in a number type of the caller's choice
    (`pdf::points`) and assembles the objects of the file.  `pdf::laws` states
    what holds of laying out text.
  - `pipeline` and `multi_size` work out what an image codec has to do.
- `tests/` runs the library with the outside crates linked.
- `app/` adds the file system, a runtime, serialization and lengths in single
  precision.
