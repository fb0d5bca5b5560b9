# goes_abi

The verified core of a GOES ABI satellite renderer and NASA FIRMS VIIRS
active-fire ingest, written in Verus.

- `src/` is the library. Its public functions carry contracts that Verus
  proves; calls into `image`, `csv` and `chrono` go through small trusted
  wrappers whose contracts state, or name where stating it would take pages,
  what those crates return.
  - `png.rs`: colours, PNG writer options and PNG encoding of RGBA8 buffers.
  - `satellite/rgb.rs`: RGB composite products, their ABI channels, pixel opacity.
  - `satellite/netcdf.rs`: dataset shapes, 2D windows, text attributes.
  - `viirs/`: source names and confidence levels, request checks, the FIRMS
    Area API URL, CSV rows, detection filters and per-label summaries.
  - `text.rs`: trimming, ASCII case folding and comparisons over `Seq<char>`.
- The fire summary keeps its counts as a `Vec<(String, usize)>` held in strictly
  increasing key order (`ViirsFireSummary::well_formed`), the order a
  `BTreeMap<String, usize>` iterates in. vstd's `BTreeMap` specification holds
  only for key types known to obey its `Ord` model (`obeys_cmp`), which vstd does
  not establish for `String`, so the sorted vector and its proof stand in for the
  map; `app/` turns it back into a `BTreeMap` for the JSON report.
- For the same reason, with `String` keys, a CSV row keeps its header/value
  pairs as a `Vec<(String, String)>` in column order (`app/` collects them into
  a `BTreeMap`), and a header is looked up by scanning the trimmed, lower-cased
  header names (`lookup_keys`, `column_of`) rather than through a `HashMap`
  index; vstd's `HashMap` specification likewise holds only for keys whose hash
  is known to obey its model. The scan gives what the map would: the last
  column of a name, as a map built from the headers in order keeps it.
- `tests/` exercises the library on concrete inputs.
- `app/` holds what the library leaves out: file and network I/O, timing,
  floating-point radiometry and coordinates, JSON output, and serde forms of the
  library's types.
