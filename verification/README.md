# ridi_router

The verified core of a motorcycle route planner that works on OpenStreetMap
data, written in Verus. Every function under `src/` carries a `requires` /
`ensures` contract. Verus proves them all except those of the three
functions marked `#[verifier::external_body]`, which call outside code (the
JSON lexer of `json-tools`, std's UTF-8 decoding and std's `Debug` quoting of
a string) and whose contracts are trusted.

## Layout

- `src/` — the library.
  - `gps_hash`, `gps_coords_hash_map`: spatial hashes of coordinates (bit
    interleaving) and the search for the nearest hash block holding points.
  - `osm`, `osm_data`: OpenStreetMap ways, relations and tags; the streaming
    reader of Overpass JSON (a state machine over the tokens of each line);
    the rules by which the PBF readers choose ways and read relation members;
    which ways and relations the map loader keeps, the order in which nested
    relations are resolved, the joining of area member ways into closed
    rings, and the polygons of residential and military areas.
  - `generation`: the choice of the nodes, ways and restrictions that a tile
    needs, and the per-tile graph of points, lines, tags and turn restrictions
    built from them.
  - `rmdf`: tile ids and file names, the tile manifest's neighbours, and the
    layout of a tile file (points in spatial order, lines, rules, tag tables).
  - `proximity`: the proximity grid of residential and no-go areas and its
    byte encoding.
  - `map_data`, `viewer_api`: references into loaded tiles, the points and
    lines they resolve to, and the answers of the tile viewer.
  - `gpx_writer`: the order in which route statistics are listed.
  - `output_dir`: the steps that prepare an empty output directory.
  - `text`, `numbers`, `sorted`: string, number-parsing and sorted-list
    helpers with their specifications.
- `tests/` — tests of the library.
- `app/` — the command-line program around the library: file and network
  input and output, floating-point geometry, and serialization.

## Verification

Verus verifies `src/`; the tests run against the compiled library with the
outside crates linked.
