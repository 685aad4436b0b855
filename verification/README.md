# tilings

The verified core of a web application for drawing and storing periodic
tilings of the plane.

- `src/` is the library, verified with Verus. It holds the logic that works on
  integers, booleans and text: the column layout and fixed-point text of
  numbers, the cyclic index arithmetic and linking of an atlas's vertex stars and the
  walk around a tile's boundary from one vertex star to the next,
  the decoding of tiling configurations, how stored atlases and polygons are
  read back from their rows and how posted ones are turned into rows, error
  responses, roles and edit checks, account rules and password hashing,
  API-key and session authentication, rate limiting, and URL query handling.
  Calls into outside crates (argon2, base64, itertools, percent-encoding,
  rand, regex, validator) stand behind small trusted wrappers whose contracts
  say what the crates document.
- `tests/` runs the library with the real outside crates.
- `app/` is ordinary Rust around the library: the floating-point geometry of
  the client (points, affine maps, polygons, the quad tree, placing an atlas
  in the plane, growing a patch of vertex stars and tiles), the serde forms of tiling configurations, and the server's
  request flows, which reach the database and key-value store through traits.
