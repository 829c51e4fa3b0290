# turtle_control

The verified core of a server that drives ComputerCraft turtles in a
Minecraft world.

- `src/` is the library, checked by Verus: world and chunk coordinates,
  chunk storage names and the LZ4 framing of chunk files, the barrier map and neighbour rules of the path
  search, turning a found path into turtle instructions (run-length
  encoded), turtle inventories and record paths, API keys, the table of
  open turtle connections, and the logic that picks block assets and
  mesh blocks out of chunks and mod archives.
- `app/` is the program around it: the Rocket routes and websockets,
  file storage (CBOR chunk data, JSON records), the A* search call with
  its floating-point heuristic, the mesher and the archive crawler.
- `tests/` exercises the library on concrete values.
