# GimmeURL

A file-sharing server for the desktop. A file that is uploaded, or dropped into
the watched folder, gets a link; receivers fetch it in chunks of 256 KB from the
sender and from each other, or as a whole over HTTP.

- `src/` is the library: what the server knows and decides. It is written in
  Verus, and its functions carry contracts that Verus proves.
  - `chunks`, `names`, `links`, `text`, `clock`, `ident`, `render`, `http`: the
    values that files, links and replies are made of.
  - `model`, `registry`: the records, and a mathematical model of the server's
    state with every change to it.
  - `tables`, `channel`, `state`: the tables and channels that hold the state,
    and the functions that answer requests.
  - `sandbox`, `transfer`: the watched folder, and bytes on their way.
  - `laws`, `sharing`, `swarms`, `history`, `scans`: what holds of the server as a
    whole.
- `app/` is the program around it: the window, the HTTP server, the file system
  and the loops that run beside them.
- `tests/` runs the library.

What other crates do is not proved but taken on trust. Each such call stands in a
small function whose comment says what is claimed of it.
