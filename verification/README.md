# Caybul

File transfer between two computers over a wire, with no setup. Plug them
together, pair them, and send: files go out in chunks over several streams, are
checksummed on arrival, and resume from where they stopped if the connection drops.

- `src/` is the library: everything that is decided or computed, with contracts
  that Verus proves. It opens no socket and no file.
- `app/` is the two programs around it, `caybul` on the command line and
  `caybul-gui` on the desktop: sockets, files, threads, windows, and the
  serialization of messages.
- `tests/` runs the library on concrete values.

What the library promises as a whole stands in public proof functions next to the
code they speak of, among them:

- a file whose chunks all arrived is, byte for byte, the file that was sent
  (`transfer::content`);
- the record beside a file is written with every chunk and resumes the file with
  exactly the chunks it had, and the sender plans exactly the chunks that the
  receiver lacks, so that nothing acknowledged is sent again
  (`transfer::session`, `transfer::sender`);
- a folder is spelled out whole, in order and without doubles
  (`transfer::manifest`);
- without a token from a pairing there is no transfer, and a pairing works in both
  directions (`transfer::receiver`);
- both sides of a pairing show the same code (`pair`);
- a path of a manifest never leaves the destination folder (`transfer::paths`).

BLAKE3 digests come from the `blake3` crate, and the reports of system tools are
parsed by `serde_json`. Their results, and what the standard library knows about
Unicode, are trusted as `digest`, `link::json` and `text` state them.
