# gkd

A small distributed file system: a server keeps tables of devices, files,
fragments and transfer requests; clients register files, upload their
fragments, report their free space and serve fragments to peers over
WebSockets.

`src/` is the verified library (Verus):

- `text` – splitting, trimming, reading and writing integers, with the
  semantics of the corresponding `str`/`i32` operations;
- `protocol` – the data-connection commands, how the server reads them, and
  the acknowledgements;
- `control` – the control connection: one session per connection, bound to the
  first device it names;
- `placement` – how a finished upload's fragments are spread over the online
  devices;
- `upload` – the server's rules for registrations, fragment uploads and folder
  checks;
- `upload_flow` – the handling of one uploaded fragment, from the lookup of
  the file to completion or a dropped upload, as a step function the
  connection drives;
- `delivery` – the handing of a stored fragment to the device that asked for
  it, as a step function;
- `transfer` – length framing and chunking of file transfers;
- `session` – the client's fragment service (WebSocket messages);
- `setup`, `calendar`, `walk`, `records` – settings, date stamps, folder
  listing (with a model folder tree on which the walk is shown to list every
  file) and the stored records.

`app/` holds the programs around it (sockets, files, threads, logging):
`gkd server` runs the server, `gkd` a client configured by `setup.ini`.
