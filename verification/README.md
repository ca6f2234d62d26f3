# sui_snapshot

Writes a state snapshot of the live object set: object files, a reference file for each bucket,
and a manifest that lists them. The files are written to a local directory and uploaded to an
object store while later ones are still being written; the manifest is uploaded last.

The library in `src/` holds the file formats, the naming of the files and the decisions. Its
writers do no input or output: a call hands back an action, and `resume` takes the event that
tells how the action came out. Each step has a contract over a state machine, and the files whose
names end in `_laws.rs` prove what holds of whole runs.

| file | what it holds |
| --- | --- |
| `encoding.rs`, `format_laws.rs` | headers, blobs, object references |
| `names.rs`, `name_laws.rs` | file names, part numbers |
| `metadata.rs` | file metadata, paths, the manifest |
| `object_writer.rs`, `writer_laws.rs` | the writer of one bucket |
| `snapshot_writer.rs`, `snapshot_laws.rs` | the writer of a snapshot |
| `upload.rs`, `upload_laws.rs` | the upload of a file |

The number of the next object file of a bucket is one above the highest that the directory then
shows. An object file is removed from the directory once it is uploaded, so the last object file of
a bucket must still be there when the next one is numbered. Where it is gone, its number comes up
again and the new file replaces it. The laws that speak of what every object file holds say so in
their premises (`numbers_afresh`, `snapshot_numbers_afresh`); the others hold of these runs too.

`app/` carries the actions out on files, object stores and a channel. The node that embeds it
provides the stores, the live objects, compression and digests through the traits in
`app/source.rs`.
