# AnkiCollab backend

The server behind AnkiCollab, with which people work together on Anki decks: they publish a deck,
subscribe to it, pull its changes, suggest changes of their own and share the media files of its
notes.

`src/` is the library. It holds the rules of the server, from plain values to plain values. Every
item of it is verified with Verus, but for what `outside` says of other crates and of std and what `text` says
of `String::push`, which is believed:

- `rate_limiter`: how much users and addresses may upload and download in a day, and when the
  storage is full.
- `media_manager`: which media files are taken, the batches in which they are announced and
  confirmed, what is offered for download, what is cleaned up, and SVG files.
- `media_reference_manager`: to which media files the fields of a note refer.
- `pull`, `push`, `deck_import`, `suggestion`, `notetypes`, `note_removal`, `changelog`, `stats`:
  decks, notes and notetypes on their way out of and into the database.
- `auth`, `server`, `reply`, `media_logger`: tokens, packed bodies of requests, answers and the log.
- `structs`, `text`, `lists`, `clock`: the data, and what the other modules share.
- `outside`: the calls into other crates, each with what is believed of it.

What awaits the database, the object storage or the network alternates with decisions. There the
library has a type that says what is to be done next, and takes what came of it.

`app/` is the server itself: the routes, the queries and the calls to the object storage.
`tests/` runs the library on examples.
