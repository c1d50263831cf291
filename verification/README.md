# LocaDrive

Transfers files between a desktop and the browsers in its local network. The
desktop runs a web server; a browser that opens its address gets an application
that sends files to the desktop and downloads the files that the desktop offers.
The window of the desktop and the pages in the browsers show the same state, with
these exceptions: a page lists a folder that was added under the name as typed,
even if that has white space at its ends; it chooses no folder when
the desktop chooses one that is not listed; it shows links when an empty list of
files is offered; and it follows a list of folders that a browser sends, which the
desktop does not.

`src/` is a library, written in Verus, with everything that the two sides decide:
what a message changes and who is told about it, how transfers are numbered and
counted, how uploads and downloads are answered, how a page follows the desktop.
`app/` puts windows, sockets, streams and scripts around it.

| Module | What it is about |
|---|---|
| `message`, `uploader`, `screen`, `socket` | the desktop: its messages, its state, its window, its connections |
| `keys`, `shelf`, `transfers`, `progress` | transfers in progress |
| `interleaving` | what holds of transfers that go on at the same time |
| `serving`, `archive`, `outbox` | the answers of the server, and archives that are made on the way |
| `page`, `links`, `sending`, `reader` | the page in the browser, its links, and how it sends files |
| `sync` | why the page and the desktop show the same |
| `text`, `numbers`, `encoding` | text |

The library trusts the crates `slab`, `memchr`, `base64`, `deunicode` and `headers`
(through `axum`), and three functions of `std`, to do what is stated where they are
called.
