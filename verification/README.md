# rwui

A small web GUI toolkit: a YAML file describes tabs, rows and widgets; a
server registers one channel per interactive widget, and a browser page
builds the widgets and talks to the server over one local websocket per
widget and direction.

## Layout

- `src/` is the verified library (Verus):
  - `text.rs`: decimal formatting, `u8` parsing, Unicode whitespace
    trimming and splitting, substring search;
  - `net.rs`: element numbers and the local ports and websocket URLs
    derived from them;
  - `config.rs`: the GUI description;
  - `server.rs`: which widgets get a channel to the page, how an HTTP
    request is answered, when the console asks to quit;
  - `dom.rs`: the page, as the ordered list of document changes the
    browser side makes, with every widget builder and the page builder;
  - `message.rs`, `update.rs`: the update messages and what the page does
    with them;
  - `plot.rs`: what drawing a chart shows;
  - `laws.rs`: properties that span functions, among them that the page
    opens its update sockets exactly where the server's channels are.
- `tests/` runs the library on concrete values.
- `app/` is the unverified shell: the websocket threads and HTTP server,
  the browser glue that applies the document changes, YAML and JSON
  (de)serialisation through copies of the library's types.
