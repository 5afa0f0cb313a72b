# eipi

Confessions over SSH: viewers connect with `ssh`, write short confessions that float
on a shared canvas, react, reply, search and pick a terminal theme. A small web
server shows a landing page and a shareable page per confession.

## Layout

- `src/` is the verified library (Verus). It holds the rules of the service:
  - `input` decodes terminal bytes into key events (arrows, SGR mouse clicks);
  - `confession` wraps text into lines, measures boxes, and refuses blocked phrases
    however they are cased or spelled with digits;
  - `canvas` decides what a camera sees, where a viewer's camera starts, and where a
    new confession is placed so that it crowds no other box;
  - `session` is the per-viewer state machine: every key event gives the next state
    and an `Effect` that the caller carries out (load replies, store a confession,
    save a theme, ...), and the outcome is reported back through small methods;
  - `web` renders the landing page, the confession card and the reply list as HTML;
  - `glow` decides which cells around a popular confession sparkle;
  - `fingerprint`, `statusline`, `text` hold the remaining helpers.
- `app/` is the program around it: the SQLite store, the SSH server, the terminal
  drawing and the HTTP server.
- `tests/` runs the library on concrete inputs.

Every public function of `src/` carries a contract; the laws of the library (for
example that wrapping keeps every non-whitespace character, that a search finds
exactly the matching confessions, or that a placed confession never crowds another)
are proof functions whose names start with `law_`.
