# mx_replay_uploader

Uploads Trackmania/ManiaPlanet replays to ManiaExchange as soon as the game
saves them.

- `src/` is the verified library:
  - `gbx_parser` — GBX files: magic, binary prefix, the XML header between
    `<header ` and `</header>`, the replay header read from the XML reader's
    events, the cleaned map name and the race time text.
  - `mx_client` — what the client reads from login pages, the login
    sequence as a state machine (request in, page out), the map lookup
    address, the upload form token and the judgement of an upload answer.
  - `string_map` — an insertion-ordered text map (form fields, stored
    preferences) with its read-after-write law.
  - `pref` — the stored preferences and their round trip through the map.
  - `session` — the replay queue (one replay per map, listed by save time),
    the screen decisions and the log lines.
  - `logs`, `text` — log rendering and character-level text helpers.
- `app/` is the program around it: the egui window, file watching, reading
  replay files, HTTP requests and the preferences file.
- `tests/` runs the library on concrete inputs.

In `app/`, the autosave folder is typed into a text field (no native folder
dialog) and the window has no custom icon.
