# chat_recorder

A terminal tool that sends `/`-prefixed lines to a chat-completion service,
shows the streamed answer as it arrives, keeps each finished answer, and copies
recent answers to the clipboard (`/copy [number]`; `/exit` leaves).

- `src/` is the verified library: the command-line editor and command
  parser (`process_commands`), the extraction of answer text from the event
  stream (`santize`), the clipboard selection (`clipboard_utils`), the request
  pieces and chunk decoding (`chat_ai`), the key and line decisions of the
  front end (`ui`), and the character-level text operations they rest on
  (`text`).
- `app/` is the program around it: raw-mode key reading, the async command
  loop, the HTTP stream and the system clipboard.
- `tests/` runs the library on concrete inputs.
