# teams_rs

A Microsoft Teams desktop client whose core is verified with Verus.

- `src/` is the verified library: reading the Teams services' JSON
  (chat lists, messages, profiles, CSA sync, browser session data), building
  the chat list (naming chats, merging sources, placeholders for folder
  conversations), grouping it into sidebar sections, the state machines of
  the login and main screens, what the screen shows (sidebar rows, message
  timeline with date lines), and the request URLs, paths and bodies.
- `app/` is the iced application around it: HTTP with reqwest, the browser
  login with headless_chrome, drawing, files, and the floating-point layout
  helpers.
- `tests/` runs the library on concrete inputs.
