# bluenotify

The backend of the BlueNotify notification system: it watches the Bluesky
Jetstream for posts of watched accounts, keeps the follows of app users
current, stores the users' notification settings, and serves the web API.

## Layout

- `src/` — the verified library (Verus). It holds the decisions and data
  transformations of the servers, each function with a contract:
  - `created_at`, `datetime`, `bluesky_utils`: reading Bluesky `createdAt`
    timestamps into UTC date-times, post links and `at://` URIs;
  - `user_settings`, `order`: settings documents, their canonical text and
    equality, and the index from watched accounts to device tokens;
  - `jetstream`: the reader's decisions — which messages to inspect, how to
    route them, whether a post is forwarded and under which subject, what a
    follow event asks for, what to do with each frame (`frame_step`), and which
    follows to delete and insert;
  - `web_json`, `settings_sync`, `models`, `fcm`: the data that the web API and
    the settings sync store, and the FCM endpoint;
  - `nats`: the NATS server address;
  - `text`: string helpers.
- `tests/` — tests that run the library with the real outside crates.
- `app/` — the servers themselves: WebSocket, NATS, Postgres, HTTP and FCM
  I/O around the library's decisions. `bluenotify jetstream-reader` and
  `bluenotify web-server` start them. The Firestore settings reader is not part
  of this build (it needs the `firestore` crate); its database side is in
  `app/settings_store.rs`. Database migrations are not run by the servers.
