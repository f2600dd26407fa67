# remoteapp

The verified core of an RDP client for Android phones and tablets: connection profiles and
endpoint parsing, the bounded input queue and touchpad mapping, the keyboard state and key
mapping, the reconnect back-off, the encrypted vault envelope, profile synchronization rules,
the device catalog with its certificate trust, and the decisions of the session loop and of the
single active session. Every function in `src/` carries a contract that Verus proves.

- `src/` — the library, verified with Verus. Calls into the cipher, key-derivation, Base64,
  SHA-256, UUID and random-number crates go through small trusted wrappers whose contracts name
  what those crates compute.
- `tests/` — tests of the library on concrete values.
- `app/` — the code around the library: operating-system services (Android Keystore, Windows
  DPAPI, files), the on-disk catalog format, the session controller with its channels, touch
  gestures (floating point), and the PostgreSQL store.
