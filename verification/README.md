# aether

The verified core of Aether, a local-first voice assistant made of a *brain*
(speech recognition, language model, speech synthesis, web UI) and *edge
nodes* (microphone, wake word, status LED).

- `src/` is the library, written in Verus: every function carries a contract
  that Verus proves. It holds the command trie, conversation history and
  document chunking, the session table, the skills' replies and catalogue,
  the brain's per-stream decisions and replies, the edge node's main loop,
  device and WAV parsing, silence trimming, the web UI's state, the Navidrome
  client's authentication and requests, server-sent-event framing, and the
  local certificate authority.
- `tests/` exercises the library from outside.
- `app/` is the unverified I/O around it: files, devices, HTTP round trips,
  subprocesses and async channels.

Calls into outside crates (md5, uuid, rcgen, hound, the standard library's Unicode
tables and `HashMap`) go through small trusted wrappers whose contracts are
stated next to them.

## Differences from the original's shape

- The session table is a `Vec` of sessions with the invariant that no node
  id occurs twice, where the original used a `HashMap` keyed by `String`:
  over a `String`-keyed map Verus states too little for the table's
  contracts to be proved. For the same reason the command trie keeps each
  node's children as a `Vec` of (word, node) pairs with distinct words, and
  the lights' room map reaches the library as a slice of (room, entity)
  pairs, which `app/` builds from the configuration's map.
- The skills are a fixed catalogue (`catalog`, `dispatch`) rather than a
  registry of `dyn Skill` objects: a trait whose contracts no type of the
  library implements would be trusted, not proved, and the set of skills is
  closed.
- Keys and certificates cross the library as bytes and PEM text (`SigningKey`
  holds a key's PKCS#8 DER); rcgen's own types stay inside the wrappers.

## Left out

Left to `app/` or not present: the gRPC and web servers and their routing,
the edge node's audio devices and run-loop driver, timers, speech-to-text and
text-to-speech engines, floating-point audio processing (resampling, sample
conversion, weather numbers), and serialising the library's values to JSON.
