# Monitrust

A small service that watches the machine it runs on and sends alerts through
Telegram or mail.

- `src/` is the verified library: reading the memory figures out of a
  `/proc/meminfo` listing (`watcher::memory`), the heartbeat watcher
  (`watcher::heartbeat`), keeping one watcher configuration of each kind
  (`watcher`), the queue that decides which watcher runs next (`scheduler`,
  `scheduled_watcher`), and building reporters from their configurations
  (`alert_reporter`).
- `app/` is the program around it: reading `watchers.json` and
  `reporters.json`, reading `/proc/meminfo`, the floating-point memory
  thresholds, sleeping until a watcher is due, and sending messages.
- `tests/` runs the library on concrete inputs.
