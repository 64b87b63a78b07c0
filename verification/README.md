# sudo_prompt

A sudo gate that shows a human the exact argv of every root command on a session-lock surface
and runs it only on their approval, the `sudo` shim in front of it, and a generic yes/no
presenter built on the same prompt.

- `src/` is the verified library: escaping of caller-controlled bytes (and that it reads back to
  the bytes), request parsing, the command environment, the shim's classification and its
  agreement with sudo-prompt's parser, interpreter requests, the dialog's contents and ceilings,
  the settle state machine and the prompt's input state machine, PATH resolution, the display
  socket choice, lock-file checks, and the decision record. Every public function carries a
  contract proved by Verus; the laws that relate several functions are public proof functions
  next to the code they are about.
- `app/` is the one binary around it (it acts as the shim under `sudo` or `sudo-shim`, as `permission-prompt` or as `sudo-prompt`
  by the name it is invoked as): system calls, the environment, the GTK surfaces and main loops.
  It hands each event to the library and carries out what the library answers.
- `tests/` runs the library on concrete values.

A second request while a prompt is up queues behind it on the lock file rather than failing at
once: a non-blocking try, one info line ("another sudo-prompt is active; waiting for it"), then a
blocking wait.
