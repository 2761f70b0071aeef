# appto

A small command-line tool that integrates AppImages into the desktop: `appto add`
copies an AppImage into a container directory under `~/.local/share/appto/<id>/`
with its desktop entry and icon, and links them into `~/.local/share/applications/`
and `~/.local/bin/`; `list`, `sync`, `edit` and `remove` manage what was added.

Layout:

- `src/` — the library, verified with Verus: path handling, the container layout and
  the plans for writing, copying and linking its files, desktop entry metadata, app
  ids, the override file (parse, template, merge) and the commands' decisions.
  Proof functions named `law_*` state the properties that hold across calls, such as
  "an override file regenerated from the template reads back the same overrides".
- `app/` — the program: command-line parsing, file system, processes, prompts.
- `tests/` — tests of the library on concrete values.
