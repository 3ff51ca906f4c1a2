# jarman

A small build dashboard: a path file (`build-paths`) lists project folders,
one per line; a project is a folder that holds a build script named like
`build.sh`, `build.bash`, `build.fish` (Unix) or `build.ps1`, `build.bat`
(Windows).  A web server lists the projects, runs their builds, shows and
cleans their build logs, and takes projects out of the path file.

Layout:

- `src/` — the library, verified with Verus:
  - `text.rs`: trimming white space and splitting text into lines;
  - `files.rs`: what the path file lists (`get_paths`), with its laws;
  - `pattern.rs`: the calls into the `regex` crate;
  - `project.rs`: recognising build scripts, listing projects, and the
    answers of the build, log and delete requests, with their laws;
  - `cors.rs`: the cross-origin headers of the web server's responses;
  - `install.rs`: the installation folder and the desktop shortcut script.
- `app/` — the web server (Rocket) and the file-system and process work
  around the library.
- `tests/` — tests of the library.
