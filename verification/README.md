# hochanh

Core of a command-line tool that turns a folder of Markdown lessons into a static course
website, with YouTube videos embedded and a small preview server.

- `src/` is the verified library:
  - `text`: character-sequence specifications (search, trimming, lines, replacement) and
    the string helpers proved against them;
  - `youtube`: video ids of YouTube links and their embed forms;
  - `summary`: tables of contents (`SUMMARY.md`) read into sections of lessons;
  - `lesson`: front matter and body of lesson files, page names, lesson and course records;
  - `config`: the site configuration and the global course menu;
  - `generate`: lesson stub files planned from a table of contents;
  - `serve`: request paths and content types of the preview server;
  - `parser`: the records and readers gathered under one path.
- `app/` is the program: command line, file system, YAML decoding, templates and the
  HTTP server.
- `tests/` exercises the library on concrete inputs.
