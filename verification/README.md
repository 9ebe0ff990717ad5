# echotag

`echotag` downloads the audio of YouTube videos with yt-dlp, finds the
official metadata of each track on iTunes, writes the tags and the cover into
the file, keeps a listening history, and recommends music from that history
in a chat with an AI provider.

## Layout

- `src/` is the verified library (Verus). Each module states its behaviour in
  `requires` / `ensures` over spec functions on `Seq`, `nat` and the like:
  - `text`, `numbers`: the string and number operations the rest is built on;
  - `cli`: the command-line grammar;
  - `youtube`: yt-dlp's arguments, its progress lines (sizes are read into
    the text of their number and the multiplier of their unit; `app/` does
    the floating-point product), its output, and video ids of URLs;
  - `metadata_provider`, `itunes`: the metadata search;
  - `review`, `tagger`: reviewing the proposed metadata, file and cover names;
  - `history`: duplicate detection and the recommendation prompt;
  - `config`: the `.env` settings;
  - `cache`: the shared download cache (client addresses, server answers,
    and how long the client waits for a video someone else downloads);
  - `chat`, `proxy`, `desktop`: the chat, proxy lists, the desktop view.
  The public proof functions (`lemma_*`) state properties that span several
  functions.
- `tests/` runs the library on concrete values.
- `app/` is the program around the library: argument handling, terminal I/O,
  processes, HTTP, files, audio tags and the chat client.
