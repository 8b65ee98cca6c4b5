# videodownloader

An interactive downloader for video and audio from YouTube, Instagram,
Twitter/X, Facebook and other sites, built on the `yt-dlp` crate.

- `src/` is the verified library (Verus): URL handling and platform
  detection (`url`), prompt input (`command`), media formats and their
  ranking (`format`), download planning and the verdict on each download
  (`plan`), output file paths (`paths`), the progress bar (`progress`),
  string operations (`text`) and the properties that tie them together
  (`laws`).
- `app/` is the program around it: the prompts, fetching video information,
  running downloads and merging streams with `yt-dlp`, and printing progress.
- `tests/` exercises the library on concrete values.
