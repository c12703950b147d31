# soundcloud_desktop

The verified core of a desktop SoundCloud client and of its storage service,
written in Verus.

- `src/` — the library: verified functions, and a few trusted wrappers
  around calls into std and the `ogg` crate:
  - `streaming` — the growing byte buffer that a download fills while the
    audio thread reads it, with reader and seek decisions;
  - `track_cache` — cache file names and the magic-byte check of downloaded
    audio;
  - `cache_dir` — cache size, clearing, listing and least-recently-used
    eviction over a directory listing;
  - `downloads` — the download attempt/retry state machine, preload
    selection and the registry that coalesces concurrent downloads;
  - `opus` — Ogg Opus stream opening, identification header parsing and
    pre-skip trimming;
  - `playback` — track-end reporting, media-control event names and
    equaliser band shapes;
  - `transcode` — the ffmpeg/ffprobe command lines and transcode errors.
- `tests/` — tests of the library on concrete values.
- `app/` — the I/O around it: threads, locks, file system, HTTP, audio
  output, floating-point signal processing and the Tauri commands.
