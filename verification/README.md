# statusline

The logic of a one-line status display for a coding assistant's terminal UI:
working directory, git branch, model, context-window usage, and the
five-hour and weekly rate-limit utilization with a progress bar, a pace
marker and the local reset time.

The library under `src/` is verified with Verus:

- `decimal` – the integer grammar of `str::parse` and the digits of `{}`,
  with the law that parsing what was written gives the number back.
- `text` – line splitting as `str::lines`, whitespace trimming, searching.
- `cache` – the `KEY=value` usage-cache file and the fetch lock file: reading,
  writing, freshness, and the laws that reading gives back what was written.
- `calendar` – ISO-8601 reset times, the days-from-civil formula (proved to
  count Gregorian days from year 1 on) and rounding to a minute.
- `bar` – the ten-cell progress bar and the pace marker.
- `fetch` – the access token, the reply split into body and HTTP status, and
  lock expiry.
- `status` – the segments of the status line and how they are joined.
- `clock` – the current time from the system clock.

`app/main.rs` is the program around it: reading standard input, the cache
files, the keychain and the usage endpoint, the local time zone, and the
floating-point figures of the endpoint's reply.
