# tzcraft

A date and time library built on one timeline: an instant (`Ticks`) is a
signed 128-bit count of nanoseconds since `1970-01-01T00:00:00Z`, and the
proleptic Gregorian calendar, weekdays, ISO weeks and fixed timezone offsets
are projections onto it.

The library in `src/` is verified with Verus: the public functions state
in their contracts what they return, arithmetic is proved free of overflow,
and no function panics. Where a value comes from the system clock, or is a
`std` time value, the contracts speak of it through named quantities (its
nanoseconds, its offset from the epoch); what the clock reads, and which
platform times exist, is not stated. Proof functions named `law_*` state properties that span
several functions, among them:

- the calendar inversions (day count to civil date and back);
- instants and civil readings projecting onto each other;
- shifting by a duration and back;
- anchoring a local reading in a zone and reading it back;
- the text round trips: what the ISO 8601, RFC 3339 and RFC 2822
  renderings write, the parsers read back as the same value
  (`round_trip.rs`, `span_round_trip.rs`, `rfc2822_round_trip.rs`);
- the strftime formatter's output is valid UTF-8 for every format string,
  so literal text in a format string comes out as written (`rendering.rs`).

Layout:

- `src/calendar.rs`, `date.rs`, `time.rs`, `datetime.rs`, `ticks.rs`,
  `offset.rs`, `zone.rs`, `zoned.rs`, `duration.rs`, `units.rs`: the types
  and their arithmetic;
- `src/format.rs`, `scan.rs`, `text.rs`: ISO 8601 / RFC 3339 rendering and
  parsing; `rendering.rs`: why every rendering is UTF-8 text;
- `src/strftime.rs`: strftime-style formatting and parsing, RFC 2822;
- `src/write.rs`: allocation-free output sinks;
- `src/clock.rs`: the system clock and platform clock values;
- `app/`: the `nextjson` / `rustbinary` codecs, `Display`, and the
  floating-point views of a duration, on thin copies of the library types.
