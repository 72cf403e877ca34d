# isochron

A cron occurrence engine whose logic is verified with Verus: it parses
five- and six-field Vixie cron expressions and computes the next and previous
occurrence in strict UTC within a bounded horizon, together with the release
tooling of the project (version requests, manifest and changelog rewriting,
release preparation and verification as state machines).

Layout:

- `src/` is the verified library. Each public function states what it
  returns in its `ensures`, over spec functions on plain values; the public
  `proof fn lemma_*` items state the laws that tie several functions together.
  Calendar arithmetic that the `time` crate computes (next and previous day,
  weekday, offset conversion, Unix nanoseconds) is reached through a few
  small trusted wrappers in `src/calendar.rs`, each with a doc comment that
  says what its contract claims.
- `tests/` runs the library on concrete values.
- `app/` is the command-line release tool and the adapters between the
  library's `DateTime` and `time::OffsetDateTime`; it performs the I/O that the
  library's state machines ask for.
