# hwrng

A command line tool that manages the Linux hwrng subsystem: it switches the
active rng, lists and describes the registered ones, reads random bytes, and
keeps a preferred rng active while devices come and go.

The decisions and the formatting are a library, written in Verus and verified:

- `src/text.rs`: words, trimming, joining; text as sequences of characters
- `src/sysfs.rs`: what is read from sysfs
- `src/matching.rs`: resolving names and prefixes in order of preference
- `src/naming.rs`: relating rng names to driver names
- `src/switching.rs`, `src/watching.rs`: switching once, and keeping watch
- `src/listing.rs`: the list and the headings of the detailed report
- `src/devices.rs`, `src/drivers.rs`: finding and describing the device behind an rng
- `src/reading.rs`: reading random bytes, raw or as hex

Proof functions whose names begin with `law_` state what holds across
functions. `app/main.rs` is the program around the library: arguments, files
and output. `tests/` holds the tests.
