# hidpp

HID++ 2.0 support for Logitech devices, verified with Verus.

- `src/` is the verified library: report framing (`report`), feature access
  over a transport and the decoding of feature replies (`features`), the
  record of every call made on the transport (`transport`), the exchanges of
  requests and feature sessions over that record (`session`), device
  selection (`device`), error codes and messages (`error`), control names
  (`cid_names`), text formatting (`text`), saved settings (`config`) and the
  front end's records (`commands`).
- `app/` is the program around it: the `crypto-id` command line tool, device
  enumeration and the hidapi transport, the settings file, and the front end's
  commands as plain functions.
- Every feature method states, over the record of transport calls, which
  frames it wrote, which reads it made (each with its timeout and buffer
  length) and what they gave, and that its result is the decoding of those
  replies.
- `tests/` holds the tests, which drive feature access with transport doubles.
