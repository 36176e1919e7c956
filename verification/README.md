# auxcast

Plays a sound card's line input on Chromecast speakers: captured audio is
packed as 16-bit stereo PCM and served over HTTP as a WAV stream, which a
Chromecast found by mDNS is told to play.

- `src/` is the verified library:
  - `wav.rs`: the 44-byte WAV header, and the proof that its fields read back;
  - `pcm.rs`: packing interleaved frames into stereo bytes, with the laws on
    the output's length and frames;
  - `text.rs`: prefixes, substrings, lexicographic order and decimal numbers;
  - `device.rs`: the records of an mDNS response and the device they announce;
  - `discovery.rs`: collecting devices until one answers twice, and listing
    them (groups first, each kind sorted by name, each device once);
  - `cast.rs`: the receiver application, stream address and selection labels.
- `app/` is the program: sound card capture, mDNS, the HTTP server and the
  Chromecast session, calling the library for the work above.
- `tests/` runs the library on concrete values.
