# CorpoDrone core

The verified core of a meeting recorder. It captures the microphone and the speakers,
streams them to a transcription pipeline, and shows what the pipeline sends back.

- `src/` is the library, proved with Verus: the configuration file and the settings in
  it, the frames of the audio pipe, chunking and channel layout, the lists of devices
  and applications, the records of speakers, the messages between the programs, and
  the decisions of the recorder, of the pipeline's supervisor, of the transcript
  reader, of the hub of web clients and of the web server.
- `tests/` runs the library on concrete values.
- `app/` is the programs around it: sound devices, pipes, processes, HTTP and windows.

Samples are held by the bits of their 32-bit floats, and the settings that are
floating-point numbers by their literals: the library moves them, and the programs
compute with them.

JSON values are those of `serde_json`. The type `Json` in `src/json.rs` says what a
value holds, and the contracts of the calls into `serde_json` are stated over it.
