# rustream

A screen-casting application: a caster grabs its screen (or a region of it), encodes
each frame with H.265 and streams it over UDP to the receivers that asked for it; a
receiver reassembles and decodes the frames, shows them and can record them.

- `src/` is the library, verified with Verus: regions and cropping, the BGRA/RGBA
  conversion, the datagram format of the stream and the receiver's reassembly of frames,
  the text messages on the wire, pen strokes drawn into a frame, keyboard shortcuts,
  stream metrics, and the small state kept by the window. Public proof functions
  (`lemma_*`) state what holds across calls, such as a frame cut into datagrams coming
  back whole at the receiver.
- `tests/` exercises the library on concrete values.
- `app/` is the program around it: the window, screen grabbing, the `ffmpeg` processes,
  the sockets and the recorder.
