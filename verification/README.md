# nom_de_plante

Processes a picture as if it were a sound: the pixels are read into a
one-dimensional signal (row by row or column by column, possibly reversed),
split into color lanes (composite, interleaved or Bayer), run through audio
effects (filter, feedback delay, allpass reverb, wavefolder) and put back
together into a picture.

- `src/` is the verified library: pictures and pixel access, the ordering of
  pixels into a signal, the splitting into lanes with reset flags, the
  rebuilding of the picture, the Bayer pattern and demosaicing plan, the byte
  delay ring, and the parameters and cursor of the terminal interface. Each
  function has a contract, and the laws that tie them together (a pixel reads
  back what was written, every order reads each pixel once, rebuilding an
  unprocessed signal gives the picture back, a delay reads back what it wrote
  after its delay, parameters stay in range) are proved as proof functions.
- `app/` holds the floating-point audio effects, the processor that chains
  them between the library's layout functions, the terminal program and the
  browser entry point.
- `tests/` runs the library on concrete pictures and signals.
