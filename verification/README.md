# logo_fractal

Verified parts of a Logo turtle-graphics interpreter and of a Mandelbrot
picture generator.

`src/` (checked by Verus):

- `text` – decimal text of integers, reading bytes from digit runs, runs of
  numeric characters.
- `turtle` – `Color`, its `rgb(r, g, b)` text, and reading a colour back from
  text (with the proof that the two agree).
- `svg_editor` – the drawing commands, which of them remain visible, the
  handling of `stop`, and the SVG file text.
- `fractal` – the picture (`Image`) and its plain PPM text.
- `ast` – the operators of Logo expressions.
- `eval` – the interpreter's word tables: instructions, built-in functions,
  colour words.
- `scope` – the variables a running program sees.
- `random` – the random choices of `random` and `pick`.

`app/` holds what works on floating-point numbers (the turtle's position and
heading, expression values, the Mandelbrot iteration) and the file output.
