# slidedeck

A small markup language for slides, and the reader that turns a slide
document into cards: `#config(...)` settings, and `#slide` pages holding
text, headers, fonts, images, LaTeX and divs.

The reader is written in Verus. Each step of it carries a contract stated
over the text as a sequence of characters and over the cursor's position:

- `src/cursor.rs`: the cursor over the text, counting rows and columns.
- `src/lexer.rs`: keywords and values (numbers, quoted strings, slide text,
  arrays).
- `src/parser.rs`: settings lists such as `#font(size=0.1, color=[1,0,0])`.
- `src/elements.rs`, `src/reader.rs`: the elements of a slide, slides,
  settings cards and whole documents.
- `src/preprocess.rs`: comment removal and the text replacements done
  before reading.
- `src/document.rs`: the cards and their mathematical views.
- `src/render.rs`, `src/latex.rs`: the parts of rendering that need no
  floating point (alignment names, the LaTeX source of a formula).
- `src/laws.rs`: properties that span several functions.

`app/` holds the program around the library: it watches a file, renders
the cards to PDF through libharu, and runs LaTeX for formulas.
