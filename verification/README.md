# pdf-mcp

A server that gives agents tools to read, search and draw PDF files. It speaks JSON-RPC,
one message to a line, on standard input and output.

- `src/` is the library, verified with Verus. It decides what a request means, what a
  tool needs from a document and what is answered, and does no input or output itself.
- `app/` is the program round it: it reads lines, opens documents with MuPDF, writes
  files and sets JSON values as text.
- `tests/` runs the library against a document held in memory.

## Tools

`get_info`, `get_page_text`, `search`, `render`, `get_text_blocks`,
`extract_region_text`, `get_outline`, `get_page_links` and `intensity_profile`. Every
tool takes the path of a PDF file. Coordinates are in PDF points (72 to the inch) from
the top left. `tools/list` describes the parameters of each.

`search` lists at most 500 hits to a page. Where a page has that many, the result says
that it is truncated.

## How a request runs

`protocol::handle_line` takes a line and the JSON value in it. It gives nothing, a
response, or a `Job`. A job says what it needs (`Job::need`): a document, the text of a
page, a pixmap, a file to be written. It goes on with the answer (`Job::advance`) until
it ends in a response. `call::law_calls_come_to_an_end` states that it does.

## What is proved

The contracts fix what every request needs and what is answered, down to the rounding of
coordinates: floating-point numbers are held as bit patterns, and `float` computes with
them exactly. Two things are not fixed: the pixels of a resized picture, which are only
tied to the pixels they come from, and the printed text of a JSON value, which the
program sets. The functions whose names start with `law_` state what holds across several
functions, such as that a response has the id of its request, that a search holds
every hit in page order, and that the region that is drawn lies on the page.

What is trusted: the image files and the resizing of pictures come from the crate
`image`, base 64 from the crate `base64`.
