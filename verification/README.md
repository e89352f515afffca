# wikipedia2jpdb

Gathers Japanese reading material from Wikipedia. Starting from a page or a
category, the user picks categories level by level; the pages of the picked
categories are fetched, their text is cleaned of ASCII runs and punctuation,
and the result is packed into chunks of under 400000 bytes written to files.

- `src/` is the library, verified with Verus: the JSON model of the API
  answers (`json`), categories and pages and what is read from the answers
  (`category`, `wikipage`), text cleaning (`filtering`), request parameters
  (`requests`), the crawl state and its decisions (`crawl`), and character
  helpers (`text`).
- `app/` is the interactive program: it sends the requests, prompts the
  user and writes the files.
- `tests/` runs the library on concrete answers and texts.
