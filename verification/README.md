# gogoanime_scraper

A downloader of anime episodes. The library under `src/` holds its logic,
verified with Verus; the program under `app/` does the input, output and
networking around it.

- `text`: characters, trimming, replacing, decimal numbers and their parsing.
- `input_handler`: search terms and numbered choices typed by the user.
- `json`: the JSON tree that the service's answers are read into.
- `provider`: decoding of the obfuscated provider identifiers.
- `allanime`: search results, episode lists, episode sources, provider
  links, and the request bodies sent to the service.
- `scrapertui`: which episodes to fetch under which names, which link to
  take, when to try again.
- `download`: file names and the handling of redirects.
- `scraper`, `parser`, `print_handleing`: the former site's login token and
  page addresses, its page readers, and the labels shown to the user.
