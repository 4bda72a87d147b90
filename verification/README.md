# gldf_search

Faceted search over luminaire documents, with its rules proved in Verus.

`src/` is the library. Every function in it carries a contract over plain
models of the data; the laws that relate several functions are public
proof functions. What it calls outside of itself stands behind small
wrappers whose doc comments say what is claimed of the call.

| Part | Modules |
|---|---|
| Documents and filters | `doc`, `filter`, `ids`, `tables`, `keys`, `text`, `words`, `sets` |
| Index | `index`, `hits`, `selection`, `facets`, `bounds`, `articles`, `suggest`, `slug`, `fold`, `hex` |
| From a product to a document | `product`, `extract`, `mining`, `applications`, `manufacturer`, `locale`, `geometry`, `doc_id`, `cache`, `media` |
| Photometry | `photometry`, `polar`, `quotient`, `wide`, `double` |
| Answers to requests | `api`, `query` |
| What the page shows | `panel`, `tree`, `toggles`, `chips`, `sliders`, `near`, `figures`, `rows`, `paging`, `typing`, `glyphs` |
| Tools | `corpus`, `inspect`, `report_text`, `search` |

Measurements are held as integers that order as the numbers do: the bits
of a non-negative number, and the negated bits of the magnitude of a
negative one.

`app/` holds the command line and the pages: reading and writing files,
requests, and the numbers that are parsed and printed as floating point.
`tests/` runs the library on concrete values.
