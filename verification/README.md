# spares

The note and card logic of a spaced-repetition system, written in Verus: each function
states its behaviour as a contract, and Verus checks the code against it.

Notes are written in Markdown, Typst or LaTeX. Clozes mark what a card asks for; their
settings strings (`g:1;o:2`) say which card a cloze belongs to, in which order cards come
and how they are shown.

## Layout

- `src/clozes/`: cloze settings strings, read (`parse`) and written (`construct`).
- `src/cards/`: reading the clozes of a note, interleaving them with its image
  occlusions' clozes and regrouping overlapper items into their cards, assembling cards from grouped clozes, matching old cards to new
  ones, overlapping cloze sequences, checks on cards.
- `src/notes/`: note settings (action, id, tags, keywords, custom data) and the settings of
  each note of a file.
- `src/files.rs`: the text of note and card files for each parser, and links to other notes.
- `src/cache.rs`: whether a note's raw file is up to date, by the digest written in its last
  line.
- `src/typst_data.rs`: the scanner of Typst markup that finds clozes, settings and links,
  with checked forms that answer `None` where a scan cannot go on.
- `src/image_occlusion.rs`: combining the clozes drawn over one image.
- `src/disperse.rs`: spreading the due dates of sibling cards as far apart as possible, and
  keeping them away from the latest review.
- `src/schedulers.rs`, `src/fsrs.rs`: finding a scheduler by name, stepped ranges of
  durations, FSRS ratings and states, and what a rating does to a card under a filtered tag.
- `src/parsers.rs`, `src/paths.rs`, `src/schema.rs`, `src/model.rs`: parsers and their
  comments and templates, note file paths, the library's records and the requests and
  responses made of them.
- `src/text.rs`, `src/text_num.rs`: text as chars and UTF-8 offsets, numbers as text.
- `app/`: what touches the world: files, templates and rendering, dates, the `rs_fsrs`
  types and serde forms.
- `tests/`: tests of the library on concrete values.

Public `proof fn`s state properties that span functions, such as how cards are matched
across edits, how overlapping cloze windows are laid out, how dispersed siblings are spaced,
how close the search for their gap comes to the best, how written settings are read
back, which cards an edit deletes, how overlapper card groups are numbered, that
groupings left out of a settings string change nothing in it, and that a card made of text
clozes gives back its whole note when its parts are put together. Where a property concerns one function, its `ensures` states it: a file written with
its digest is found up to date when it is next written unchanged.
