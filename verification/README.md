# vb_manager

The verified core of a server for the collaborative production of books:
projects are written section by section in a block editor, shared live
between editors, imported from documents and blog posts, and exported for
print.

The library (`src/`) holds the logic, each function with a contract proved by
Verus:

- `text`, `html`: escaping, replacing, splitting and joining text; an HTML
  tree and its rendering.
- `content`, `ydoc`: content blocks, their form in the block editor and in
  the collaborative document, with the round trips through both.
- `richtext`, `export`, `hyphen`, `languages`: rendering of rich text for
  export (citations, footnotes, endnotes, custom styles), block HTML, soft
  hyphenation with the dictionary a language tag chooses, the choices made
  when a project is prepared.
- `biblio`, `bibentry`, `bibtree`: bibliography values (numbers, page
  ranges, dates), entries read from BibLaTeX files and stored, the
  bibliography tree and its search.
- `import`, `wordpress`, `latex`: imports from converted documents and blog
  posts, the blog API's queries, LaTeX citation marks.
- `websocket`, `session`: the framing of the live connection and its session
  steps; sign-in, lockout and password-reset decisions, the hashing and
  checking of passwords and reset tokens.
- `storage`, `sections`, `trees`, `projects`, `metadata`: storage versions
  and migrations (sections move their blocks into the collaborative
  document), the project list, settings, licenses and metadata patches.

Calls into outside crates (HTML parsing and writing, the collaborative
document, hyphenation, BibLaTeX reading, password hashing, URL and date
parsing, regular expressions, random identifiers and tokens) go through
small trusted functions whose contracts state what the crates document.

`app/` is the command-line program around the library: file input and output
and the serialised message formats.
