# Vireo

The panes and windows of the Vireo mail reader: the message list, the reader, the
accounts window and the settings window.

- `src/` is the library. It decides everything: which rows a list shows, what a
  conversation's document holds, which references to remote content are taken out of a
  message, what an input makes of a pane and what the pane then asks for. Every function
  carries a contract that Verus proves; the modules whose names end in `_laws`,
  `stripping` and `one_pass` hold what follows for the library as a whole.
- `app/` is the desktop side, written with relm4, GTK and WebKit: it builds the widgets,
  carries out the steps that the library returns, and hands it the desktop's events. What
  the panes need of the application around them is the trait `Services`. Colours are
  computed there, since that takes floating point.
- `tests/` runs the library.

Texts are sequences of characters throughout: a position in a document counts characters.
A message is named by its account and its identifier; sets and maps of messages are kept
under both, packed into one number.
