# clipboard_autowrite

Saves every text that is copied to the Windows clipboard. The program stays in the
background, listens for changes of the clipboard and writes each new text to the file of
its day (`Clipboard20260813.txt`) beside the program, the newest at the top.

- `src/` is the library, verified with Verus: reading the clipboard call by call
  (`capture`), UTF-16 (`utf16`), the clock (`clock`), what is remembered and queued
  (`recorder`), grouping by day (`by_day`, `order`), the files (`journal`), the messages of
  the window (`window`) and starting with the system (`autostart`, `xml`). `history` states
  what holds over any run of copies and flushes. `std_items` holds what is taken on trust
  from the standard library.
- `app/` is the program: it makes the system calls that the library asks for.
- `tests/` runs the library on concrete values.
