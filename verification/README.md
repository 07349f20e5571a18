# cullr

A desktop tool for culling RAW photos: open a folder, look through the contact
sheet and the loupe, put labels on the keepers and copy them out.

`src/` is the library. It holds the rules of the tool as verified code: which
files of a folder are photos, how the index follows the folder, the queue of
extractions, cache keys and sweeping, what the sheet shows in which order, how
cursor, selection and loupe move, when textures are decoded and dropped, and
how an export runs. Every function states what it does in its contract, and
the public proof functions state what holds across functions.

`app/` is the program around it: windows, threads, files, the database and the
RAW decoder. It asks the library what to do and does it.

`tests/` runs the library on concrete values.
