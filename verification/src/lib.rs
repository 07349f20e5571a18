//! Decision logic of Cullr, a contact-sheet culling tool for RAW photographs.
//!
//! Everything here works on plain values: paths are text, instants are signed
//! nanoseconds, pictures and database rows are the library's own types. The
//! program in `app/` reads files, talks to the database and paints; it hands
//! what it read to these functions and carries out what they decide.

pub mod cache;
pub mod cache_laws;
pub mod columns;
pub mod db;
pub mod db_laws;
pub mod decode;
pub mod exif;
pub mod export;
pub mod export_laws;
pub mod extract;
pub mod extract_laws;
pub mod frame;
pub mod frame_laws;
pub mod grid;
pub mod grid_laws;
pub mod idset;
pub mod ingest;
pub mod ingest_laws;
pub mod keymap;
pub mod lookup;
pub mod loupe;
pub mod loupe_laws;
pub mod modals;
pub mod model;
pub mod order;
pub mod orient;
pub mod path;
pub mod progress;
pub mod progress_laws;
pub mod row_laws;
pub mod scan_laws;
pub mod scanner;
pub mod schema;
pub mod selection;
pub mod selection_laws;
pub mod sheet;
pub mod sheet_laws;
pub mod shell;
pub mod shell_laws;
pub mod tex;
pub mod tex_laws;
pub mod texture_laws;
pub mod text;
pub mod text_laws;
pub mod widgets;
pub mod window;
pub mod word_laws;
