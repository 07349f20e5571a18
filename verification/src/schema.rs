//! Schema revisions of the index file and the time stamps stored in it.

use vstd::prelude::*;

use crate::db::DbError;

verus! {

/// Newest schema revision; grows with every script.
pub const LATEST_VERSION: i64 = 3;

/// The scripts that lead from one revision to the next; the script at
/// position `n` leads to revision `n + 1`.
pub const MIGRATIONS: [&'static str; 3] = [
    r#"
CREATE TABLE photos (
  id          INTEGER PRIMARY KEY,
  root        TEXT NOT NULL,
  rel_path    TEXT NOT NULL,
  mtime       INTEGER NOT NULL,
  size        INTEGER NOT NULL,
  width INTEGER, height INTEGER,
  orientation INTEGER NOT NULL DEFAULT 1,
  camera TEXT, lens TEXT,
  taken_at TEXT,
  shutter TEXT, aperture REAL, iso INTEGER, focal_mm REAL,
  label       INTEGER NOT NULL DEFAULT 0,
  status      INTEGER NOT NULL DEFAULT 0,
  err_msg TEXT,
  preview_path TEXT, thumb_path TEXT,
  ingested_at INTEGER,
  UNIQUE(root, rel_path));
CREATE INDEX idx_photos_root  ON photos(root);
CREATE INDEX idx_photos_label ON photos(root, label);
CREATE TABLE roots (id INTEGER PRIMARY KEY, path TEXT UNIQUE NOT NULL, last_opened INTEGER NOT NULL);
CREATE TABLE kv (key TEXT PRIMARY KEY, value TEXT);
"#,
    r#"
-- v2: display rotation chosen by the user, in quarter-turns clockwise on top
-- of the EXIF orientation flag; survives re-ingest like `label` does.
ALTER TABLE photos ADD COLUMN rot_cw INTEGER NOT NULL DEFAULT 0;
"#,
    r#"
-- v3: companion JPEG of a RAW+JPEG pair.
ALTER TABLE photos ADD COLUMN jpeg_rel_path TEXT;
"#,
];

/// Decides which scripts bring an index file of revision `current` up to
/// date, as positions in [`MIGRATIONS`]; a file from the future is refused.
pub fn migrate(current: i64) -> (scripts: Result<Vec<usize>, DbError>)
    ensures
        match scripts {
            Ok(list) => {
                let done: int = if current < 0 {
                    0
                } else {
                    current as int
                };
                &&& current <= LATEST_VERSION
                &&& list.len() == LATEST_VERSION - done
                &&& forall|k: int| 0 <= k < list.len() ==> #[trigger] list@[k] == done + k
            },
            Err(DbError::FutureVersion { found, supported }) => {
                &&& current > LATEST_VERSION
                &&& found == current
                &&& supported == LATEST_VERSION
            },
            Err(_) => false,
        },
{
    if current > LATEST_VERSION {
        return Err(DbError::FutureVersion { found: current, supported: LATEST_VERSION });
    }
    let ghost done: int = if current < 0 {
        0
    } else {
        current as int
    };
    let mut list: Vec<usize> = Vec::new();
    let mut index: usize = 0;
    while index < 3
        invariant
            index <= 3,
            current <= LATEST_VERSION,
            done == (if current < 0 {
                0int
            } else {
                current as int
            }),
            list.len() == (if index < done {
                0
            } else {
                index - done
            }),
            forall|k: int| 0 <= k < list.len() ==> #[trigger] list@[k] == done + k,
        decreases 3 - index,
    {
        let version: i64 = index as i64 + 1;
        if current < version {
            list.push(index);
        }
        index = index + 1;
    }
    Ok(list)
}

/// `SystemTime::elapsed` of the Unix epoch: how long ago the epoch was by the
/// system clock, in milliseconds; `None` when the clock stands before it.
/// Nothing is claimed of the reading.
#[verifier::external_body]
fn clock_millis() -> (age: Option<u128>)
{
    match std::time::SystemTime::UNIX_EPOCH.elapsed() {
        Ok(age) => Some(age.as_millis()),
        Err(_) => None,
    }
}

/// The stamp stored for a clock reading: the low 64 bits of the count, or
/// zero before the epoch.
pub fn millis_stamp(age: Option<u128>) -> (stamp: i64)
    ensures
        stamp == stamp_of(age),
{
    match age {
        Some(millis) => {
            #[verifier::truncate]
            let stamp: i64 = millis as i64;
            stamp
        },
        None => 0,
    }
}

/// The current time as a stamp.
pub fn now_millis() -> (stamp: i64)
    ensures
        exists|age: Option<u128>| stamp == #[trigger] stamp_of(age),
{
    let age: Option<u128> = clock_millis();
    let stamp: i64 = millis_stamp(age);
    assert(stamp == stamp_of(age));
    stamp
}

/// The stamp of a clock reading.
pub open spec fn stamp_of(age: Option<u128>) -> i64 {
    match age {
        Some(millis) => millis as i64,
        None => 0,
    }
}

} // verus!
