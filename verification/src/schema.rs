//! Which steps bring a database to the form that this program knows.

use crate::text::{signed_decimal, signed_text};
use vstd::prelude::*;
use vstd::string::*;

verus! {

/// The version of the database's form that this program knows.
pub const SCHEMA_VERSION: i64 = 1;

/// The first version there ever was.
pub const FIRST_VERSION: i64 = 1;

/// How long to wait for a lock, in milliseconds.
pub const BUSY_TIMEOUT_MS: i64 = 5_000;

/// A database that is newer than the program. To work with it would be to guess what it means.
#[derive(Debug, Clone, Copy, PartialEq, Eq, Structural)]
pub struct TooNew {
    pub found: i64,
    pub supported: i64,
}

impl TooNew {
    pub open spec fn words(self) -> Seq<char> {
        "資料庫 schema 版本 "@ + signed_decimal(self.found as int) + " 高於本程式支援的 "@
            + signed_decimal(self.supported as int) + "，請升級應用程式"@
    }

    /// The refusal in words.
    pub fn message(&self) -> (r: String)
        ensures
            r@ == self.words(),
    {
        let found = signed_text(self.found);
        let supported = signed_text(self.supported);
        let mut out = "資料庫 schema 版本 ".to_owned();
        out.append(found.as_str());
        out.append(" 高於本程式支援的 ");
        out.append(supported.as_str());
        out.append("，請升級應用程式");
        out
    }
}

/// The versions whose steps a database at version `current` lacks.
pub open spec fn is_lacking(current: i64, version: i64) -> bool {
    FIRST_VERSION <= version <= SCHEMA_VERSION && version > current
}

/// The steps for a database at version `current`, in order, or the refusal of one that is too
/// new.
pub fn pending_migrations(current: i64) -> (r: Result<Vec<i64>, TooNew>)
    ensures
        match r {
            Ok(steps) => {
                &&& current <= SCHEMA_VERSION
                &&& forall|v: i64| steps@.contains(v) <==> #[trigger] is_lacking(current, v)
                &&& forall|i: int, j: int| 0 <= i < j < steps@.len() ==> steps@[i] < steps@[j]
            },
            Err(e) => current > SCHEMA_VERSION && e == (TooNew {
                found: current,
                supported: SCHEMA_VERSION,
            }),
        },
{
    if current > SCHEMA_VERSION {
        return Err(TooNew { found: current, supported: SCHEMA_VERSION });
    }
    let mut steps: Vec<i64> = Vec::new();
    let mut version: i64 = FIRST_VERSION;
    while version <= SCHEMA_VERSION
        invariant
            FIRST_VERSION <= version <= SCHEMA_VERSION + 1,
            forall|v: i64| #[trigger] steps@.contains(v) <==> is_lacking(current, v) && v < version,
            forall|i: int, j: int| 0 <= i < j < steps@.len() ==> steps@[i] < steps@[j],
        decreases SCHEMA_VERSION + 1 - version,
    {
        let ghost before = steps@;
        if version > current {
            steps.push(version);
        }
        proof {
            assert forall|v: i64| steps@.contains(v) <==> is_lacking(current, v) && v < version
                + 1 by {
                if before.contains(v) {
                    let k = choose|k: int| 0 <= k < before.len() && before[k] == v;
                    assert(steps@[k] == v);
                }
                if v == version && version > current {
                    assert(steps@[before.len() as int] == v);
                }
                if steps@.contains(v) {
                    let k = choose|k: int| 0 <= k < steps@.len() && steps@[k] == v;
                    if k < before.len() {
                        assert(before[k] == v);
                    }
                }
            }
            assert forall|i: int, j: int| 0 <= i < j < steps@.len() implies steps@[i]
                < steps@[j] by {
                if j < before.len() {
                    assert(before[i] < before[j]);
                } else {
                    assert(before.contains(before[i]));
                    assert(steps@[j] == version);
                }
            }
        }
        version = version + 1;
    }
    Ok(steps)
}

/// A database that has taken the steps it lacked lacks none.
pub proof fn migrating_twice_does_nothing(version: i64)
    ensures
        !is_lacking(SCHEMA_VERSION, version),
{
}

} // verus!
