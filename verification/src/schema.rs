//! Opening a database: which version of the schema it has and what that takes.

use crate::error;
use crate::error::Error;
use crate::store::SCHEMA_VERSION;
use crate::text;
use crate::text::{decimal_i64, same};
use vstd::prelude::*;
use vstd::string::*;

verus! {

/// What it takes to bring a database to the supported version of the schema.
#[derive(Debug, Clone, Copy, PartialEq, Eq, Structural)]
pub enum Migration {
    Create,
    Upgrade,
    Nothing,
}

/// What a version of the schema takes.
pub open spec fn migration_for(version: int) -> Result<Migration, Seq<char>> {
    if version > SCHEMA_VERSION {
        Err(
            "database schema version "@ + text::decimal(version)
                + " is newer than supported version 7"@,
        )
    } else if version == 0 {
        Ok(Migration::Create)
    } else if version == 6 {
        Ok(Migration::Upgrade)
    } else if version == 7 {
        Ok(Migration::Nothing)
    } else {
        Err(
            "database schema version "@ + text::decimal(version)
                + " is from an unsupported pre-1.0 build; upgrade it to v6 with the previous mem build first"@,
        )
    }
}

/// Decides what a version of the schema takes.
pub fn plan_migration(version: i64) -> (r: Result<Migration, Error>)
    requires
        version >= 0,
    ensures
        match migration_for(version as int) {
            Ok(migration) => r matches Ok(given) && given == migration,
            Err(message) => r matches Err(e) && e@ == message,
        },
{
    let number: String = decimal_i64(version);
    if version > SCHEMA_VERSION {
        return Err(
            Error::of3(
                "database schema version ",
                number.as_str(),
                " is newer than supported version 7",
            ),
        );
    }
    if version == 0 {
        return Ok(Migration::Create);
    }
    if version == 6 {
        return Ok(Migration::Upgrade);
    }
    if version == 7 {
        return Ok(Migration::Nothing);
    }
    Err(
        Error::of3(
            "database schema version ",
            number.as_str(),
            " is from an unsupported pre-1.0 build; upgrade it to v6 with the previous mem build first",
        ),
    )
}

/// Checks the version of the schema after a migration.
pub fn check_migrated(version: i64) -> (r: Result<(), Error>)
    ensures
        error::refusal(r) == (if version != SCHEMA_VERSION {
            Some(
                "failed to migrate database to schema version 7; got "@ + text::decimal(
                    version as int,
                ),
            )
        } else {
            None
        }),
{
    if version != SCHEMA_VERSION {
        let number: String = decimal_i64(version);
        return Err(
            Error::of2("failed to migrate database to schema version 7; got ", number.as_str()),
        );
    }
    Ok(())
}

/// How often a database is asked to keep a write-ahead log before giving up.
pub const WAL_ATTEMPTS: u32 = 20;

/// What to do next about the write-ahead log.
#[derive(Debug, Clone, Copy, PartialEq, Eq, Structural)]
pub enum WalStep {
    Ready,
    Ask,
    GiveUp,
}

/// What to do next, given the journal mode of the database, how often it was asked
/// so far, and whether it was asked without an error.
pub open spec fn wal_step(mode: Seq<char>, asked: int, granted: bool) -> WalStep {
    if mode == "wal"@ || (asked > 0 && granted) {
        WalStep::Ready
    } else if asked < WAL_ATTEMPTS {
        WalStep::Ask
    } else {
        WalStep::GiveUp
    }
}

/// Decides what to do next about the write-ahead log.
pub fn next_wal_step(mode: &str, asked: u32, granted: bool) -> (r: WalStep)
    ensures
        r == wal_step(mode@, asked as int, granted),
{
    if same(mode, "wal") || (asked > 0 && granted) {
        WalStep::Ready
    } else if asked < WAL_ATTEMPTS {
        WalStep::Ask
    } else {
        WalStep::GiveUp
    }
}

/// A database that is never granted a write-ahead log is asked exactly as often as
/// allowed.
pub proof fn law_wal_attempts_are_bounded(mode: Seq<char>, asked: int)
    requires
        mode != "wal"@,
        asked >= 0,
    ensures
        wal_step(mode, asked, false) == WalStep::Ask <==> asked < WAL_ATTEMPTS,
        wal_step(mode, asked, false) == WalStep::GiveUp <==> asked >= WAL_ATTEMPTS,
{
}

} // verus!
