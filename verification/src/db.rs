//! SQLite settings for production use.

use vstd::prelude::*;

verus! {

/// The value a `PRAGMA` is set to.
#[derive(Debug, Clone, PartialEq, Eq)]
pub enum PragmaValue {
    Text(String),
    Integer(i64),
}

/// A pragma taken by its name's characters and its value.
pub enum PragmaSetting {
    Text(Seq<char>, Seq<char>),
    Integer(Seq<char>, i64),
}

/// A pragma name and value taken by their characters.
pub open spec fn pragma_view(p: (String, PragmaValue)) -> PragmaSetting {
    match p.1 {
        PragmaValue::Text(t) => PragmaSetting::Text(p.0@, t@),
        PragmaValue::Integer(i) => PragmaSetting::Integer(p.0@, i),
    }
}

/// The production settings, in the order they are applied: WAL journal mode,
/// foreign key enforcement, normal synchronous mode (optimal for WAL) and a
/// 5-second busy timeout.
pub open spec fn production_settings() -> Seq<PragmaSetting> {
    seq![
        PragmaSetting::Text("journal_mode"@, "WAL"@),
        PragmaSetting::Text("foreign_keys"@, "ON"@),
        PragmaSetting::Text("synchronous"@, "NORMAL"@),
        PragmaSetting::Integer("busy_timeout"@, 5000),
    ]
}

/// Database connection builder and helper for Fly.io SQLite applications.
pub struct FlyDb;

impl FlyDb {
    /// The recommended Fly.io / SQLite production `PRAGMA` settings, in the order in
    /// which a new connection applies them.
    pub fn production_pragmas() -> (settings: Vec<(String, PragmaValue)>)
        ensures
            settings@.map_values(|p: (String, PragmaValue)| pragma_view(p)) == production_settings(),
    {
        let settings = vec![
            ("journal_mode".to_owned(), PragmaValue::Text("WAL".to_owned())),
            ("foreign_keys".to_owned(), PragmaValue::Text("ON".to_owned())),
            ("synchronous".to_owned(), PragmaValue::Text("NORMAL".to_owned())),
            ("busy_timeout".to_owned(), PragmaValue::Integer(5000)),
        ];
        assert(settings@.map_values(|p: (String, PragmaValue)| pragma_view(p)) =~= production_settings());
        settings
    }
}

} // verus!
