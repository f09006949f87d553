use vstd::prelude::*;

verus! {

/// Why the store turned an operation down.
#[derive(Debug, Clone, Copy, PartialEq, Eq, Structural)]
pub enum DbError {
    /// The row that the operation names does not exist.
    NoRows,
    /// A row with the same identifier exists already.
    Unique,
    /// The parent that a row refers to does not exist.
    ForeignKey,
}

impl DbError {
    /// The wording of the error, as a caller may show it.
    pub open spec fn text(self) -> Seq<char> {
        match self {
            DbError::NoRows => "Database error: Query returned no rows"@,
            DbError::Unique => "Database error: UNIQUE constraint failed"@,
            DbError::ForeignKey => "Database error: FOREIGN KEY constraint failed"@,
        }
    }

    /// Writes the error out as a human-readable message.
    pub fn message(&self) -> (m: String)
        ensures
            m@ == self.text(),
    {
        match self {
            DbError::NoRows => "Database error: Query returned no rows".to_owned(),
            DbError::Unique => "Database error: UNIQUE constraint failed".to_owned(),
            DbError::ForeignKey => "Database error: FOREIGN KEY constraint failed".to_owned(),
        }
    }
}

} // verus!
