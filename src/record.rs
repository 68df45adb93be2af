//! The flat record of one change record, as written out in a table.
use vstd::prelude::*;
use crate::changeset::{flat, join_lines, Changeset};

verus! {

/// One change record with its added and deleted lines each joined into one text.
pub struct JsonFormatter {
    pub path: String,
    pub additions: String,
    pub deletions: String,
}

impl JsonFormatter {
    pub fn new(changeset: &Changeset) -> (r: JsonFormatter)
        ensures
            r.path@ == changeset@.path,
            r.additions@ == join_lines(flat(changeset@.additions)),
            r.deletions@ == join_lines(flat(changeset@.deletions)),
    {
        JsonFormatter {
            path: changeset.path().to_owned(),
            additions: changeset.additions(),
            deletions: changeset.deletions(),
        }
    }
}

} // verus!
