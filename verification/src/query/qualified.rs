//! Collection names qualified by database.
use crate::text;
use vstd::prelude::*;

verus! {

/// The number of the default database, the only one here.
pub const DEFAULT_DATABASE: u64 = 0;

/// A collection name that tells its database.
#[derive(Debug)]
pub struct QualifiedCollection {
    name: String,
}

/// A collection name qualified by a database: bare in the default database,
/// else after the number of the database and a slash.
pub open spec fn qualified(database: u64, collection: Seq<char>) -> Seq<char> {
    if database == DEFAULT_DATABASE {
        collection
    } else {
        text::decimal(database as nat) + "/"@ + collection
    }
}

impl View for QualifiedCollection {
    type V = Seq<char>;

    closed spec fn view(&self) -> Seq<char> {
        self.name@
    }
}

impl QualifiedCollection {
    /// Qualifies a collection name by a database.
    pub fn new(database: u64, collection: &str) -> (r: QualifiedCollection)
        ensures
            r@ == qualified(database, collection@),
    {
        if database == DEFAULT_DATABASE {
            QualifiedCollection { name: collection.to_owned() }
        } else {
            let digits = text::decimal_string(database);
            QualifiedCollection { name: text::concat3(digits.as_str(), "/", collection) }
        }
    }

    /// The qualified name.
    pub fn as_str(&self) -> (r: &str)
        ensures
            r@ == self@,
    {
        self.name.as_str()
    }
}

/// Qualifies a collection name by the default database, which leaves it as it
/// is.
pub fn qualify(collection: &str) -> (r: QualifiedCollection)
    ensures
        r@ == collection@,
{
    QualifiedCollection::new(DEFAULT_DATABASE, collection)
}

} // verus!
