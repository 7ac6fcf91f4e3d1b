//! Where things are kept below the data root.

use vstd::prelude::*;
use vstd::string::*;

use crate::settings::{join_path, joined_path, Settings};
use crate::text::owned;

verus! {

/// The directory where memory is kept.
pub fn data_root(settings: &Settings) -> (r: String)
    ensures
        r@ == settings.data_root@,
{
    owned(settings.data_root.as_str())
}

/// The directory of the databases below a data root.
pub open spec fn databases_below(root: Seq<char>) -> Seq<char> {
    joined_path(joined_path(root, "system"@), "databases"@)
}

/// The directory of the databases.
pub fn databases_dir(settings: &Settings) -> (r: String)
    ensures
        r@ == databases_below(settings.data_root@),
{
    let system = join_path(settings.data_root.as_str(), "system");
    join_path(system.as_str(), "databases")
}

/// A database below the data root.
fn database(settings: &Settings, name: &str) -> (r: String)
    ensures
        r@ == joined_path(databases_below(settings.data_root@), name@),
{
    let dir = databases_dir(settings);
    join_path(dir.as_str(), name)
}

/// The property graph.
pub fn graph_db_path(settings: &Settings) -> (r: String)
    ensures
        r@ == joined_path(databases_below(settings.data_root@), "reflect-mem.graph.sqlite"@),
{
    database(settings, "reflect-mem.graph.sqlite")
}

/// The metadata.
pub fn relational_db_path(settings: &Settings) -> (r: String)
    ensures
        r@ == joined_path(databases_below(settings.data_root@), "reflect-mem.sqlite"@),
{
    database(settings, "reflect-mem.sqlite")
}

/// The vectors.
pub fn lancedb_path(settings: &Settings) -> (r: String)
    ensures
        r@ == joined_path(databases_below(settings.data_root@), "reflect-mem.lancedb"@),
{
    database(settings, "reflect-mem.lancedb")
}

/// The source texts.
pub fn text_dir(settings: &Settings) -> (r: String)
    ensures
        r@ == joined_path(settings.data_root@, "data"@),
{
    join_path(settings.data_root.as_str(), "data")
}

/// The session cache.
pub fn session_db_path(settings: &Settings) -> (r: String)
    ensures
        r@ == joined_path(databases_below(settings.data_root@), "reflect-mem.session.sqlite"@),
{
    database(settings, "reflect-mem.session.sqlite")
}

} // verus!
