use vstd::prelude::*;

verus! {

/// The command-line surface that drives the store. The shell around the
/// library parses arguments into these plain values and dispatches on
/// them; the library itself only defines the shape.
#[derive(Debug, Clone)]
pub struct Args {
    pub command: Command,
}

/// One invocation of the tool.
#[derive(Debug, Clone)]
pub enum Command {
    /// Create the repository scaffold, overwriting an existing one only
    /// when forced.
    Init { force: bool },
    /// Load an object and print a blob's content.
    CatFile { pretty_print: bool, object_hash: String },
    /// Store a file's bytes as a blob and print the digest; persist it
    /// only when asked to write.
    HashObject { write: bool, file: String },
    /// Load a tree object and list its entries in encoded order.
    LsTree { tree_hash: String },
}

} // verus!
