use vstd::prelude::*;

verus! {

/// A request against an opened image, as the command-line front end hands it
/// to the engine: extract the named paths, or materialize the whole tree,
/// writing under the given output directory. Paths are raw bytes, slash
/// separated.
pub enum Command {
    ExtractFiles { filepaths: Vec<Vec<u8>>, output: Vec<u8> },
    ExtractAll { output: Vec<u8> },
}

} // verus!
