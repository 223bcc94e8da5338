use vstd::prelude::*;

verus! {

/// Why a configuration is rejected outright: such inputs are internally
/// inconsistent and restarting the solve cannot help, so they are never
/// retried.
#[derive(Clone, Copy, PartialEq, Eq, Structural, Debug)]
pub enum FatalKind {
    /// The tile catalog is empty, so no cell could ever hold a tile.
    EmptyCatalog,
    /// An adjacency rule names a tile that is absent from the catalog:
    /// entry `entry` of rule `rule` is the out-of-range index `tile`.
    UnknownTile { rule: usize, entry: usize, tile: usize },
    /// While resolving names, entry `entry` of rule `rule` named a tile
    /// that no rule defines.
    UnknownTileName { rule: usize, entry: usize },
    /// A tile of the final assignment has no backing render asset.
    MissingAsset { tile: usize },
}

/// The failure taxonomy of the solver.
#[derive(Clone, Copy, PartialEq, Eq, Structural, Debug)]
pub enum SolveError {
    /// A cell's domain became empty during propagation. Recoverable: the
    /// whole attempt is discarded and the solve is restarted.
    Contradiction { cell: usize },
    /// Every attempt up to the retry cap ended in a contradiction.
    ExhaustedRetries { attempts: usize, last_contradiction: usize },
    /// The configuration itself is bad; retrying cannot fix it.
    Fatal { kind: FatalKind },
}

} // verus!
