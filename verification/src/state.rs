//! The tables and graph files that questions are answered from.

use crate::codec::ReadError;
use crate::parsing::artists_match;
use crate::parsing::lookup_entries;
use crate::parsing::metadata_at;
use crate::parsing::parse_unified_metadata;
use crate::parsing::ArtistMetadata;
use crate::parsing::GraphIndex;
use crate::parsing::NameLookup;
use crate::pathfinding::graph::ids_in;
use crate::pathfinding::graph::GraphView;
use crate::pathfinding_config::PathfindingConfig;
use vstd::prelude::*;

verus! {

/// The tables of a metadata file and the bytes of the two graph files.
#[derive(Debug)]
pub struct AppState<'a> {
    pub name_lookup: NameLookup,
    pub artist_metadata: ArtistMetadata,
    pub graph_index: GraphIndex,
    pub reverse_graph_index: GraphIndex,
    pub graph_data: &'a [u8],
    pub reverse_graph_data: &'a [u8],
}

impl<'a> AppState<'a> {
    /// The forward graph as a search with `config` sees it.
    pub open spec fn forward_view(&self, config: PathfindingConfig) -> GraphView {
        GraphView { data: self.graph_data@, index: self.graph_index@, config }
    }

    /// The reverse graph as a search with `config` sees it.
    pub open spec fn reverse_view(&self, config: PathfindingConfig) -> GraphView {
        GraphView { data: self.reverse_graph_data@, index: self.reverse_graph_index@, config }
    }

    /// Whether the table of artists knows every artist that stands in one
    /// of the two graph files.
    pub open spec fn names_graphs(&self) -> bool {
        forall|id: u128|
            #![trigger self.artist_metadata@.contains_key(id)]
            ids_in(self.graph_data@).contains(id) || ids_in(self.reverse_graph_data@).contains(id)
                ==> self.artist_metadata@.contains_key(id)
    }

    /// Reads the tables from a metadata file and keeps the two graph files
    /// beside them.
    pub fn new(
        binary_metadata: &[u8],
        graph_data: &'a [u8],
        reverse_graph_data: &'a [u8],
    ) -> (r: Result<Self, ReadError>)
        ensures
            match metadata_at(binary_metadata@) {
                Ok(view) => {
                    &&& r.is_ok()
                    &&& lookup_entries(r.unwrap().name_lookup) == view.lookup
                    &&& artists_match(r.unwrap().artist_metadata@, view.artists)
                    &&& r.unwrap().graph_index@ == view.forward
                    &&& r.unwrap().reverse_graph_index@ == view.reverse
                    &&& r.unwrap().graph_data@ == graph_data@
                    &&& r.unwrap().reverse_graph_data@ == reverse_graph_data@
                },
                Err(e) => r.is_err() && r.unwrap_err() == e,
            },
    {
        match parse_unified_metadata(binary_metadata) {
            Ok((name_lookup, artist_metadata, graph_index, reverse_graph_index)) => Ok(
                AppState {
                    name_lookup,
                    artist_metadata,
                    graph_index,
                    reverse_graph_index,
                    graph_data,
                    reverse_graph_data,
                },
            ),
            Err(e) => Err(e),
        }
    }
}

} // verus!
