//! The key under which the ingestion front-end lists flights: a table
//! name carried in a request's criteria bytes.

use vstd::prelude::*;

verus! {

/// What a list-flights request selects by.
pub enum FlightsKey {
    TableName(String),
}

} // verus!
