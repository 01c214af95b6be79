//! The metadata of a log entry received from a node: the port information it
//! may carry, and whether the entry reports the activity of a port.

use vstd::prelude::*;
use crate::assoc::{assoc_find, assoc_map, assoc_put, assoc_wf};

verus! {

/// The metadata `m` with the port and the port type added under the keys
/// `port` and `port_type`, each where it is given.
pub open spec fn with_port_info(
    m: Map<Seq<char>, String>,
    port: Option<String>,
    port_type: Option<String>,
) -> Map<Seq<char>, String> {
    let m1 = match port {
        Some(p) => m.insert("port"@, p),
        None => m,
    };
    match port_type {
        Some(t) => m1.insert("port_type"@, t),
        None => m1,
    }
}

/// Add the port and port type of a received log entry to its metadata.
pub fn add_port_info(metadata: &mut Vec<(String, String)>, port: &Option<String>, port_type: &Option<String>)
    requires
        assoc_wf(old(metadata)@),
    ensures
        assoc_wf(final(metadata)@),
        assoc_map(final(metadata)@) == with_port_info(assoc_map(old(metadata)@), *port, *port_type),
{
    match port {
        Some(p) => assoc_put(metadata, "port", p.clone()),
        None => {},
    }
    match port_type {
        Some(t) => assoc_put(metadata, "port_type", t.clone()),
        None => {},
    }
}

/// The port and port type of an entry that reports a port's activity: both
/// are in its metadata; none for any other entry.
pub fn io_activity(metadata: &Vec<(String, String)>) -> (r: Option<(String, String)>)
    requires
        assoc_wf(metadata@),
    ensures
        r is Some <==> (assoc_map(metadata@).dom().contains("port"@) && assoc_map(
            metadata@,
        ).dom().contains("port_type"@)),
        r matches Some((p, t)) ==> p == assoc_map(metadata@)["port"@] && t == assoc_map(
            metadata@,
        )["port_type"@],
{
    match (assoc_find(metadata, "port"), assoc_find(metadata, "port_type")) {
        (Some(i), Some(j)) => Some((metadata[i].1.clone(), metadata[j].1.clone())),
        _ => None,
    }
}

} // verus!
