use vstd::prelude::*;

use crate::markup::MarkupNode;
use crate::parse::document_records;
use crate::query::{PortSelection, SupportedProtocol};
use crate::store::{
    PortCategory, PortRangeInfo, PortType, category_of, lookup_hits, search_mask,
    support_of,
};
use crate::text::lower_of;

verus! {

/// Every port lies in exactly one of the three bands: 0 to 1023 well-known,
/// 1024 to 49151 registered, 49152 to 65535 dynamic.
pub proof fn lemma_category_bands(port: u16)
    ensures
        (category_of(port) == PortCategory::WellKnown) == (port <= 1023),
        (category_of(port) == PortCategory::Registered) == (1024 <= port <= 49151),
        (category_of(port) == PortCategory::Dynamic) == (49152 <= port),
{
}

/// Parsing is a function of the document alone: equal documents give equal
/// results, records or error.
pub proof fn lemma_parse_deterministic(a: MarkupNode, b: MarkupNode)
    requires
        a == b,
    ensures
        document_records(a) == document_records(b),
{
}

/// A wildcard lookup matches exactly when the port lies in the range of some
/// record, whatever the records' protocol support.
pub proof fn lemma_wildcard_lookup(db: Seq<PortRangeInfo>, port: u16, n: int)
    requires
        0 <= n <= db.len(),
    ensures
        lookup_hits(db, PortSelection { number: port, protocol: SupportedProtocol::Any }, n).len()
            > 0 <==> exists|i: int|
            0 <= i < n && (#[trigger] db[i]).number.start <= port <= db[i].number.end,
    decreases n,
{
    let sel = PortSelection { number: port, protocol: SupportedProtocol::Any };
    if n > 0 {
        lemma_wildcard_lookup(db, port, n - 1);
        if exists|i: int| 0 <= i < n && (#[trigger] db[i]).number.start <= port <= db[i].number.end {
            let i = choose|i: int| 0 <= i < n && (#[trigger] db[i]).number.start <= port <= db[i].number.end;
            if i < n - 1 {
                assert(lookup_hits(db, sel, n - 1).len() > 0);
            }
        }
    }
}

/// A lookup for one protocol leaves out every record on which that protocol is
/// unused, and keeps only records whose range holds the port.
pub proof fn lemma_protocol_lookup(db: Seq<PortRangeInfo>, lookup: PortSelection, n: int)
    requires
        0 <= n <= db.len(),
        lookup.protocol != SupportedProtocol::Any,
    ensures
        forall|k: int|
            0 <= k < lookup_hits(db, lookup, n).len() ==> support_of(
                #[trigger] lookup_hits(db, lookup, n)[k],
                lookup.protocol,
            ) != PortType::Unused && lookup_hits(db, lookup, n)[k].number.start <= lookup.number
                <= lookup_hits(db, lookup, n)[k].number.end,
    decreases n,
{
    if n > 0 {
        lemma_protocol_lookup(db, lookup, n - 1);
        let pre = lookup_hits(db, lookup, n - 1);
        assert forall|k: int| 0 <= k < lookup_hits(db, lookup, n).len() implies support_of(
            #[trigger] lookup_hits(db, lookup, n)[k],
            lookup.protocol,
        ) != PortType::Unused && lookup_hits(db, lookup, n)[k].number.start <= lookup.number
            <= lookup_hits(db, lookup, n)[k].number.end by {
            if k < pre.len() {
                assert(lookup_hits(db, lookup, n)[k] == pre[k]);
            }
        }
    }
}

/// Search ignores case: two terms with the same lowercase form hit the same
/// records, so a search gives the same groups for both.
pub proof fn lemma_search_case_insensitive(
    db: Seq<PortRangeInfo>,
    a: Seq<char>,
    b: Seq<char>,
    links: bool,
    notes: bool,
)
    requires
        lower_of(a) == lower_of(b),
    ensures
        search_mask(db, a, links, notes) == search_mask(db, b, links, notes),
{
    assert(search_mask(db, a, links, notes) =~= search_mask(db, b, links, notes));
}

} // verus!
