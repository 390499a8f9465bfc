use vstd::prelude::*;

use crate::parse::ParseError;
use crate::query::{PortSelection, SupportedProtocol};
use crate::display::{
    MatchedPort, PortLookupOutput, PortUseCase, SearchOutput, advance, flat_use_cases,
    lemma_project_links, lemma_project_no_links, lemma_threaded_append, lemma_threaded_one,
    link_spans, links_total, opt_int, threaded, use_case_of,
};
use crate::rich_text::{RichTextSpan, SpanView, normal_text_of, span_matches, spans_view};
use crate::text::{contains_seq, contains_text, lower_of, lowercase};

verus! {

/// The band of the port number space that a port belongs to.
#[derive(Copy, Clone, Debug, PartialEq, Eq, Structural)]
pub enum PortCategory {
    /// 0 to 1023.
    WellKnown,
    /// 1024 to 49151.
    Registered,
    /// 49152 to 65535.
    Dynamic,
}

/// The category of a port number, as a mathematical function.
pub open spec fn category_of(port: u16) -> PortCategory {
    if port <= 1023 {
        PortCategory::WellKnown
    } else if port <= 49151 {
        PortCategory::Registered
    } else {
        PortCategory::Dynamic
    }
}

impl PortCategory {
    /// The category that a port number falls in.
    pub fn from_port(port: u16) -> (r: PortCategory)
        ensures
            r == category_of(port),
    {
        if port <= 1023 {
            PortCategory::WellKnown
        } else if port <= 49151 {
            PortCategory::Registered
        } else {
            PortCategory::Dynamic
        }
    }
}

impl PortCategory {
    /// The category of a range whose ends share one; a range that crosses a
    /// category border is an error.
    pub fn of_range(range: PortRange) -> (r: Result<PortCategory, ParseError>)
        ensures
            match r {
                Ok(c) => category_of(range.start) == category_of(range.end) && c == category_of(
                    range.start,
                ),
                Err(e) => category_of(range.start) != category_of(range.end) && e
                    == ParseError::CategoryCrossed,
            },
    {
        let start = PortCategory::from_port(range.start);
        let end = PortCategory::from_port(range.end);
        if start != end {
            return Err(ParseError::CategoryCrossed);
        }
        Ok(start)
    }

    /// The kebab-case name of the category.
    pub fn name(&self) -> (r: &'static str)
        ensures
            r@ == category_name(*self),
    {
        match self {
            PortCategory::WellKnown => "well-known",
            PortCategory::Registered => "registered",
            PortCategory::Dynamic => "dynamic",
        }
    }
}

pub open spec fn category_name(c: PortCategory) -> Seq<char> {
    match c {
        PortCategory::WellKnown => "well-known"@,
        PortCategory::Registered => "registered"@,
        PortCategory::Dynamic => "dynamic"@,
    }
}

/// How a protocol is used at a port, as the table classifies it.
#[derive(Copy, Clone, Debug, PartialEq, Eq, Structural)]
pub enum PortType {
    /// The protocol is not used.
    Unused,
    /// Assigned by IANA for this port, and standardized, specified or widely used for it.
    Yes,
    /// Not assigned by IANA for this port, but standardized, specified or widely used for it.
    Unofficial,
    /// Assigned by IANA for this port, but not standardized, specified or widely used for it.
    Assigned,
    /// Neither assigned by IANA for this port nor standardized, specified or widely used for it.
    No,
    /// Reserved by IANA, generally to prevent collision with a previous use.
    Reserved,
}

/// The classification a keyword names, compared case-sensitively.
pub open spec fn keyword_type(t: Seq<char>) -> Option<PortType> {
    if t == "Yes"@ {
        Some(PortType::Yes)
    } else if t == "Unofficial"@ {
        Some(PortType::Unofficial)
    } else if t == "Assigned"@ {
        Some(PortType::Assigned)
    } else if t == "No"@ {
        Some(PortType::No)
    } else if t == "Reserved"@ {
        Some(PortType::Reserved)
    } else {
        None
    }
}

pub open spec fn port_type_name(t: PortType) -> Seq<char> {
    match t {
        PortType::Unused => "Unused"@,
        PortType::Yes => "Yes"@,
        PortType::Unofficial => "Unofficial"@,
        PortType::Assigned => "Assigned"@,
        PortType::No => "No"@,
        PortType::Reserved => "Reserved"@,
    }
}

impl PortType {
    /// The protocol is not used.
    pub fn is_unused(&self) -> (r: bool)
        ensures
            r == (*self == PortType::Unused),
    {
        match self {
            PortType::Unused => true,
            _ => false,
        }
    }

    /// The name of the classification.
    pub fn name(&self) -> (r: &'static str)
        ensures
            r@ == port_type_name(*self),
    {
        match self {
            PortType::Unused => "Unused",
            PortType::Yes => "Yes",
            PortType::Unofficial => "Unofficial",
            PortType::Assigned => "Assigned",
            PortType::No => "No",
            PortType::Reserved => "Reserved",
        }
    }

    /// The classification a keyword names.
    pub fn from_keyword(t: &str) -> (r: Option<PortType>)
        ensures
            r == keyword_type(t@),
    {
        if crate::text::text_eq(t, "Yes") {
            Some(PortType::Yes)
        } else if crate::text::text_eq(t, "Unofficial") {
            Some(PortType::Unofficial)
        } else if crate::text::text_eq(t, "Assigned") {
            Some(PortType::Assigned)
        } else if crate::text::text_eq(t, "No") {
            Some(PortType::No)
        } else if crate::text::text_eq(t, "Reserved") {
            Some(PortType::Reserved)
        } else {
            None
        }
    }
}

/// An inclusive range of ports.
#[derive(Copy, Clone, Debug, PartialEq, Eq, Structural)]
pub struct PortRange {
    pub start: u16,
    pub end: u16,
}

impl PortRange {
    /// The port lies in the range.
    pub fn contains(&self, port: u16) -> (r: bool)
        ensures
            r == (self.start <= port && port <= self.end),
    {
        self.start <= port && port <= self.end
    }
}

/// One use case of a range of ports; several may share a range.
#[derive(Clone, Debug)]
pub struct PortRangeInfo {
    pub number: PortRange,
    pub tcp_type: PortType,
    pub udp_type: PortType,
    pub sctp_type: PortType,
    pub dccp_type: PortType,
    pub rich_description: Vec<RichTextSpan>,
}

/// The support a record gives a protocol; a wildcard has none of its own.
pub open spec fn support_of(info: PortRangeInfo, protocol: SupportedProtocol) -> PortType {
    match protocol {
        SupportedProtocol::Any => PortType::Unused,
        SupportedProtocol::Tcp => info.tcp_type,
        SupportedProtocol::Udp => info.udp_type,
        SupportedProtocol::Sctp => info.sctp_type,
        SupportedProtocol::Dccp => info.dccp_type,
    }
}

/// The record answers a lookup: the port is in its range, and a selected
/// protocol is used there.
pub open spec fn port_matches(info: PortRangeInfo, lookup: PortSelection) -> bool {
    &&& info.number.start <= lookup.number <= info.number.end
    &&& (lookup.protocol == SupportedProtocol::Any || support_of(info, lookup.protocol)
        != PortType::Unused)
}

impl PortRangeInfo {
    /// Both ends of the range lie in one category.
    pub open spec fn well_formed(&self) -> bool {
        category_of(self.number.start) == category_of(self.number.end)
    }

    /// Whether this record matches the requested port and protocol.
    pub fn matches_port(&self, lookup: PortSelection) -> (r: bool)
        ensures
            r == port_matches(*self, lookup),
    {
        if !self.number.contains(lookup.number) {
            return false;
        }
        match lookup.protocol {
            SupportedProtocol::Any => true,
            SupportedProtocol::Tcp => !self.tcp_type.is_unused(),
            SupportedProtocol::Udp => !self.udp_type.is_unused(),
            SupportedProtocol::Sctp => !self.sctp_type.is_unused(),
            SupportedProtocol::Dccp => !self.dccp_type.is_unused(),
        }
    }
}

/// The lowercase forms of the prose texts of the spans, joined.
pub open spec fn joined_lower(spans: Seq<SpanView>) -> Seq<char>
    decreases spans.len(),
{
    if spans.len() == 0 {
        Seq::empty()
    } else {
        joined_lower(spans.drop_last()) + match normal_text_of(spans.last()) {
            Some(t) => lower_of(t),
            None => Seq::empty(),
        }
    }
}

/// A description matches a search term when a single span matches it, or when
/// the joined prose does, so that a term may straddle two spans.
pub open spec fn description_matches(spans: Seq<SpanView>, search: Seq<char>, links: bool, notes: bool) -> bool {
    let term = lower_of(search);
    (exists|k: int| 0 <= k < spans.len() && span_matches(#[trigger] spans[k], lower_of(term), links, notes))
        || contains_seq(joined_lower(spans), term)
}

pub open spec fn search_hit(info: PortRangeInfo, search: Seq<char>, links: bool, notes: bool) -> bool {
    description_matches(spans_view(info.rich_description@), search, links, notes)
}

impl PortRangeInfo {
    /// Whether the description contains the search term, compared in lowercase.
    pub fn matches_search(
        &self,
        search: &str,
        include_links: bool,
        include_notes_and_references: bool,
    ) -> (r: bool)
        ensures
            r == search_hit(*self, search@, include_links, include_notes_and_references),
    {
        let term = lowercase(search);
        let spans = &self.rich_description;
        let ghost sv = spans_view(spans@);
        let mut i: usize = 0;
        while i < spans.len()
            invariant
                sv == spans_view(spans@),
                sv == spans_view(self.rich_description@),
                term@ == lower_of(search@),
                i <= spans@.len(),
                forall|k: int| 0 <= k < i ==> !span_matches(#[trigger] sv[k], lower_of(term@), include_links, include_notes_and_references),
            decreases spans@.len() - i,
        {
            if spans[i].matches_search(term.as_str(), include_links, include_notes_and_references) {
                assert(span_matches(sv[i as int], lower_of(term@), include_links, include_notes_and_references));
                return true;
            }
            i = i + 1;
        }
        let mut joined = String::new();
        let mut j: usize = 0;
        while j < spans.len()
            invariant
                sv == spans_view(spans@),
                sv == spans_view(self.rich_description@),
                j <= spans@.len(),
                term@ == lower_of(search@),
                forall|k: int| 0 <= k < sv.len() ==> !span_matches(#[trigger] sv[k], lower_of(term@), include_links, include_notes_and_references),
                joined@ == joined_lower(sv.subrange(0, j as int)),
            decreases spans@.len() - j,
        {
            assert(sv.subrange(0, j + 1).drop_last() =~= sv.subrange(0, j as int));
            if let Some(t) = spans[j].normal_text() {
                let low = lowercase(t.as_str());
                joined.append(low.as_str());
            }
            j = j + 1;
        }
        assert(sv.subrange(0, spans@.len() as int) =~= sv);
        contains_text(joined.as_str(), term.as_str())
    }
}

/// The number of link spans in a record's description.
pub open spec fn record_links(info: PortRangeInfo) -> nat {
    link_spans(spans_view(info.rich_description@))
}

/// The number of link spans in all the records.
pub open spec fn link_total(db: Seq<PortRangeInfo>) -> nat
    decreases db.len(),
{
    if db.len() == 0 {
        0
    } else {
        link_total(db.drop_last()) + record_links(db.last())
    }
}

/// The records among the first `n` that answer a lookup, in order.
pub open spec fn lookup_hits(db: Seq<PortRangeInfo>, lookup: PortSelection, n: int) -> Seq<PortRangeInfo>
    decreases n,
{
    if n <= 0 {
        Seq::empty()
    } else {
        lookup_hits(db, lookup, n - 1) + if port_matches(db[n - 1], lookup) {
            seq![db[n - 1]]
        } else {
            Seq::empty()
        }
    }
}

/// The records among the first `n` that are marked and have the range `key`, in order.
pub open spec fn records_with(db: Seq<PortRangeInfo>, mask: Seq<bool>, key: PortRange, n: int) -> Seq<PortRangeInfo>
    decreases n,
{
    if n <= 0 {
        Seq::empty()
    } else {
        records_with(db, mask, key, n - 1) + if mask[n - 1] && db[n - 1].number == key {
            seq![db[n - 1]]
        } else {
            Seq::empty()
        }
    }
}

/// The records behind the groups, group after group.
pub open spec fn grouped_records(db: Seq<PortRangeInfo>, mask: Seq<bool>, groups: Seq<MatchedPort>) -> Seq<PortRangeInfo>
    decreases groups.len(),
{
    if groups.len() == 0 {
        Seq::empty()
    } else {
        grouped_records(db, mask, groups.drop_last()) + records_with(
            db,
            mask,
            groups.last().number,
            db.len() as int,
        )
    }
}

/// Which records a search hits.
pub open spec fn search_mask(db: Seq<PortRangeInfo>, search: Seq<char>, links: bool, notes: bool) -> Seq<bool> {
    Seq::new(db.len(), |i: int| search_hit(db[i], search, links, notes))
}

pub open spec fn first_link(show_links: bool) -> Option<int> {
    if show_links {
        Some(1)
    } else {
        None
    }
}

proof fn lemma_link_total_prefix(db: Seq<PortRangeInfo>, k: int)
    requires
        0 <= k <= db.len(),
    ensures
        link_total(db.subrange(0, k)) <= link_total(db),
    decreases db.len() - k,
{
    if k < db.len() {
        assert(db.subrange(0, k + 1).drop_last() =~= db.subrange(0, k));
        lemma_link_total_prefix(db, k + 1);
    } else {
        assert(db.subrange(0, k) =~= db);
    }
}

proof fn lemma_use_case_links(u: PortUseCase, r: PortRangeInfo, start: Option<int>, notes: bool)
    requires
        use_case_of(u, r, start, notes),
    ensures
        start is Some ==> u.links@.len() == record_links(r) && advance(start, u.links@.len()) == advance(start, record_links(r)),
        start is None ==> u.links@.len() == 0,
{
    let sv = spans_view(r.rich_description@);
    match start {
        Some(s) => {
            lemma_project_links(sv, s, notes);
        },
        None => {
            lemma_project_no_links(sv, notes);
        },
    }
    assert(u.links@.len() == crate::display::pairs_view(u.links@).len());
}

proof fn lemma_links_total_push(a: Seq<PortUseCase>, u: PortUseCase)
    ensures
        links_total(a.push(u)) == links_total(a) + u.links@.len(),
{
    assert(a.push(u).drop_last() =~= a);
}

/// All known use cases of all known ports, in document order.
#[derive(Clone, Debug)]
pub struct PortDatabase(pub Vec<PortRangeInfo>);

impl PortDatabase {
    /// Every record's range stays within one category.
    pub open spec fn well_formed(&self) -> bool {
        forall|i: int| 0 <= i < self.0@.len() ==> (#[trigger] self.0@[i]).well_formed()
    }
}

/// The link spans of the records not yet marked as used.
pub open spec fn budget(db: Seq<PortRangeInfo>, used: Seq<bool>) -> nat
    decreases db.len(),
{
    if db.len() == 0 {
        0
    } else {
        budget(db.drop_last(), used.drop_last()) + if used.last() {
            0nat
        } else {
            record_links(db.last())
        }
    }
}

proof fn lemma_budget_update(db: Seq<PortRangeInfo>, used: Seq<bool>, i: int)
    requires
        used.len() == db.len(),
        0 <= i < db.len(),
        !used[i],
    ensures
        budget(db, used.update(i, true)) + record_links(db[i]) == budget(db, used),
    decreases db.len(),
{
    let u2 = used.update(i, true);
    if i < db.len() - 1 {
        assert(u2.drop_last() =~= used.drop_last().update(i, true));
        lemma_budget_update(db.drop_last(), used.drop_last(), i);
    } else {
        assert(u2.drop_last() =~= used.drop_last());
    }
}

proof fn lemma_budget_none_used(db: Seq<PortRangeInfo>, used: Seq<bool>)
    requires
        used.len() == db.len(),
        forall|j: int| 0 <= j < used.len() ==> !used[j],
    ensures
        budget(db, used) == link_total(db),
    decreases db.len(),
{
    if db.len() > 0 {
        lemma_budget_none_used(db.drop_last(), used.drop_last());
    }
}

proof fn lemma_records_with_nonempty(
    db: Seq<PortRangeInfo>,
    mask: Seq<bool>,
    key: PortRange,
    n: int,
    j: int,
)
    requires
        0 <= j < n,
        mask[j] && db[j].number == key,
    ensures
        records_with(db, mask, key, n).len() > 0,
    decreases n,
{
    if j < n - 1 {
        lemma_records_with_nonempty(db, mask, key, n - 1, j);
    }
}

proof fn lemma_insert_contains(s: Seq<PortRange>, p: int, x: PortRange)
    requires
        0 <= p <= s.len(),
    ensures
        forall|y: PortRange| s.insert(p, x).contains(y) <==> (s.contains(y) || y == x),
{
    s.insert_ensures(p, x);
    assert forall|y: PortRange| s.insert(p, x).contains(y) <==> (s.contains(y) || y == x) by {
        if s.contains(y) {
            let g = choose|g: int| 0 <= g < s.len() && s[g] == y;
            if g < p {
                assert(s.insert(p, x)[g] == y);
            } else {
                assert(s.insert(p, x)[g + 1] == y);
            }
        }
        if y == x {
            assert(s.insert(p, x)[p] == y);
        }
        if s.insert(p, x).contains(y) {
            let g = choose|g: int| 0 <= g < s.insert(p, x).len() && s.insert(p, x)[g] == y;
            if g < p {
                assert(s[g] == y);
            } else if g > p {
                assert(s[g - 1] == y);
            }
        }
    }
}

/// Some marked record among the first `n` has the range `key`.
pub open spec fn key_has_hit(db: Seq<PortRangeInfo>, mask: Seq<bool>, key: PortRange, n: int) -> bool {
    exists|j: int| 0 <= j < n && mask[j] && db[j].number == key
}

/// Whether a range is among the keys.
fn has_range(keys: &Vec<PortRange>, x: PortRange) -> (r: bool)
    ensures
        r == keys@.contains(x),
{
    let mut i: usize = 0;
    while i < keys.len()
        invariant
            i <= keys@.len(),
            forall|j: int| 0 <= j < i ==> keys@[j] != x,
        decreases keys@.len() - i,
    {
        if keys[i] == x {
            assert(keys@[i as int] == x);
            return true;
        }
        i = i + 1;
    }
    false
}

/// The place for a range that keeps the keys ordered by start, after the keys
/// that start at the same port.
fn insert_position(keys: &Vec<PortRange>, start: u16) -> (r: usize)
    requires
        forall|a: int, b: int| 0 <= a < b < keys@.len() ==> keys@[a].start <= keys@[b].start,
    ensures
        r <= keys@.len(),
        forall|a: int| 0 <= a < r ==> keys@[a].start <= start,
        forall|a: int| r <= a < keys@.len() ==> keys@[a].start > start,
{
    let mut i: usize = 0;
    while i < keys.len() && keys[i].start <= start
        invariant
            i <= keys@.len(),
            forall|a: int| 0 <= a < i ==> keys@[a].start <= start,
        decreases keys@.len() - i,
    {
        i = i + 1;
    }
    i
}

impl PortDatabase {
    /// Whether numbering every link of every record fits in `usize`.
    pub open spec fn links_fit(&self) -> bool {
        link_total(self.0@) < usize::MAX
    }

    /// The use cases of the requested port, in database order, with links numbered
    /// from 1 across them when `show_links` is set. They may come from different,
    /// overlapping ranges; no match gives no matched port.
    pub fn lookup(
        &self,
        lookup: PortSelection,
        show_links: bool,
        show_notes_and_references: bool,
    ) -> (r: PortLookupOutput<'_>)
        requires
            self.links_fit(),
        ensures
            r.lookup == lookup,
            match r.matched {
                None => lookup_hits(self.0@, lookup, self.0@.len() as int).len() == 0,
                Some(m) => {
                    &&& lookup_hits(self.0@, lookup, self.0@.len() as int).len() > 0
                    &&& m.number == PortRange { start: lookup.number, end: lookup.number }
                    &&& threaded(
                        m.use_cases@,
                        lookup_hits(self.0@, lookup, self.0@.len() as int),
                        first_link(show_links),
                        show_notes_and_references,
                    )
                },
            },
    {
        let ghost db = self.0@;
        let ghost start = first_link(show_links);
        let mut next: Option<usize> = if show_links {
            Some(1)
        } else {
            None
        };
        let mut use_cases: Vec<PortUseCase<'_>> = Vec::new();
        let mut i: usize = 0;
        while i < self.0.len()
            invariant
                db == self.0@,
                start == first_link(show_links),
                link_total(db) < usize::MAX,
                i <= db.len(),
                threaded(use_cases@, lookup_hits(db, lookup, i as int), start, show_notes_and_references),
                opt_int(next) == advance(start, links_total(use_cases@)),
                show_links ==> links_total(use_cases@) <= link_total(db.subrange(0, i as int)),
            decreases db.len() - i,
        {
            assert(db.subrange(0, i + 1).drop_last() =~= db.subrange(0, i as int));
            proof {
                lemma_link_total_prefix(db, i + 1);
            }
            let info = &self.0[i];
            if info.matches_port(lookup) {
                let uc = PortUseCase::from_with_options(info, next, show_notes_and_references);
                proof {
                    lemma_use_case_links(uc, *info, opt_int(next), show_notes_and_references);
                    lemma_threaded_one(uc, *info, opt_int(next), show_notes_and_references);
                    lemma_threaded_append(
                        use_cases@,
                        lookup_hits(db, lookup, i as int),
                        seq![uc],
                        seq![*info],
                        start,
                        show_notes_and_references,
                    );
                    lemma_links_total_push(use_cases@, uc);
                    assert(use_cases@ + seq![uc] =~= use_cases@.push(uc));
                }
                next = match next {
                    Some(n) => Some(n + uc.link_count()),
                    None => None,
                };
                use_cases.push(uc);
            }
            i = i + 1;
        }
        assert(db.subrange(0, db.len() as int) =~= db);
        if use_cases.len() == 0 {
            PortLookupOutput { lookup, matched: None }
        } else {
            PortLookupOutput {
                lookup,
                matched: Some(
                    MatchedPort {
                        number: PortRange { start: lookup.number, end: lookup.number },
                        use_cases,
                    },
                ),
            }
        }
    }
}

/// The distinct ranges of the marked records, ordered by start.
fn range_keys(records: &Vec<PortRangeInfo>, hits: &Vec<bool>) -> (keys: Vec<PortRange>)
    requires
        hits@.len() == records@.len(),
    ensures
        forall|a: int, b: int| 0 <= a < b < keys@.len() ==> keys@[a].start <= keys@[b].start,
        forall|a: int, b: int| 0 <= a < b < keys@.len() ==> keys@[a] != keys@[b],
        forall|j: int| 0 <= j < records@.len() && hits@[j] ==> keys@.contains(#[trigger] records@[j].number),
        forall|g: int| 0 <= g < keys@.len() ==> key_has_hit(records@, hits@, #[trigger] keys@[g], records@.len() as int),
{
    let ghost db = records@;
    let ghost mask = hits@;
    let n = records.len();
    let mut keys: Vec<PortRange> = Vec::new();
    let mut i: usize = 0;
    while i < n
        invariant
            db == records@,
            mask == hits@,
            n == db.len(),
            i <= n,
            hits@.len() == n,
            forall|a: int, b: int| 0 <= a < b < keys@.len() ==> keys@[a].start <= keys@[b].start,
            forall|a: int, b: int| 0 <= a < b < keys@.len() ==> keys@[a] != keys@[b],
            forall|j: int| 0 <= j < i && mask[j] ==> keys@.contains(#[trigger] db[j].number),
            forall|g: int| 0 <= g < keys@.len() ==> key_has_hit(db, mask, #[trigger] keys@[g], n as int),
        decreases n - i,
    {
        if hits[i] {
            let x = records[i].number;
            if !has_range(&keys, x) {
                let p = insert_position(&keys, x.start);
                let ghost old_keys = keys@;
                keys.insert(p, x);
                proof {
                    old_keys.insert_ensures(p as int, x);
                    lemma_insert_contains(old_keys, p as int, x);
                    assert forall|a: int, b: int| 0 <= a < b < keys@.len() implies keys@[a] != keys@[b] by {
                        if a == p {
                            assert(old_keys.contains(keys@[b]));
                        } else if b == p {
                            assert(old_keys.contains(keys@[a]));
                        } else {
                            let a0 = if a < p { a } else { a - 1 };
                            let b0 = if b < p { b } else { b - 1 };
                            assert(keys@[a] == old_keys[a0]);
                            assert(keys@[b] == old_keys[b0]);
                        }
                    }
                    assert forall|a: int, b: int| 0 <= a < b < keys@.len() implies keys@[a].start <= keys@[b].start by {
                        if a != p && b != p {
                            let a0 = if a < p { a } else { a - 1 };
                            let b0 = if b < p { b } else { b - 1 };
                            assert(keys@[a] == old_keys[a0]);
                            assert(keys@[b] == old_keys[b0]);
                        } else if a == p {
                            assert(keys@[b] == old_keys[b - 1]);
                        } else {
                            assert(keys@[a] == old_keys[a]);
                        }
                    }
                    assert forall|g: int| 0 <= g < keys@.len() implies key_has_hit(db, mask, #[trigger] keys@[g], n as int) by {
                        if g == p {
                            assert(mask[i as int] && db[i as int].number == keys@[g]);
                        } else {
                            let g0 = if g < p { g } else { g - 1 };
                            assert(keys@[g] == old_keys[g0]);
                        }
                    }
                }
            }
        }
        i = i + 1;
    }
    keys
}

impl PortDatabase {
    /// The records whose description contains the term, compared in lowercase,
    /// grouped by identical range, groups ordered by the start of their range.
    /// Within a group the use cases keep database order; when `show_links` is
    /// set, links are numbered from 1 across all groups in output order.
    pub fn search(&self, search: &str, show_links: bool, show_notes_and_references: bool) -> (r:
        SearchOutput<'_>)
        requires
            self.links_fit(),
        ensures
            r.search@ == search@,
            forall|a: int, b: int|
                0 <= a < b < r.matched@.len() ==> r.matched@[a].number.start
                    <= r.matched@[b].number.start,
            forall|a: int, b: int|
                0 <= a < b < r.matched@.len() ==> r.matched@[a].number != r.matched@[b].number,
            forall|i: int|
                0 <= i < self.0@.len() && search_hit(
                    self.0@[i],
                    search@,
                    show_links,
                    show_notes_and_references,
                ) ==> exists|g: int|
                    0 <= g < r.matched@.len() && (#[trigger] r.matched@[g]).number == self.0@[i].number,
            forall|g: int|
                0 <= g < r.matched@.len() ==> {
                    let n = records_with(
                        self.0@,
                        search_mask(self.0@, search@, show_links, show_notes_and_references),
                        (#[trigger] r.matched@[g]).number,
                        self.0@.len() as int,
                    ).len();
                    n > 0 && r.matched@[g].use_cases@.len() == n
                },
            threaded(
                flat_use_cases(r.matched@),
                grouped_records(
                    self.0@,
                    search_mask(self.0@, search@, show_links, show_notes_and_references),
                    r.matched@,
                ),
                first_link(show_links),
                show_notes_and_references,
            ),
    {
        let ghost db = self.0@;
        let n = self.0.len();
        let ghost mask = search_mask(db, search@, show_links, show_notes_and_references);
        let ghost start = first_link(show_links);
        // which records match
        let mut hits: Vec<bool> = Vec::new();
        let mut i: usize = 0;
        while i < n
            invariant
                db == self.0@,
                n == db.len(),
                i <= n,
                hits@.len() == i,
                forall|j: int| 0 <= j < i ==> hits@[j] == mask[j],
                mask == search_mask(db, search@, show_links, show_notes_and_references),
            decreases n - i,
        {
            let h = self.0[i].matches_search(search, show_links, show_notes_and_references);
            hits.push(h);
            i = i + 1;
        }
        assert(hits@ =~= mask);
        // the distinct ranges of the matching records, ordered by start
        let keys = range_keys(&self.0, &hits);
        // one group per range, with the counter threaded through in output order
        let mut matched: Vec<MatchedPort<'_>> = Vec::new();
        let mut next: Option<usize> = if show_links {
            Some(1)
        } else {
            None
        };
        let ghost mut used: Seq<bool> = Seq::new(n as nat, |j: int| false);
        proof {
            lemma_budget_none_used(db, used);
            assert(flat_use_cases(matched@) =~= Seq::<PortUseCase>::empty());
            assert(grouped_records(db, mask, matched@) =~= Seq::<PortRangeInfo>::empty());
            assert(used =~= Seq::new(n as nat, |j: int| mask[j] && keys@.subrange(0, 0).contains(db[j].number)));
        }
        let mut g: usize = 0;
        while g < keys.len()
            invariant
                db == self.0@,
                n == db.len(),
                hits@.len() == n,
                mask == search_mask(db, search@, show_links, show_notes_and_references),
                forall|j: int| 0 <= j < n ==> hits@[j] == mask[j],
                link_total(db) < usize::MAX,
                start == first_link(show_links),
                forall|a: int, b: int| 0 <= a < b < keys@.len() ==> keys@[a] != keys@[b],
                forall|a: int, b: int| 0 <= a < b < keys@.len() ==> keys@[a].start <= keys@[b].start,
                forall|j: int| 0 <= j < n && mask[j] ==> keys@.contains(#[trigger] db[j].number),
                forall|g: int| 0 <= g < keys@.len() ==> key_has_hit(db, mask, #[trigger] keys@[g], n as int),
                g <= keys@.len(),
                matched@.len() == g,
                forall|h: int| 0 <= h < g ==> (#[trigger] matched@[h]).number == keys@[h],
                forall|h: int| 0 <= h < g ==> (#[trigger] matched@[h]).use_cases@.len() == records_with(db, mask, keys@[h], n as int).len(),
                threaded(flat_use_cases(matched@), grouped_records(db, mask, matched@), start, show_notes_and_references),
                opt_int(next) == advance(start, links_total(flat_use_cases(matched@))),
                used.len() == n,
                show_links ==> links_total(flat_use_cases(matched@)) + budget(db, used) == link_total(db),
                used == Seq::new(n as nat, |j: int| mask[j] && keys@.subrange(0, g as int).contains(db[j].number)),
            decreases keys@.len() - g,
        {
            let key = keys[g];
            let ghost flat = flat_use_cases(matched@);
            let ghost before = grouped_records(db, mask, matched@);
            let ghost gstart = advance(start, links_total(flat));
            let mut use_cases: Vec<PortUseCase<'_>> = Vec::new();
            proof {
                assert(records_with(db, mask, key, 0) =~= Seq::<PortRangeInfo>::empty());
                assert(used =~= Seq::new(n as nat, |j: int| mask[j] && (keys@.subrange(0, g as int).contains(db[j].number) || (db[j].number == key && j < 0))));
            }
            let mut i: usize = 0;
            while i < n
                invariant
                    db == self.0@,
                    n == db.len(),
                    hits@.len() == n,
                    mask == search_mask(db, search@, show_links, show_notes_and_references),
                    flat == flat_use_cases(matched@),
                    forall|j: int| 0 <= j < n ==> hits@[j] == mask[j],
                    link_total(db) < usize::MAX,
                    key == keys@[g as int],
                    g < keys@.len(),
                    forall|a: int, b: int| 0 <= a < b < keys@.len() ==> keys@[a] != keys@[b],
                    i <= n,
                    gstart == advance(start, links_total(flat)),
                    start == first_link(show_links),
                    threaded(use_cases@, records_with(db, mask, key, i as int), gstart, show_notes_and_references),
                    opt_int(next) == advance(start, links_total(flat) + links_total(use_cases@)),
                    used.len() == n,
                    show_links ==> links_total(flat) + links_total(use_cases@) + budget(db, used) == link_total(db),
                    used == Seq::new(n as nat, |j: int| mask[j] && (keys@.subrange(0, g as int).contains(db[j].number) || (db[j].number == key && j < i))),
                decreases n - i,
            {
                let info = &self.0[i];
                if hits[i] && info.number == key {
                    proof {
                        if keys@.subrange(0, g as int).contains(key) {
                            let h = choose|h: int| 0 <= h < g && keys@.subrange(0, g as int)[h] == key;
                            assert(keys@[h] == keys@[g as int]);
                        }
                        assert(!used[i as int]);
                        lemma_budget_update(db, used, i as int);
                        if show_links {
                            assert(budget(db, used) >= record_links(db[i as int]));
                            assert(*info == db[i as int]);
                            assert(record_links(*info) == link_spans(spans_view(info.rich_description@)));
                            assert(opt_int(next) == Some(1int + links_total(flat) + links_total(use_cases@)));
                        } else {
                            assert(next is None);
                        }
                    }
                    let uc = PortUseCase::from_with_options(info, next, show_notes_and_references);
                    proof {
                        lemma_use_case_links(uc, *info, opt_int(next), show_notes_and_references);
                        lemma_threaded_one(uc, *info, opt_int(next), show_notes_and_references);
                        lemma_threaded_append(
                            use_cases@,
                            records_with(db, mask, key, i as int),
                            seq![uc],
                            seq![*info],
                            gstart,
                            show_notes_and_references,
                        );
                        lemma_links_total_push(use_cases@, uc);
                        assert(use_cases@ + seq![uc] =~= use_cases@.push(uc));
                        used = used.update(i as int, true);
                    }
                    next = match next {
                        Some(k) => Some(k + uc.link_count()),
                        None => None,
                    };
                    use_cases.push(uc);
                }
                proof {
                    assert(used =~= Seq::new(n as nat, |j: int| mask[j] && (keys@.subrange(0, g as int).contains(db[j].number) || (db[j].number == key && j < i + 1))));
                }
                i = i + 1;
            }
            assert(i == n);
            proof {
                assert(used =~= Seq::new(n as nat, |j: int| mask[j] && (keys@.subrange(0, g as int).contains(db[j].number) || db[j].number == key)));
            }
            let ghost ucs = use_cases@;
            let ghost recs = records_with(db, mask, key, n as int);
            let mp = MatchedPort { number: key, use_cases };
            let ghost old_matched = matched@;
            matched.push(mp);
            proof {
                assert(matched@.drop_last() =~= old_matched);
                assert(flat_use_cases(matched@) == flat + ucs);
                assert(grouped_records(db, mask, matched@) == before + recs);
                lemma_threaded_append(flat, before, ucs, recs, start, show_notes_and_references);
                crate::display::lemma_links_total_append(flat, ucs);
                assert forall|x: PortRange| keys@.subrange(0, g + 1).contains(x) <==> (keys@.subrange(0, g as int).contains(x) || x == key) by {
                    assert(keys@.subrange(0, g + 1) =~= keys@.subrange(0, g as int).push(key));
                    if keys@.subrange(0, g as int).contains(x) {
                        let h = choose|h: int| 0 <= h < g && keys@.subrange(0, g as int)[h] == x;
                        assert(keys@.subrange(0, g + 1)[h] == x);
                    }
                    if x == key {
                        assert(keys@.subrange(0, g + 1)[g as int] == x);
                    }
                }
                let ghost next_used = Seq::new(n as nat, |j: int| mask[j] && keys@.subrange(0, g + 1).contains(db[j].number));
                assert forall|j: int| 0 <= j < n implies used[j] == next_used[j] by {
                    let x = db[j].number;
                    assert(keys@.subrange(0, g + 1).contains(x) <==> (keys@.subrange(0, g as int).contains(x) || x == key));
                }
                assert(used =~= next_used);
            }
            g = g + 1;
        }
        proof {
            assert forall|g: int| 0 <= g < matched@.len() implies {
                let c = records_with(db, mask, (#[trigger] matched@[g]).number, n as int).len();
                c > 0 && matched@[g].use_cases@.len() == c
            } by {
                let j = choose|j: int| 0 <= j < n && mask[j] && db[j].number == keys@[g];
                lemma_records_with_nonempty(db, mask, keys@[g], n as int, j);
            }
        }
        let ghost groups = matched@;
        let r = SearchOutput { search: String::from_str(search), matched };
        assert(r.matched@ == groups);
        assert forall|i: int|
            0 <= i < self.0@.len() && search_hit(
                self.0@[i],
                search@,
                show_links,
                show_notes_and_references,
            ) implies exists|g: int|
                0 <= g < r.matched@.len() && (#[trigger] r.matched@[g]).number == self.0@[i].number by {
            assert(db[i] == self.0@[i]);
            assert(mask[i]);
            assert(keys@.contains(db[i].number));
            let g = choose|g: int| 0 <= g < keys@.len() && keys@[g] == db[i].number;
            assert(r.matched@[g] == groups[g]);
        }
        r
    }
}

impl PortDatabase {
    /// Whether numbering every link of every record fits in `usize`, which
    /// `lookup` and `search` need.
    pub fn link_numbering_fits(&self) -> (r: bool)
        ensures
            r == self.links_fit(),
    {
        let ghost db = self.0@;
        let mut total: usize = 0;
        let mut i: usize = 0;
        while i < self.0.len()
            invariant
                db == self.0@,
                i <= db.len(),
                total as nat == link_total(db.subrange(0, i as int)),
                total < usize::MAX,
            decreases db.len() - i,
        {
            assert(db.subrange(0, i + 1).drop_last() =~= db.subrange(0, i as int));
            let spans = &self.0[i].rich_description;
            let ghost sv = spans_view(spans@);
            let mut j: usize = 0;
            while j < spans.len()
                invariant
                    db == self.0@,
                    i < db.len(),
                    sv == spans_view(spans@),
                    sv == spans_view(db[i as int].rich_description@),
                    j <= spans@.len(),
                    total as nat == link_total(db.subrange(0, i as int)) + link_spans(sv.subrange(0, j as int)),
                    total < usize::MAX,
                decreases spans@.len() - j,
            {
                assert(sv.subrange(0, j + 1).drop_last() =~= sv.subrange(0, j as int));
                let link = match &spans[j] {
                    RichTextSpan::SiteLink { .. } => true,
                    RichTextSpan::SiteLinkNonExistent { .. } => true,
                    RichTextSpan::ExternalLink { .. } => true,
                    _ => false,
                };
                if link {
                    if total >= usize::MAX - 1 {
                        proof {
                            crate::display::lemma_link_spans_prefix(sv, j + 1);
                            lemma_link_total_prefix(db, i + 1);
                            assert(db.subrange(0, i + 1).drop_last() =~= db.subrange(0, i as int));
                            assert(db.subrange(0, i + 1).last() == db[i as int]);
                            assert(link_total(db.subrange(0, i + 1)) == link_total(db.subrange(0, i as int)) + link_spans(sv));
                        }
                        return false;
                    }
                    total = total + 1;
                }
                j = j + 1;
            }
            assert(sv.subrange(0, spans@.len() as int) =~= sv);
            assert(db.subrange(0, i + 1).drop_last() =~= db.subrange(0, i as int));
            assert(db.subrange(0, i + 1).last() == db[i as int]);
            proof {
                lemma_link_total_prefix(db, i + 1);
            }
            i = i + 1;
        }
        assert(db.subrange(0, db.len() as int) =~= db);
        true
    }
}

} // verus!
