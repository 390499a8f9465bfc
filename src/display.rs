use vstd::prelude::*;

use crate::query::{PortSelection, SupportedProtocol};
use crate::rich_text::{RichTextSpan, SpanView, spans_view};
use crate::store::{PortRange, PortRangeInfo, PortType};
use crate::text::{decimal_string, decimal_text};

verus! {

/// The origin that site-relative link destinations are resolved against.
pub const ORIGIN_BASE_URL: &'static str = "https://en.wikipedia.org";

/// The page that note and reference identifiers point into.
pub const PAGE_URL: &'static str = "https://en.wikipedia.org/wiki/List_of_TCP_and_UDP_port_numbers";

/// What projecting a sequence of spans has built so far.
pub struct Projection {
    pub desc: Seq<char>,
    pub links: Seq<(Seq<char>, Seq<char>)>,
    pub notes: Seq<(Seq<char>, Seq<char>)>,
    pub next: Option<int>,
}

/// The tag of the link numbered `i`: `[i]`.
pub open spec fn link_tag(i: int) -> Seq<char> {
    "["@ + decimal_text(i as nat) + "]"@
}

pub open spec fn note_tag(n: usize) -> Seq<char> {
    "[note "@ + decimal_text(n as nat) + "]"@
}

pub open spec fn ref_tag(n: usize) -> Seq<char> {
    "[ref "@ + decimal_text(n as nat) + "]"@
}

pub open spec fn site_url(link: Seq<char>) -> Seq<char> {
    ORIGIN_BASE_URL@ + link
}

pub open spec fn anchor_url(id: Seq<char>) -> Seq<char> {
    PAGE_URL@ + "#"@ + id
}

/// A link's visible text, followed by its tag when links are numbered.
pub open spec fn with_link(st: Projection, text: Seq<char>, url: Seq<char>) -> Projection {
    match st.next {
        Some(i) => Projection {
            desc: st.desc + text + link_tag(i),
            links: st.links.push((link_tag(i), url)),
            notes: st.notes,
            next: Some(i + 1),
        },
        None => Projection { desc: st.desc + text, ..st },
    }
}

/// A footnote or annotation tag, shown only when notes are on.
pub open spec fn with_note(st: Projection, tag: Seq<char>, url: Seq<char>, on: bool) -> Projection {
    if on {
        Projection { desc: st.desc + tag, notes: st.notes.push((tag, url)), ..st }
    } else {
        st
    }
}

pub open spec fn with_text(st: Projection, text: Seq<char>) -> Projection {
    Projection { desc: st.desc + text, ..st }
}

/// One span added to a projection.
pub open spec fn project_span(st: Projection, sp: SpanView, notes_on: bool) -> Projection {
    match sp {
        SpanView::Text { text } => with_text(st, text),
        SpanView::SiteLink { text, link } => with_link(st, text, site_url(link)),
        SpanView::SiteLinkNonExistent { text, link } => with_link(st, text, site_url(link)),
        SpanView::ExternalLink { text, link } => with_link(st, text, link),
        SpanView::Note { number, note_id } => with_note(
            st,
            note_tag(number),
            anchor_url(note_id),
            notes_on,
        ),
        SpanView::Reference { number, ref_id } => with_note(
            st,
            ref_tag(number),
            anchor_url(ref_id),
            notes_on,
        ),
        SpanView::Annotation { text, link } => with_note(st, text, site_url(link), notes_on),
        SpanView::Subscript { text } => with_text(st, "_{"@ + text + "}"@),
        SpanView::Unknown { text, .. } => with_text(st, text),
    }
}

/// The projection of a span sequence; links are numbered from `start` when it is
/// given.
pub open spec fn project(spans: Seq<SpanView>, start: Option<int>, notes_on: bool) -> Projection
    decreases spans.len(),
{
    if spans.len() == 0 {
        Projection { desc: Seq::empty(), links: Seq::empty(), notes: Seq::empty(), next: start }
    } else {
        project_span(project(spans.drop_last(), start, notes_on), spans.last(), notes_on)
    }
}

pub open spec fn is_link(sp: SpanView) -> bool {
    match sp {
        SpanView::SiteLink { .. } => true,
        SpanView::SiteLinkNonExistent { .. } => true,
        SpanView::ExternalLink { .. } => true,
        _ => false,
    }
}

/// The number of link spans.
pub open spec fn link_spans(spans: Seq<SpanView>) -> nat
    decreases spans.len(),
{
    if spans.len() == 0 {
        0
    } else {
        link_spans(spans.drop_last()) + if is_link(spans.last()) {
            1nat
        } else {
            0nat
        }
    }
}

pub open spec fn pairs_view(v: Seq<(String, String)>) -> Seq<(Seq<char>, Seq<char>)> {
    v.map_values(|p: (String, String)| (p.0@, p.1@))
}

pub open spec fn opt_int(o: Option<usize>) -> Option<int> {
    match o {
        Some(i) => Some(i as int),
        None => None,
    }
}

/// A prefix of a span sequence holds no more link spans than the whole.
pub(crate) proof fn lemma_link_spans_prefix(s: Seq<SpanView>, k: int)
    requires
        0 <= k <= s.len(),
    ensures
        link_spans(s.subrange(0, k)) <= link_spans(s),
    decreases s.len() - k,
{
    if k < s.len() {
        assert(s.subrange(0, k + 1).drop_last() =~= s.subrange(0, k));
        lemma_link_spans_prefix(s, k + 1);
    } else {
        assert(s.subrange(0, k) =~= s);
    }
}

/// Numbered links: the projection numbers one tag per link span, consecutively.
pub proof fn lemma_project_links(spans: Seq<SpanView>, start: int, notes_on: bool)
    ensures
        project(spans, Some(start), notes_on).next == Some(start + link_spans(spans)),
        project(spans, Some(start), notes_on).links.len() == link_spans(spans),
        forall|j: int|
            0 <= j < link_spans(spans) ==> (#[trigger] project(spans, Some(start), notes_on).links[j]).0
                == link_tag(start + j),
    decreases spans.len(),
{
    if spans.len() > 0 {
        lemma_project_links(spans.drop_last(), start, notes_on);
    }
}

/// Unnumbered links: no link list, and no counter.
pub proof fn lemma_project_no_links(spans: Seq<SpanView>, notes_on: bool)
    ensures
        project(spans, None, notes_on).next is None,
        project(spans, None, notes_on).links.len() == 0,
    decreases spans.len(),
{
    if spans.len() > 0 {
        lemma_project_no_links(spans.drop_last(), notes_on);
    }
}

/// One use case of a port, ready for display: filtered by the display options,
/// with links numbered when they are shown.
#[derive(Clone, Debug)]
pub struct PortUseCase<'a> {
    pub tcp: PortType,
    pub udp: PortType,
    pub sctp: PortType,
    pub dccp: PortType,
    /// The description text, with link tags and shown notes in place.
    pub description: String,
    /// Shown links: `(tag, url)`.
    pub links: Vec<(String, String)>,
    /// Shown notes, references and annotations: `(tag, url)`.
    pub notes_and_refs: Vec<(String, String)>,
    /// The full parsed description.
    pub rich_description: &'a Vec<RichTextSpan>,
}

/// The use case is the projection of the record with links numbered from `start`.
pub open spec fn use_case_of(uc: PortUseCase, from: PortRangeInfo, start: Option<int>, notes_on: bool) -> bool {
    let pr = project(spans_view(from.rich_description@), start, notes_on);
    &&& uc.tcp == from.tcp_type
    &&& uc.udp == from.udp_type
    &&& uc.sctp == from.sctp_type
    &&& uc.dccp == from.dccp_type
    &&& uc.description@ == pr.desc
    &&& pairs_view(uc.links@) == pr.links
    &&& pairs_view(uc.notes_and_refs@) == pr.notes
    &&& uc.rich_description@ == from.rich_description@
}

/// The protocols a use case lists, in the order TCP, UDP, SCTP, DCCP, leaving out
/// those that are unused.
pub open spec fn protocol_entries(tcp: PortType, udp: PortType, sctp: PortType, dccp: PortType) -> Seq<(SupportedProtocol, PortType)> {
    let one = |p: SupportedProtocol, t: PortType| if t == PortType::Unused {
        Seq::<(SupportedProtocol, PortType)>::empty()
    } else {
        seq![(p, t)]
    };
    one(SupportedProtocol::Tcp, tcp) + one(SupportedProtocol::Udp, udp) + one(
        SupportedProtocol::Sctp,
        sctp,
    ) + one(SupportedProtocol::Dccp, dccp)
}

fn push_pair(v: &mut Vec<(String, String)>, a: String, b: String)
    ensures
        pairs_view(final(v)@) == pairs_view(old(v)@).push((a@, b@)),
{
    v.push((a, b));
    assert(pairs_view(v@) =~= pairs_view(old(v)@).push((a@, b@)));
}

fn bracketed(open: &str, n: usize) -> (r: String)
    ensures
        r@ == open@ + decimal_text(n as nat) + "]"@,
{
    let mut r = String::from_str(open);
    r.append(decimal_string(n).as_str());
    r.append("]");
    r
}

fn joined(a: &str, b: &str) -> (r: String)
    ensures
        r@ == a@ + b@,
{
    let mut r = String::from_str(a);
    r.append(b);
    r
}

impl<'a> PortUseCase<'a> {
    /// Builds the use case of a record. With `show_links` set to a starting index,
    /// each link gets the next tag and a line in the link list; with
    /// `show_notes_and_references`, notes, references and annotations are shown.
    pub fn from_with_options(
        from: &'a PortRangeInfo,
        show_links: Option<usize>,
        show_notes_and_references: bool,
    ) -> (r: PortUseCase<'a>)
        requires
            match show_links {
                Some(i) => i + link_spans(spans_view(from.rich_description@)) <= usize::MAX,
                None => true,
            },
        ensures
            use_case_of(r, *from, opt_int(show_links), show_notes_and_references),
    {
        let spans = &from.rich_description;
        let ghost sv = spans_view(spans@);
        let ghost start = opt_int(show_links);
        let mut description = String::new();
        let mut links: Vec<(String, String)> = Vec::new();
        let mut notes_and_refs: Vec<(String, String)> = Vec::new();
        let mut idx = show_links;
        assert(pairs_view(links@) =~= Seq::<(Seq<char>, Seq<char>)>::empty());
        assert(pairs_view(notes_and_refs@) =~= Seq::<(Seq<char>, Seq<char>)>::empty());
        let mut i: usize = 0;
        while i < spans.len()
            invariant
                sv == spans_view(spans@),
                start == opt_int(show_links),
                match show_links {
                    Some(s) => s + link_spans(sv) <= usize::MAX && idx == Some(
                        (s + link_spans(sv.subrange(0, i as int))) as usize,
                    ),
                    None => idx is None,
                },
                i <= spans@.len(),
                description@ == project(sv.subrange(0, i as int), start, show_notes_and_references).desc,
                pairs_view(links@) == project(sv.subrange(0, i as int), start, show_notes_and_references).links,
                pairs_view(notes_and_refs@) == project(sv.subrange(0, i as int), start, show_notes_and_references).notes,
                opt_int(idx) == project(sv.subrange(0, i as int), start, show_notes_and_references).next,
            decreases spans@.len() - i,
        {
            let ghost pre = sv.subrange(0, i as int);
            assert(sv.subrange(0, i + 1).drop_last() =~= pre);
            assert(sv.subrange(0, i + 1).last() == spans@[i as int]@);
            proof {
                lemma_link_spans_prefix(sv, i + 1);
            }
            match &spans[i] {
                RichTextSpan::Text { text } => {
                    description.append(text.as_str());
                },
                RichTextSpan::SiteLink { text, link } | RichTextSpan::SiteLinkNonExistent {
                    text,
                    link,
                } => {
                    let url = joined(ORIGIN_BASE_URL, link.as_str());
                    description.append(text.as_str());
                    if let Some(n) = idx {
                        let tag = bracketed("[", n);
                        description.append(tag.as_str());
                        push_pair(&mut links, tag, url);
                        idx = Some(n + 1);
                    }
                },
                RichTextSpan::ExternalLink { text, link } => {
                    let url = link.clone();
                    description.append(text.as_str());
                    if let Some(n) = idx {
                        let tag = bracketed("[", n);
                        description.append(tag.as_str());
                        push_pair(&mut links, tag, url);
                        idx = Some(n + 1);
                    }
                },
                RichTextSpan::Note { number, note_id } => {
                    if show_notes_and_references {
                        let mut url = joined(PAGE_URL, "#");
                        url.append(note_id.as_str());
                        let tag = bracketed("[note ", *number);
                        description.append(tag.as_str());
                        push_pair(&mut notes_and_refs, tag, url);
                    }
                },
                RichTextSpan::Reference { number, ref_id } => {
                    if show_notes_and_references {
                        let mut url = joined(PAGE_URL, "#");
                        url.append(ref_id.as_str());
                        let tag = bracketed("[ref ", *number);
                        description.append(tag.as_str());
                        push_pair(&mut notes_and_refs, tag, url);
                    }
                },
                RichTextSpan::Annotation { text, link } => {
                    if show_notes_and_references {
                        let url = joined(ORIGIN_BASE_URL, link.as_str());
                        description.append(text.as_str());
                        push_pair(&mut notes_and_refs, text.clone(), url);
                    }
                },
                RichTextSpan::Subscript { text } => {
                    description.append("_{");
                    description.append(text.as_str());
                    description.append("}");
                },
                RichTextSpan::Unknown { text, .. } => {
                    description.append(text.as_str());
                },
            }
            i = i + 1;
        }
        assert(sv.subrange(0, spans@.len() as int) =~= sv);
        PortUseCase {
            tcp: from.tcp_type,
            udp: from.udp_type,
            sctp: from.sctp_type,
            dccp: from.dccp_type,
            description,
            links,
            notes_and_refs,
            rich_description: spans,
        }
    }

    /// The number of links this use case lists.
    pub fn link_count(&self) -> (r: usize)
        ensures
            r == self.links@.len(),
    {
        self.links.len()
    }

    /// The protocols this use case lists, in the order TCP, UDP, SCTP, DCCP, leaving
    /// out those that are unused.
    pub fn protocols(&self) -> (r: Vec<(SupportedProtocol, PortType)>)
        ensures
            r@ == protocol_entries(self.tcp, self.udp, self.sctp, self.dccp),
    {
        let mut r: Vec<(SupportedProtocol, PortType)> = Vec::new();
        if !self.tcp.is_unused() {
            r.push((SupportedProtocol::Tcp, self.tcp));
        }
        if !self.udp.is_unused() {
            r.push((SupportedProtocol::Udp, self.udp));
        }
        if !self.sctp.is_unused() {
            r.push((SupportedProtocol::Sctp, self.sctp));
        }
        if !self.dccp.is_unused() {
            r.push((SupportedProtocol::Dccp, self.dccp));
        }
        assert(r@ =~= protocol_entries(self.tcp, self.udp, self.sctp, self.dccp));
        r
    }
}

/// A counter moved on by `n` links; no counter stays none.
pub open spec fn advance(start: Option<int>, n: nat) -> Option<int> {
    match start {
        Some(s) => Some(s + n),
        None => None,
    }
}

/// The number of links that a sequence of use cases lists.
pub open spec fn links_total(ucs: Seq<PortUseCase>) -> nat
    decreases ucs.len(),
{
    if ucs.len() == 0 {
        0
    } else {
        links_total(ucs.drop_last()) + ucs.last().links@.len()
    }
}

/// All the links of a sequence of use cases, in order.
pub open spec fn flat_links(ucs: Seq<PortUseCase>) -> Seq<(Seq<char>, Seq<char>)>
    decreases ucs.len(),
{
    if ucs.len() == 0 {
        Seq::empty()
    } else {
        flat_links(ucs.drop_last()) + pairs_view(ucs.last().links@)
    }
}

/// Each use case is the projection of the record at its place, with the link
/// counter threaded through them in order from `start`.
pub open spec fn threaded(ucs: Seq<PortUseCase>, recs: Seq<PortRangeInfo>, start: Option<int>, notes_on: bool) -> bool {
    &&& ucs.len() == recs.len()
    &&& forall|j: int|
        0 <= j < ucs.len() ==> use_case_of(
            #[trigger] ucs[j],
            recs[j],
            advance(start, links_total(ucs.subrange(0, j))),
            notes_on,
        )
}

pub proof fn lemma_links_total_append(a: Seq<PortUseCase>, b: Seq<PortUseCase>)
    ensures
        links_total(a + b) == links_total(a) + links_total(b),
    decreases b.len(),
{
    if b.len() == 0 {
        assert(a + b =~= a);
    } else {
        assert((a + b).drop_last() =~= a + b.drop_last());
        lemma_links_total_append(a, b.drop_last());
    }
}

pub proof fn lemma_threaded_append(
    a: Seq<PortUseCase>,
    ra: Seq<PortRangeInfo>,
    b: Seq<PortUseCase>,
    rb: Seq<PortRangeInfo>,
    start: Option<int>,
    notes_on: bool,
)
    requires
        threaded(a, ra, start, notes_on),
        threaded(b, rb, advance(start, links_total(a)), notes_on),
    ensures
        threaded(a + b, ra + rb, start, notes_on),
{
    assert forall|j: int| 0 <= j < (a + b).len() implies use_case_of(
        #[trigger] (a + b)[j],
        (ra + rb)[j],
        advance(start, links_total((a + b).subrange(0, j))),
        notes_on,
    ) by {
        if j < a.len() {
            assert((a + b).subrange(0, j) =~= a.subrange(0, j));
        } else {
            let k = j - a.len();
            assert((a + b).subrange(0, j) =~= a + b.subrange(0, k));
            lemma_links_total_append(a, b.subrange(0, k));
            assert(b[k] == (a + b)[j]);
        }
    }
}

pub proof fn lemma_threaded_one(u: PortUseCase, r: PortRangeInfo, start: Option<int>, notes_on: bool)
    requires
        use_case_of(u, r, start, notes_on),
    ensures
        threaded(seq![u], seq![r], start, notes_on),
{
    assert(seq![u].subrange(0, 0) =~= Seq::<PortUseCase>::empty());
}

/// Numbered links are tagged `[start]`, `[start + 1]`, ... across all the use
/// cases of an output, in order: unique, and rising by one.
pub proof fn lemma_link_tags_consecutive(
    ucs: Seq<PortUseCase>,
    recs: Seq<PortRangeInfo>,
    start: int,
    notes_on: bool,
)
    requires
        threaded(ucs, recs, Some(start), notes_on),
    ensures
        flat_links(ucs).len() == links_total(ucs),
        forall|m: int| 0 <= m < flat_links(ucs).len() ==> (#[trigger] flat_links(ucs)[m]).0 == link_tag(start + m),
    decreases ucs.len(),
{
    if ucs.len() > 0 {
        let pre = ucs.drop_last();
        let n = ucs.len() - 1;
        assert forall|j: int| 0 <= j < pre.len() implies use_case_of(
            #[trigger] pre[j],
            recs.drop_last()[j],
            advance(Some(start), links_total(pre.subrange(0, j))),
            notes_on,
        ) by {
            assert(pre.subrange(0, j) =~= ucs.subrange(0, j));
            assert(pre[j] == ucs[j]);
        }
        lemma_link_tags_consecutive(pre, recs.drop_last(), start, notes_on);
        assert(ucs.subrange(0, n) =~= pre);
        assert(use_case_of(ucs[n], recs[n], Some(start + links_total(pre)), notes_on));
        lemma_project_links(spans_view(recs[n].rich_description@), start + links_total(pre), notes_on);
    }
}

/// The use cases of one port or port range.
#[derive(Clone, Debug)]
pub struct MatchedPort<'a> {
    pub number: PortRange,
    pub use_cases: Vec<PortUseCase<'a>>,
}

/// The answer to a port lookup.
#[derive(Clone, Debug)]
pub struct PortLookupOutput<'a> {
    pub lookup: PortSelection,
    pub matched: Option<MatchedPort<'a>>,
}

/// The answer to a search.
#[derive(Clone, Debug)]
pub struct SearchOutput<'a> {
    pub search: String,
    pub matched: Vec<MatchedPort<'a>>,
}

/// Either kind of answer.
#[derive(Clone, Debug)]
pub enum Output<'a> {
    PortLookup(PortLookupOutput<'a>),
    Search(SearchOutput<'a>),
}

/// All the use cases of a sequence of groups, in order.
pub open spec fn flat_use_cases(groups: Seq<MatchedPort>) -> Seq<PortUseCase>
    decreases groups.len(),
{
    if groups.len() == 0 {
        Seq::empty()
    } else {
        flat_use_cases(groups.drop_last()) + groups.last().use_cases@
    }
}

} // verus!
