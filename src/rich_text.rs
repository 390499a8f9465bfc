use vstd::prelude::*;

use crate::markup::{MarkupNode, attr_of, first_anchor, has_class, is_element_named, node_text};
use crate::parse::ParseError;
use crate::text::{
    contains_seq, contains_text, lower_of, lowercase, parse_usize, parsed_usize, remove_newlines,
    strip_newlines, text_eq, is_ascii_digit,
};

verus! {

/// Why one node of a description cell could not be turned into spans.
#[derive(Copy, Clone, Debug, PartialEq, Eq, Structural)]
pub enum SpanError {
    /// A document, fragment, doctype or processing instruction inside a cell.
    UnexpectedNode,
    /// A link that is not an `a` element.
    NotALink,
    /// An `a` element without an `href` attribute.
    MissingHref,
    /// An inline-template superscript without a nested link.
    AnnotationWithoutLink,
    /// A reference superscript without a nested link.
    ReferenceWithoutLink,
    /// A note superscript without a nested link.
    NoteWithoutLink,
    /// A footnote number that does not fit in `usize`.
    NumberTooLarge,
    /// A superscript of no known shape.
    UnknownSuperscript,
    /// An element of no known kind.
    UnknownTag,
}

impl SpanError {
    /// A short human-readable account of the error.
    pub fn message(&self) -> &'static str {
        match self {
            SpanError::UnexpectedNode => "Encountered an unexpected node",
            SpanError::NotALink => "A link should be an `a` element",
            SpanError::MissingHref => "Element has no `href` attribute",
            SpanError::AnnotationWithoutLink => "Encountered an annotation without a link",
            SpanError::ReferenceWithoutLink => "Encountered a reference without a link",
            SpanError::NoteWithoutLink => "Encountered a note without a link",
            SpanError::NumberTooLarge => "Footnote number is too large",
            SpanError::UnknownSuperscript => "Encountered an unknown superscript item",
            SpanError::UnknownTag => "Encountered an unknown tag",
        }
    }
}

/// All known kinds of content in a rich text cell, in display order.
#[derive(Clone, Debug)]
pub enum RichTextSpan {
    /// Plain text segment.
    Text { text: String },
    /// A link to somewhere within the same origin.
    SiteLink { text: String, link: String },
    /// A link to somewhere within the same origin that does not yet exist.
    SiteLinkNonExistent { text: String, link: String },
    /// A link to somewhere external.
    ExternalLink { text: String, link: String },
    /// A link to a note in superscript, e.g. `[note 1]`; always an ID on the same page.
    Note { number: usize, note_id: String },
    /// A link to a reference in superscript, e.g. `[69]`; always an ID on the same page.
    Reference { number: usize, ref_id: String },
    /// A link to an annotation in superscript, e.g. `[jargon]`; always a site link.
    Annotation { text: String, link: String },
    /// Subscripted text.
    Subscript { text: String },
    /// A span of unknown shape, with the error that stopped its parse.
    Unknown { text: String, err: SpanError },
}

/// The mathematical value of a [`RichTextSpan`].
pub enum SpanView {
    Text { text: Seq<char> },
    SiteLink { text: Seq<char>, link: Seq<char> },
    SiteLinkNonExistent { text: Seq<char>, link: Seq<char> },
    ExternalLink { text: Seq<char>, link: Seq<char> },
    Note { number: usize, note_id: Seq<char> },
    Reference { number: usize, ref_id: Seq<char> },
    Annotation { text: Seq<char>, link: Seq<char> },
    Subscript { text: Seq<char> },
    Unknown { text: Seq<char>, err: SpanError },
}

impl View for RichTextSpan {
    type V = SpanView;

    open spec fn view(&self) -> SpanView {
        match self {
            RichTextSpan::Text { text } => SpanView::Text { text: text@ },
            RichTextSpan::SiteLink { text, link } => SpanView::SiteLink { text: text@, link: link@ },
            RichTextSpan::SiteLinkNonExistent { text, link } => SpanView::SiteLinkNonExistent {
                text: text@,
                link: link@,
            },
            RichTextSpan::ExternalLink { text, link } => SpanView::ExternalLink {
                text: text@,
                link: link@,
            },
            RichTextSpan::Note { number, note_id } => SpanView::Note {
                number: *number,
                note_id: note_id@,
            },
            RichTextSpan::Reference { number, ref_id } => SpanView::Reference {
                number: *number,
                ref_id: ref_id@,
            },
            RichTextSpan::Annotation { text, link } => SpanView::Annotation {
                text: text@,
                link: link@,
            },
            RichTextSpan::Subscript { text } => SpanView::Subscript { text: text@ },
            RichTextSpan::Unknown { text, err } => SpanView::Unknown { text: text@, err: *err },
        }
    }
}

/// The values of a sequence of spans.
pub open spec fn spans_view(s: Seq<RichTextSpan>) -> Seq<SpanView> {
    s.map_values(|sp: RichTextSpan| sp@)
}

pub open spec fn result_view(r: Result<Vec<RichTextSpan>, SpanError>) -> Result<
    Seq<SpanView>,
    SpanError,
> {
    match r {
        Ok(v) => Ok(spans_view(v@)),
        Err(e) => Err(e),
    }
}

/// End of the run of ASCII digits that starts at `k`.
pub open spec fn digit_run_end(t: Seq<char>, k: int) -> int
    decreases t.len() - k,
{
    if 0 <= k < t.len() && is_ascii_digit(t[k]) {
        digit_run_end(t, k + 1)
    } else {
        k
    }
}

/// The digits of a bracketed marker `<open><digits>]` that starts at `i`.
pub open spec fn marker_at(t: Seq<char>, open: Seq<char>, i: int) -> Option<Seq<char>> {
    let s = i + open.len();
    if 0 <= i && s <= t.len() && t.subrange(i, s) == open {
        let e = digit_run_end(t, s);
        if e > s && e < t.len() && t[e] == ']' {
            Some(t.subrange(s, e))
        } else {
            None
        }
    } else {
        None
    }
}

/// The digits of the leftmost bracketed marker `<open><digits>]` at or after `i`.
pub open spec fn find_marker(t: Seq<char>, open: Seq<char>, i: int) -> Option<Seq<char>>
    decreases t.len() - i,
{
    if i < 0 || i >= t.len() {
        None
    } else {
        match marker_at(t, open, i) {
            Some(d) => Some(d),
            None => find_marker(t, open, i + 1),
        }
    }
}

/// A text without its leading `#` characters.
pub open spec fn strip_hashes(s: Seq<char>) -> Seq<char>
    decreases s.len(),
{
    if s.len() > 0 && s[0] == '#' {
        strip_hashes(s.drop_first())
    } else {
        s
    }
}

/// The destination of a link element.
pub open spec fn link_of(n: MarkupNode) -> Result<Seq<char>, SpanError> {
    if !is_element_named(n, "a"@) {
        Err(SpanError::NotALink)
    } else {
        match attr_of(n, "href"@) {
            Some(v) => Ok(v),
            None => Err(SpanError::MissingHref),
        }
    }
}

/// The span of an `a` element.
pub open spec fn parse_anchor(n: MarkupNode) -> Result<Seq<SpanView>, SpanError> {
    let text = node_text(n, false);
    match link_of(n) {
        Err(e) => Err(e),
        Ok(link) => Ok(
            seq![
                if has_class(n, "new"@) {
                    SpanView::SiteLinkNonExistent { text, link }
                } else if has_class(n, "external"@) {
                    SpanView::ExternalLink { text, link }
                } else {
                    SpanView::SiteLink { text, link }
                },
            ],
        ),
    }
}

/// The number and target of a footnote whose marker digits are `digits`.
pub open spec fn footnote(n: MarkupNode, digits: Seq<char>, missing: SpanError) -> Result<
    (usize, Seq<char>),
    SpanError,
> {
    match parsed_usize(digits) {
        None => Err(SpanError::NumberTooLarge),
        Some(number) => match first_anchor(n) {
            None => Err(missing),
            Some(a) => match link_of(a) {
                Err(e) => Err(e),
                Ok(link) => Ok((number, strip_hashes(link))),
            },
        },
    }
}

/// The spans of a `sup` element.
pub open spec fn parse_superscript(n: MarkupNode) -> Result<Seq<SpanView>, SpanError> {
    let text = node_text(n, false);
    if has_class(n, "update"@) {
        Ok(Seq::empty())
    } else if has_class(n, "Inline-Template"@) {
        match first_anchor(n) {
            None => Err(SpanError::AnnotationWithoutLink),
            Some(a) => match link_of(a) {
                Err(e) => Err(e),
                Ok(link) => Ok(seq![SpanView::Annotation { text, link }]),
            },
        }
    } else if has_class(n, "reference"@) && find_marker(text, "["@, 0) is Some {
        match footnote(n, find_marker(text, "["@, 0)->0, SpanError::ReferenceWithoutLink) {
            Err(e) => Err(e),
            Ok((number, ref_id)) => Ok(seq![SpanView::Reference { number, ref_id }]),
        }
    } else if has_class(n, "reference"@) && find_marker(text, "[note "@, 0) is Some {
        match footnote(n, find_marker(text, "[note "@, 0)->0, SpanError::NoteWithoutLink) {
            Err(e) => Err(e),
            Ok((number, note_id)) => Ok(seq![SpanView::Note { number, note_id }]),
        }
    } else {
        Err(SpanError::UnknownSuperscript)
    }
}

/// The spans of one node, or the first error met inside it.
pub open spec fn parse_node(n: MarkupNode) -> Result<Seq<SpanView>, SpanError>
    decreases n,
{
    match n {
        MarkupNode::Comment => Ok(Seq::empty()),
        MarkupNode::Text { text } => if strip_newlines(text@).len() == 0 {
            Ok(Seq::empty())
        } else {
            Ok(seq![SpanView::Text { text: strip_newlines(text@) }])
        },
        MarkupNode::Element { name, children, .. } => if name@ == "b"@ || name@ == "i"@ {
            parse_nodes(children@)
        } else if name@ == "a"@ {
            parse_anchor(n)
        } else if name@ == "sup"@ {
            parse_superscript(n)
        } else {
            Err(SpanError::UnknownTag)
        },
        _ => Err(SpanError::UnexpectedNode),
    }
}

/// The spans of a sequence of nodes, or the first error met among them.
pub open spec fn parse_nodes(s: Seq<MarkupNode>) -> Result<Seq<SpanView>, SpanError>
    decreases s,
{
    if s.len() == 0 {
        Ok(Seq::empty())
    } else {
        match parse_nodes(s.drop_last()) {
            Err(e) => Err(e),
            Ok(a) => match parse_node(s[s.len() - 1]) {
                Err(e) => Err(e),
                Ok(b) => Ok(a + b),
            },
        }
    }
}

/// The spans of one node of a description cell: an error is kept in an `Unknown`
/// span that holds the node's visible text.
pub open spec fn node_spans(n: MarkupNode) -> Seq<SpanView> {
    match parse_node(n) {
        Ok(v) => v,
        Err(e) => seq![SpanView::Unknown { text: node_text(n, false), err: e }],
    }
}

/// The spans of a sequence of sibling nodes, each parsed on its own.
pub open spec fn cell_spans(s: Seq<MarkupNode>) -> Seq<SpanView>
    decreases s.len(),
{
    if s.len() == 0 {
        Seq::empty()
    } else {
        cell_spans(s.drop_last()) + node_spans(s.last())
    }
}

/// The spans of a description cell.
pub open spec fn parse_cell(n: MarkupNode) -> Result<Seq<SpanView>, ParseError> {
    if !is_element_named(n, "td"@) {
        Err(ParseError::NotACell)
    } else {
        Ok(cell_spans(crate::markup::children_of(n)))
    }
}

/// The text a span shows in running prose: none for footnotes and annotations.
pub open spec fn normal_text_of(sp: SpanView) -> Option<Seq<char>> {
    match sp {
        SpanView::Text { text } => Some(text),
        SpanView::SiteLink { text, .. } => Some(text),
        SpanView::SiteLinkNonExistent { text, .. } => Some(text),
        SpanView::ExternalLink { text, .. } => Some(text),
        SpanView::Subscript { text } => Some(text),
        SpanView::Unknown { text, .. } => Some(text),
        _ => None,
    }
}

/// The lowercase form of `t` contains the already lowercased term `term`.
pub open spec fn hit(t: Seq<char>, term: Seq<char>) -> bool {
    contains_seq(lower_of(t), term)
}

/// Whether a span matches a lowercased search term in the scope the flags allow.
pub open spec fn span_matches(sp: SpanView, term: Seq<char>, links: bool, notes: bool) -> bool {
    match sp {
        SpanView::Text { text } => hit(text, term),
        SpanView::SiteLink { text, link } => hit(text, term) || (links && hit(link, term)),
        SpanView::SiteLinkNonExistent { text, link } => hit(text, term) || (links && hit(
            link,
            term,
        )),
        SpanView::ExternalLink { text, link } => hit(text, term) || (links && hit(link, term)),
        SpanView::Note { note_id, .. } => notes && hit(note_id, term),
        SpanView::Reference { ref_id, .. } => notes && hit(ref_id, term),
        SpanView::Annotation { .. } => false,
        SpanView::Subscript { text } => hit(text, term),
        SpanView::Unknown { text, .. } => hit(text, term),
    }
}

proof fn lemma_parse_nodes_err_prefix(s: Seq<MarkupNode>, k: int)
    requires
        0 <= k <= s.len(),
        parse_nodes(s.subrange(0, k)) is Err,
    ensures
        parse_nodes(s) == parse_nodes(s.subrange(0, k)),
    decreases s.len() - k,
{
    if k < s.len() {
        let t = s.subrange(0, k + 1);
        assert(t.drop_last() =~= s.subrange(0, k));
        lemma_parse_nodes_err_prefix(s, k + 1);
    } else {
        assert(s.subrange(0, k) =~= s);
    }
}

proof fn lemma_spans_view_append(a: Seq<RichTextSpan>, b: Seq<RichTextSpan>)
    ensures
        spans_view(a + b) == spans_view(a) + spans_view(b),
{
    assert(spans_view(a + b) =~= spans_view(a) + spans_view(b));
}

/// Appends all of `src` to `dst`.
fn append_spans(dst: &mut Vec<RichTextSpan>, src: Vec<RichTextSpan>)
    ensures
        spans_view(final(dst)@) == spans_view(old(dst)@) + spans_view(src@),
{
    let mut src = src;
    let ghost s0 = src@;
    dst.append(&mut src);
    proof {
        lemma_spans_view_append(old(dst)@, s0);
    }
}


/// Position just past the run of ASCII digits that starts at `k`.
fn digit_run_end_at(t: &str, n: usize, k: usize) -> (r: usize)
    requires
        n == t@.len(),
        k <= n,
    ensures
        r as int == digit_run_end(t@, k as int),
        k <= r <= n,
{
    let mut e = k;
    loop
        invariant
            n == t@.len(),
            k <= e <= n,
            digit_run_end(t@, k as int) == digit_run_end(t@, e as int),
        decreases n - e,
    {
        if e >= n {
            return e;
        }
        let c = t.get_char(e);
        if !('0' <= c && c <= '9') {
            return e;
        }
        e = e + 1;
    }
}

/// The bounds of the digits of a marker `<open><digits>]` that starts at `i`.
fn marker_at_pos(t: &str, n: usize, open: &str, i: usize) -> (r: Option<(usize, usize)>)
    requires
        n == t@.len(),
        i <= n,
    ensures
        match r {
            Some((s, e)) => s <= e <= n && marker_at(t@, open@, i as int) == Some(
                t@.subrange(s as int, e as int),
            ),
            None => marker_at(t@, open@, i as int) is None,
        },
{
    let m = open.unicode_len();
    if m > n - i {
        return None;
    }
    let s = i + m;
    if !text_eq(t.substring_char(i, s), open) {
        return None;
    }
    let e = digit_run_end_at(t, n, s);
    if e > s && e < n && t.get_char(e) == ']' {
        Some((s, e))
    } else {
        None
    }
}

/// The bounds of the digits of the leftmost marker `<open><digits>]` in `t`.
fn find_marker_pos(t: &str, open: &str) -> (r: Option<(usize, usize)>)
    ensures
        match r {
            Some((s, e)) => s <= e <= t@.len() && find_marker(t@, open@, 0) == Some(
                t@.subrange(s as int, e as int),
            ),
            None => find_marker(t@, open@, 0) is None,
        },
{
    let n = t.unicode_len();
    let mut i: usize = 0;
    while i < n
        invariant
            n == t@.len(),
            i <= n,
            find_marker(t@, open@, 0) == find_marker(t@, open@, i as int),
        decreases n - i,
    {
        let found = marker_at_pos(t, n, open, i);
        if found.is_some() {
            return found;
        }
        i = i + 1;
    }
    None
}

/// Removes the leading `#` characters of a text.
fn strip_leading_hashes(s: &str) -> (r: String)
    ensures
        r@ == strip_hashes(s@),
{
    let n = s.unicode_len();
    let mut k: usize = 0;
    assert(s@.subrange(0, n as int) =~= s@);
    while k < n && s.get_char(k) == '#'
        invariant
            n == s@.len(),
            k <= n,
            strip_hashes(s@) == strip_hashes(s@.subrange(k as int, n as int)),
        decreases n - k,
    {
        assert(s@.subrange(k as int, n as int).drop_first() =~= s@.subrange(k + 1, n as int));
        k = k + 1;
    }
    String::from_str(s.substring_char(k, n))
}

/// The destination of a link element.
fn link_from(n: &MarkupNode) -> (r: Result<String, SpanError>)
    ensures
        match r {
            Ok(v) => link_of(*n) == Ok::<Seq<char>, SpanError>(v@),
            Err(e) => link_of(*n) == Err::<Seq<char>, SpanError>(e),
        },
{
    if !n.is_named("a") {
        return Err(SpanError::NotALink);
    }
    match n.attr("href") {
        Some(v) => Ok(v.clone()),
        None => Err(SpanError::MissingHref),
    }
}

/// The number and target of a footnote whose marker digits stand at `s..e` in `t`.
fn footnote_from(n: &MarkupNode, t: &str, s: usize, e: usize, missing: SpanError) -> (r: Result<
    (usize, String),
    SpanError,
>)
    requires
        s <= e <= t@.len(),
    ensures
        match r {
            Ok((number, id)) => footnote(*n, t@.subrange(s as int, e as int), missing) == Ok::<
                (usize, Seq<char>),
                SpanError,
            >((number, id@)),
            Err(x) => footnote(*n, t@.subrange(s as int, e as int), missing) == Err::<
                (usize, Seq<char>),
                SpanError,
            >(x),
        },
{
    let number = match parse_usize(t.substring_char(s, e)) {
        Some(v) => v,
        None => return Err(SpanError::NumberTooLarge),
    };
    let a = match n.first_anchor() {
        Some(a) => a,
        None => return Err(missing),
    };
    match link_from(a) {
        Ok(link) => Ok((number, strip_leading_hashes(link.as_str()))),
        Err(x) => Err(x),
    }
}

/// A sequence of one span.
fn one_span(x: RichTextSpan) -> (r: Vec<RichTextSpan>)
    ensures
        spans_view(r@) == seq![x@],
{
    let mut v: Vec<RichTextSpan> = Vec::new();
    v.push(x);
    assert(spans_view(v@) =~= seq![x@]);
    v
}

/// The span of an `a` element.
fn anchor_spans(n: &MarkupNode) -> (r: Result<Vec<RichTextSpan>, SpanError>)
    ensures
        result_view(r) == parse_anchor(*n),
{
    let text = n.text(false);
    let link = match link_from(n) {
        Ok(l) => l,
        Err(e) => return Err(e),
    };
    let span = if n.has_class("new") {
        RichTextSpan::SiteLinkNonExistent { text, link }
    } else if n.has_class("external") {
        RichTextSpan::ExternalLink { text, link }
    } else {
        RichTextSpan::SiteLink { text, link }
    };
        Ok(one_span(span))
}

/// The spans of a `sup` element.
fn superscript_spans(n: &MarkupNode) -> (r: Result<Vec<RichTextSpan>, SpanError>)
    ensures
        result_view(r) == parse_superscript(*n),
{
    if n.has_class("update") {
        let v: Vec<RichTextSpan> = Vec::new();
        assert(spans_view(v@) =~= Seq::<SpanView>::empty());
        return Ok(v);
    }
    let text = n.text(false);
    if n.has_class("Inline-Template") {
        let a = match n.first_anchor() {
            Some(a) => a,
            None => return Err(SpanError::AnnotationWithoutLink),
        };
        let link = match link_from(a) {
            Ok(l) => l,
            Err(e) => return Err(e),
        };
        let span = RichTextSpan::Annotation { text, link };
                return Ok(one_span(span));
    }
    if n.has_class("reference") {
        if let Some((s, e)) = find_marker_pos(text.as_str(), "[") {
            let (number, ref_id) = match footnote_from(
                n,
                text.as_str(),
                s,
                e,
                SpanError::ReferenceWithoutLink,
            ) {
                Ok(f) => f,
                Err(x) => return Err(x),
            };
            let span = RichTextSpan::Reference { number, ref_id };
                        return Ok(one_span(span));
        }
        if let Some((s, e)) = find_marker_pos(text.as_str(), "[note ") {
            let (number, note_id) = match footnote_from(
                n,
                text.as_str(),
                s,
                e,
                SpanError::NoteWithoutLink,
            ) {
                Ok(f) => f,
                Err(x) => return Err(x),
            };
            let span = RichTextSpan::Note { number, note_id };
                        return Ok(one_span(span));
        }
    }
    Err(SpanError::UnknownSuperscript)
}

/// The spans of one node, or the first error met inside it.
#[verifier::loop_isolation(false)]
fn node_spans_or_error(n: &MarkupNode) -> (r: Result<Vec<RichTextSpan>, SpanError>)
    ensures
        result_view(r) == parse_node(*n),
    decreases *n,
{
    match n {
        MarkupNode::Comment => {
            let v: Vec<RichTextSpan> = Vec::new();
            assert(spans_view(v@) =~= Seq::<SpanView>::empty());
            Ok(v)
        },
        MarkupNode::Text { text } => {
            let t = remove_newlines(text.as_str());
            if t.as_str().unicode_len() == 0 {
                let v: Vec<RichTextSpan> = Vec::new();
                assert(spans_view(v@) =~= Seq::<SpanView>::empty());
                Ok(v)
            } else {
                let span = RichTextSpan::Text { text: t };
                                Ok(one_span(span))
            }
        },
        MarkupNode::Element { children, .. } => {
            if n.is_named("b") || n.is_named("i") {
                let mut out: Vec<RichTextSpan> = Vec::new();
                let mut i: usize = 0;
                assert(spans_view(out@) =~= Seq::<SpanView>::empty());
                while i < children.len()
                    invariant
                        i <= children@.len(),
                        parse_nodes(children@.subrange(0, i as int)) == Ok::<
                            Seq<SpanView>,
                            SpanError,
                        >(spans_view(out@)),
                    decreases children@.len() - i,
                {
                    assert(children@.subrange(0, i + 1).drop_last() =~= children@.subrange(
                        0,
                        i as int,
                    ));
                    match node_spans_or_error(&children[i]) {
                        Ok(v) => append_spans(&mut out, v),
                        Err(e) => {
                            proof {
                                lemma_parse_nodes_err_prefix(children@, i + 1);
                            }
                            return Err(e);
                        },
                    }
                    i = i + 1;
                }
                assert(children@.subrange(0, children@.len() as int) =~= children@);
                Ok(out)
            } else if n.is_named("a") {
                anchor_spans(n)
            } else if n.is_named("sup") {
                superscript_spans(n)
            } else {
                Err(SpanError::UnknownTag)
            }
        },
        _ => Err(SpanError::UnexpectedNode),
    }
}

impl RichTextSpan {
    /// The spans of one node of a description cell. A node that cannot be parsed
    /// becomes one `Unknown` span holding its visible text and the error.
    pub fn parse(node: &MarkupNode) -> (r: Vec<RichTextSpan>)
        ensures
            spans_view(r@) == node_spans(*node),
    {
        match node_spans_or_error(node) {
            Ok(v) => v,
            Err(err) => {
                let span = RichTextSpan::Unknown { text: node.text(false), err };
                                one_span(span)
            },
        }
    }

    /// The displayed text, excluding footnotes and annotations.
    pub fn normal_text(&self) -> (r: Option<&String>)
        ensures
            match r {
                Some(t) => normal_text_of(self@) == Some(t@),
                None => normal_text_of(self@) is None,
            },
    {
        match self {
            RichTextSpan::Text { text } => Some(text),
            RichTextSpan::SiteLink { text, .. } => Some(text),
            RichTextSpan::SiteLinkNonExistent { text, .. } => Some(text),
            RichTextSpan::ExternalLink { text, .. } => Some(text),
            RichTextSpan::Subscript { text } => Some(text),
            RichTextSpan::Unknown { text, .. } => Some(text),
            _ => None,
        }
    }

    /// Whether this span contains the search term, compared in lowercase. Link
    /// destinations are searched only with `include_links`, note and reference
    /// identifiers only with `include_notes_and_references`.
    pub fn matches_search(
        &self,
        search: &str,
        include_links: bool,
        include_notes_and_references: bool,
    ) -> (r: bool)
        ensures
            r == span_matches(self@, lower_of(search@), include_links, include_notes_and_references),
    {
        let term = lowercase(search);
        match self {
            RichTextSpan::Text { text } => hits(text, &term),
            RichTextSpan::SiteLink { text, link } => hits(text, &term) || (include_links && hits(
                link,
                &term,
            )),
            RichTextSpan::SiteLinkNonExistent { text, link } => hits(text, &term) || (
            include_links && hits(link, &term)),
            RichTextSpan::ExternalLink { text, link } => hits(text, &term) || (include_links
                && hits(link, &term)),
            RichTextSpan::Note { note_id, .. } => include_notes_and_references && hits(
                note_id,
                &term,
            ),
            RichTextSpan::Reference { ref_id, .. } => include_notes_and_references && hits(
                ref_id,
                &term,
            ),
            RichTextSpan::Annotation { .. } => false,
            RichTextSpan::Subscript { text } => hits(text, &term),
            RichTextSpan::Unknown { text, .. } => hits(text, &term),
        }
    }
}

/// The lowercase form of `t` contains the already lowercased `term`.
fn hits(t: &String, term: &String) -> (r: bool)
    ensures
        r == hit(t@, term@),
{
    let lower = lowercase(t.as_str());
    contains_text(lower.as_str(), term.as_str())
}

/// Parses a description cell into its spans, node by node.
pub fn parse_rich_text_cell(cell: &MarkupNode) -> (r: Result<Vec<RichTextSpan>, ParseError>)
    ensures
        match r {
            Ok(v) => parse_cell(*cell) == Ok::<Seq<SpanView>, ParseError>(spans_view(v@)),
            Err(e) => parse_cell(*cell) == Err::<Seq<SpanView>, ParseError>(e),
        },
{
    if !cell.is_named("td") {
        return Err(ParseError::NotACell);
    }
    let children = cell.children();
    let mut out: Vec<RichTextSpan> = Vec::new();
    assert(spans_view(out@) =~= Seq::<SpanView>::empty());
    let mut i: usize = 0;
    while i < children.len()
        invariant
            children@ == crate::markup::children_of(*cell),
            i <= children@.len(),
            spans_view(out@) == cell_spans(children@.subrange(0, i as int)),
        decreases children@.len() - i,
    {
        assert(children@.subrange(0, i + 1).drop_last() =~= children@.subrange(0, i as int));
        let v = RichTextSpan::parse(&children[i]);
        append_spans(&mut out, v);
        i = i + 1;
    }
    assert(children@.subrange(0, children@.len() as int) =~= children@);
    Ok(out)
}

} // verus!
