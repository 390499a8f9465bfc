use what_the_port::display::PortUseCase;
use what_the_port::markup::{Attribute, MarkupNode};
use what_the_port::parse::{parse_page, parse_port_range, range_from_text, ParseError};
use what_the_port::query::{PortSelection, SupportedProtocol, UserQuery};
use what_the_port::render::{Segment, Tint};
use what_the_port::rich_text::{parse_rich_text_cell, RichTextSpan, SpanError};
use what_the_port::store::{PortCategory, PortDatabase, PortRange, PortRangeInfo, PortType};

fn text(s: &str) -> MarkupNode {
    MarkupNode::Text { text: s.to_string() }
}

fn el(name: &str, classes: &[&str], attrs: &[(&str, &str)], children: Vec<MarkupNode>) -> MarkupNode {
    MarkupNode::Element {
        name: name.to_string(),
        classes: classes.iter().map(|c| c.to_string()).collect(),
        attributes: attrs
            .iter()
            .map(|(n, v)| Attribute { name: n.to_string(), value: v.to_string() })
            .collect(),
        children,
    }
}

fn td(children: Vec<MarkupNode>) -> MarkupNode {
    el("td", &[], &[], children)
}

fn td_attr(attrs: &[(&str, &str)], children: Vec<MarkupNode>) -> MarkupNode {
    el("td", &[], attrs, children)
}

fn tr(cells: Vec<MarkupNode>) -> MarkupNode {
    el("tr", &[], &[], cells)
}

fn header() -> MarkupNode {
    tr(vec![el("th", &[], &[], vec![text("Port")]), el("th", &[], &[], vec![text("TCP")])])
}

fn row(range: &str, types: [&str; 4], desc: Vec<MarkupNode>) -> MarkupNode {
    tr(vec![
        td(vec![text(range)]),
        td(vec![text(types[0])]),
        td(vec![text(types[1])]),
        td(vec![text(types[2])]),
        td(vec![text(types[3])]),
        td(desc),
    ])
}

fn table(rows: Vec<MarkupNode>) -> MarkupNode {
    el("table", &["wikitable", "sortable"], &[], vec![el("tbody", &[], &[], rows)])
}

fn document(tables: Vec<MarkupNode>) -> MarkupNode {
    MarkupNode::Document { children: vec![el("html", &[], &[], vec![el("body", &[], &[], tables)])] }
}

fn parse_rows(rows: Vec<MarkupNode>) -> Result<PortDatabase, ParseError> {
    parse_page(&document(vec![table(rows)]))
}

fn link(text_: &str, href: &str, classes: &[&str]) -> MarkupNode {
    el("a", classes, &[("href", href)], vec![text(text_)])
}

fn record(start: u16, end: u16, tcp: PortType, udp: PortType, desc: Vec<RichTextSpan>) -> PortRangeInfo {
    PortRangeInfo {
        number: PortRange { start, end },
        tcp_type: tcp,
        udp_type: udp,
        sctp_type: PortType::Unused,
        dccp_type: PortType::Unused,
        rich_description: desc,
    }
}

fn plain(s: &str) -> RichTextSpan {
    RichTextSpan::Text { text: s.to_string() }
}

#[test]
fn category_boundaries() {
    assert_eq!(PortCategory::from_port(0), PortCategory::WellKnown);
    assert_eq!(PortCategory::from_port(1023), PortCategory::WellKnown);
    assert_eq!(PortCategory::from_port(1024), PortCategory::Registered);
    assert_eq!(PortCategory::from_port(49151), PortCategory::Registered);
    assert_eq!(PortCategory::from_port(49152), PortCategory::Dynamic);
    assert_eq!(PortCategory::from_port(65535), PortCategory::Dynamic);
    assert_eq!(PortCategory::from_port(49152).name(), "dynamic");
}

#[test]
fn category_of_range() {
    assert_eq!(PortCategory::of_range(PortRange { start: 80, end: 81 }), Ok(PortCategory::WellKnown));
    assert_eq!(
        PortCategory::of_range(PortRange { start: 1000, end: 1100 }),
        Err(ParseError::CategoryCrossed)
    );
}

#[test]
fn range_cell_en_dash_and_single() {
    assert_eq!(parse_port_range(&td(vec![text("80\u{2013}81")])), Ok((PortRange { start: 80, end: 81 }, 1)));
    assert_eq!(parse_port_range(&td(vec![text("443")])), Ok((PortRange { start: 443, end: 443 }, 1)));
    assert_eq!(parse_port_range(&td(vec![text("6000-6063")])), Ok((PortRange { start: 6000, end: 6063 }, 1)));
}

#[test]
fn range_cell_trims_and_skips_superscripts() {
    let cell = td_attr(
        &[("rowspan", "3")],
        vec![text(" 8080 \n"), el("sup", &["reference"], &[], vec![text("[5]")])],
    );
    assert_eq!(parse_port_range(&cell), Ok((PortRange { start: 8080, end: 8080 }, 3)));
}

#[test]
fn range_cell_errors() {
    assert_eq!(parse_port_range(&td(vec![text("http")])), Err(ParseError::InvalidPortNumber));
    assert_eq!(parse_port_range(&td(vec![text("70000")])), Err(ParseError::InvalidPortNumber));
    assert_eq!(parse_port_range(&td(vec![text("1000-1100")])), Err(ParseError::CategoryCrossed));
    assert_eq!(parse_port_range(&td_attr(&[("rowspan", "x")], vec![text("1")])), Err(ParseError::InvalidSpan));
    assert_eq!(parse_port_range(&el("th", &[], &[], vec![text("1")])), Err(ParseError::NotACell));
    assert_eq!(range_from_text("+22"), Some(PortRange { start: 22, end: 22 }));
    assert_eq!(range_from_text(""), None);
}

#[test]
fn reserved_colspan_four() {
    let rows = vec![
        header(),
        tr(vec![
            td(vec![text("1023")]),
            td_attr(&[("colspan", "4")], vec![text("Reserved")]),
            td(vec![text("Reserved")]),
        ]),
    ];
    let db = parse_rows(rows).unwrap();
    assert_eq!(db.0.len(), 1);
    let r = &db.0[0];
    assert_eq!(r.number, PortRange { start: 1023, end: 1023 });
    assert_eq!(r.tcp_type, PortType::Reserved);
    assert_eq!(r.udp_type, PortType::Reserved);
    assert_eq!(r.sctp_type, PortType::Reserved);
    assert_eq!(r.dccp_type, PortType::Reserved);
}

#[test]
fn protocol_cell_first_keyword_wins() {
    let cell = td(vec![text("maybe"), el("b", &[], &[], vec![text(" Unofficial ")]), text("Yes")]);
    assert_eq!(PortType::from_cell(&cell), Ok(PortType::Unofficial));
    assert_eq!(PortType::from_cell(&td(vec![text("yes")])), Ok(PortType::Unused));
    assert_eq!(PortType::from_cell(&td(vec![])), Ok(PortType::Unused));
}

#[test]
fn header_row_skipped_and_rowspan_replicated() {
    let rows = vec![
        header(),
        tr(vec![
            td_attr(&[("rowspan", "2")], vec![text("20\u{2013}21")]),
            td(vec![text("Yes")]),
            td(vec![text("Assigned")]),
            td(vec![]),
            td(vec![]),
            td(vec![text("FTP")]),
        ]),
        tr(vec![td(vec![]), td(vec![text("No")]), td(vec![]), td(vec![]), td(vec![text("Other")])]),
        row("22", ["Yes", "", "Yes", ""], vec![text("SSH\n")]),
    ];
    let db = parse_rows(rows).unwrap();
    assert_eq!(db.0.len(), 3);
    assert_eq!(db.0[0].number, PortRange { start: 20, end: 21 });
    assert_eq!(db.0[1].number, PortRange { start: 20, end: 21 });
    assert_eq!(db.0[1].udp_type, PortType::No);
    assert_eq!(db.0[1].tcp_type, PortType::Unused);
    assert_eq!(db.0[2].number, PortRange { start: 22, end: 22 });
    assert_eq!(db.0[2].sctp_type, PortType::Yes);
    assert!(matches!(&db.0[2].rich_description[0], RichTextSpan::Text { text } if text == "SSH"));
}

#[test]
fn tables_concatenate_in_order() {
    let doc = document(vec![
        table(vec![row("1", ["Yes", "", "", ""], vec![text("a")])]),
        el("table", &["wikitable"], &[], vec![el("tbody", &[], &[], vec![row("x", ["", "", "", ""], vec![])])]),
        table(vec![row("2", ["Yes", "", "", ""], vec![text("b")])]),
    ]);
    let db = parse_page(&doc).unwrap();
    assert_eq!(db.0.len(), 2);
    assert_eq!(db.0[0].number.start, 1);
    assert_eq!(db.0[1].number.start, 2);
}

#[test]
fn structural_errors_abort_parse() {
    assert_eq!(
        parse_rows(vec![row("1000-1100", ["Yes", "", "", ""], vec![])]).err(),
        Some(ParseError::CategoryCrossed)
    );
    let missing = vec![tr(vec![
        td_attr(&[("rowspan", "3")], vec![text("5")]),
        td(vec![]),
        td(vec![]),
        td(vec![]),
        td(vec![]),
        td(vec![]),
    ])];
    assert_eq!(parse_rows(missing).err(), Some(ParseError::MissingSpannedRow));
    let short = vec![tr(vec![td(vec![text("5")]), td(vec![]), td(vec![])])];
    assert_eq!(parse_rows(short).err(), Some(ParseError::OutOfTypeCells));
    let wide = vec![tr(vec![
        td(vec![text("5")]),
        td(vec![]),
        td_attr(&[("colspan", "4")], vec![]),
        td(vec![]),
    ])];
    assert_eq!(parse_rows(wide).err(), Some(ParseError::TypeCellsTooWide));
    let no_desc = vec![tr(vec![td(vec![text("5")]), td(vec![]), td(vec![]), td(vec![]), td(vec![])])];
    assert_eq!(parse_rows(no_desc).err(), Some(ParseError::NoDescriptionCell));
    let bad_span = vec![tr(vec![
        td(vec![text("5")]),
        td_attr(&[("colspan", "two")], vec![]),
        td(vec![]),
    ])];
    assert_eq!(parse_rows(bad_span).err(), Some(ParseError::InvalidSpan));
    assert_eq!(parse_rows(vec![]).err(), Some(ParseError::EmptyTable));
    assert_eq!(parse_rows(vec![header(), tr(vec![])]).err(), Some(ParseError::EmptyRow));
    let div = el("div", &["wikitable", "sortable"], &[], vec![]);
    assert_eq!(parse_page(&document(vec![div])).err(), Some(ParseError::NotATable));
}

#[test]
fn lookup_tcp_yes_udp_unused() {
    let db = PortDatabase(vec![record(25, 25, PortType::Yes, PortType::Unused, vec![plain("SMTP")])]);
    let tcp = db.lookup(PortSelection { number: 25, protocol: SupportedProtocol::Tcp }, false, false);
    assert_eq!(tcp.matched.as_ref().unwrap().use_cases.len(), 1);
    assert_eq!(tcp.matched.as_ref().unwrap().number, PortRange { start: 25, end: 25 });
    let udp = db.lookup(PortSelection { number: 25, protocol: SupportedProtocol::Udp }, false, false);
    assert!(udp.matched.is_none());
    let any = db.lookup(PortSelection { number: 25, protocol: SupportedProtocol::Any }, false, false);
    assert!(any.matched.is_some());
    let other = db.lookup(PortSelection { number: 26, protocol: SupportedProtocol::Any }, false, false);
    assert!(other.matched.is_none());
}

#[test]
fn lookup_overlapping_ranges_keep_order() {
    let db = PortDatabase(vec![
        record(3478, 3479, PortType::Yes, PortType::Unused, vec![plain("first")]),
        record(1, 1, PortType::Yes, PortType::Unused, vec![plain("skip")]),
        record(3479, 3479, PortType::Unused, PortType::Yes, vec![plain("second")]),
    ]);
    let out = db.lookup(PortSelection { number: 3479, protocol: SupportedProtocol::Any }, false, false);
    let m = out.matched.unwrap();
    assert_eq!(m.use_cases.len(), 2);
    assert_eq!(m.use_cases[0].description, "first");
    assert_eq!(m.use_cases[1].description, "second");
}

#[test]
fn search_link_text_matches_regardless_of_link_flag() {
    let cell = td(vec![text("Mail ("), link("SMTP", "/wiki/SMTP", &[]), text(")")]);
    let spans = parse_rich_text_cell(&cell).unwrap();
    let db = PortDatabase(vec![record(25, 25, PortType::Yes, PortType::Unused, spans)]);
    assert_eq!(db.search("smtp", false, false).matched.len(), 1);
    assert_eq!(db.search("smtp", true, false).matched.len(), 1);
    assert_eq!(db.search("SMTP", false, false).matched.len(), 1);
    assert_eq!(db.search("mail (smtp)", false, false).matched.len(), 1);
    assert_eq!(db.search("/wiki", false, false).matched.len(), 0);
    assert_eq!(db.search("/wiki", true, false).matched.len(), 1);
    assert_eq!(db.search("imap", true, true).matched.len(), 0);
}

#[test]
fn lone_superscript_becomes_unknown() {
    let rows = vec![
        row(
            "7",
            ["Yes", "", "", ""],
            vec![text("Echo"), el("sup", &["reference"], &[], vec![text("[citation needed]")])],
        ),
        row("9", ["Yes", "", "", ""], vec![text("Discard")]),
    ];
    let db = parse_rows(rows).unwrap();
    assert_eq!(db.0.len(), 2);
    let spans = &db.0[0].rich_description;
    assert_eq!(spans.len(), 2);
    match &spans[1] {
        RichTextSpan::Unknown { text, err } => {
            assert_eq!(text, "[citation needed]");
            assert_eq!(*err, SpanError::UnknownSuperscript);
        }
        _ => panic!("expected an unknown span"),
    }
}

#[test]
fn footnotes_annotations_and_links() {
    let cell = td(vec![
        el("i", &[], &[], vec![text("Italic "), el("b", &[], &[], vec![text("bold")])]),
        link("Missing", "/w/index.php?title=X", &["new"]),
        link("Ext", "https://example.org", &["external", "text"]),
        el("sup", &["reference"], &[], vec![link("[12]", "##cite-12", &[])]),
        el("sup", &["reference"], &[], vec![link("[note 3]", "#note-3", &[])]),
        el("sup", &["Inline-Template"], &[], vec![text("["), link("jargon", "/wiki/Jargon", &[]), text("]")]),
        el("sup", &["update"], &[], vec![text("[update]")]),
        MarkupNode::Comment,
        text("\n"),
    ]);
    let spans = parse_rich_text_cell(&cell).unwrap();
    assert_eq!(spans.len(), 7);
    assert!(matches!(&spans[0], RichTextSpan::Text { text } if text == "Italic "));
    assert!(matches!(&spans[1], RichTextSpan::Text { text } if text == "bold"));
    assert!(matches!(&spans[2], RichTextSpan::SiteLinkNonExistent { text, .. } if text == "Missing"));
    assert!(matches!(&spans[3], RichTextSpan::ExternalLink { link, .. } if link == "https://example.org"));
    assert!(matches!(&spans[4], RichTextSpan::Reference { number: 12, ref_id } if ref_id == "cite-12"));
    assert!(matches!(&spans[5], RichTextSpan::Note { number: 3, note_id } if note_id == "note-3"));
    assert!(matches!(&spans[6], RichTextSpan::Annotation { text, link } if text == "[jargon]" && link == "/wiki/Jargon"));
}

#[test]
fn span_errors_are_localized() {
    let cell = td(vec![
        el("a", &[], &[], vec![text("nohref")]),
        el("span", &[], &[], vec![text("odd")]),
        el("sup", &["Inline-Template"], &[], vec![text("[x]")]),
        el("sup", &["reference"], &[], vec![text("[4]")]),
        el("sup", &["reference"], &[], vec![link("[99999999999999999999999]", "#a", &[])]),
        el("b", &[], &[], vec![text("ok "), el("u", &[], &[], vec![text("bad")])]),
        MarkupNode::Doctype,
    ]);
    let spans = parse_rich_text_cell(&cell).unwrap();
    let errs: Vec<SpanError> = spans
        .iter()
        .map(|s| match s {
            RichTextSpan::Unknown { err, .. } => *err,
            _ => panic!("expected only unknown spans"),
        })
        .collect();
    assert_eq!(
        errs,
        vec![
            SpanError::MissingHref,
            SpanError::UnknownTag,
            SpanError::AnnotationWithoutLink,
            SpanError::ReferenceWithoutLink,
            SpanError::NumberTooLarge,
            SpanError::UnknownTag,
            SpanError::UnexpectedNode,
        ]
    );
    assert!(matches!(&spans[5], RichTextSpan::Unknown { text, .. } if text == "ok bad"));
    assert_eq!(parse_rich_text_cell(&el("th", &[], &[], vec![])).err(), Some(ParseError::NotACell));
}

#[test]
fn note_without_link_is_an_error() {
    let cell = td(vec![el("sup", &["reference"], &[], vec![text("[note 2]")])]);
    let spans = parse_rich_text_cell(&cell).unwrap();
    assert!(matches!(&spans[0], RichTextSpan::Unknown { err: SpanError::NoteWithoutLink, .. }));
}

#[test]
fn search_groups_sorted_and_merged() {
    let db = PortDatabase(vec![
        record(80, 80, PortType::Yes, PortType::Unused, vec![plain("Web server")]),
        record(20, 21, PortType::Yes, PortType::Unused, vec![plain("web transfer")]),
        record(22, 22, PortType::Yes, PortType::Unused, vec![plain("SSH")]),
        record(80, 80, PortType::Unused, PortType::Yes, vec![plain("Other WEB use")]),
    ]);
    let out = db.search("WeB", false, false);
    assert_eq!(out.search, "WeB");
    assert_eq!(out.matched.len(), 2);
    assert_eq!(out.matched[0].number, PortRange { start: 20, end: 21 });
    assert_eq!(out.matched[1].number, PortRange { start: 80, end: 80 });
    assert_eq!(out.matched[1].use_cases.len(), 2);
    assert_eq!(out.matched[1].use_cases[0].description, "Web server");
    assert_eq!(out.matched[1].use_cases[1].description, "Other WEB use");
}

#[test]
fn search_straddles_span_boundary() {
    let db = PortDatabase(vec![record(
        1,
        1,
        PortType::Yes,
        PortType::Unused,
        vec![plain("foo "), RichTextSpan::SiteLink { text: "bar".to_string(), link: "/wiki/Bar".to_string() }],
    )]);
    assert_eq!(db.search("foo bar", false, false).matched.len(), 1);
    assert_eq!(db.search("foo baz", false, false).matched.len(), 0);
}

#[test]
fn search_notes_only_when_enabled() {
    let db = PortDatabase(vec![record(
        1,
        1,
        PortType::Yes,
        PortType::Unused,
        vec![
            plain("x"),
            RichTextSpan::Reference { number: 1, ref_id: "cite-iana".to_string() },
            RichTextSpan::Annotation { text: "[jargon]".to_string(), link: "/wiki/J".to_string() },
        ],
    )]);
    assert_eq!(db.search("iana", false, false).matched.len(), 0);
    assert_eq!(db.search("iana", false, true).matched.len(), 1);
    assert_eq!(db.search("jargon", true, true).matched.len(), 0);
}

#[test]
fn link_tags_are_consecutive_across_output() {
    let site = |t: &str| RichTextSpan::SiteLink { text: t.to_string(), link: format!("/wiki/{t}") };
    let db = PortDatabase(vec![
        record(80, 80, PortType::Yes, PortType::Unused, vec![plain("web "), site("HTTP"), site("WWW")]),
        record(8, 8, PortType::Yes, PortType::Unused, vec![plain("web "), site("Gopher")]),
        record(80, 80, PortType::Yes, PortType::Unused, vec![plain("web "), site("Proxy")]),
    ]);
    assert!(db.link_numbering_fits());
    let out = db.search("web", true, false);
    let tags: Vec<String> = out
        .matched
        .iter()
        .flat_map(|m| m.use_cases.iter())
        .flat_map(|u| u.links.iter().map(|(t, _)| t.clone()))
        .collect();
    assert_eq!(tags, vec!["[1]", "[2]", "[3]", "[4]"]);
    assert_eq!(out.matched[0].use_cases[0].description, "web Gopher[1]");
    assert_eq!(out.matched[1].use_cases[0].links[0].1, "https://en.wikipedia.org/wiki/HTTP");
    let lk = db.lookup(PortSelection { number: 80, protocol: SupportedProtocol::Any }, true, false);
    let m = lk.matched.unwrap();
    assert_eq!(m.use_cases[0].link_count(), 2);
    assert_eq!(m.use_cases[1].links[0].0, "[3]");
    let none = db.search("web", false, false);
    assert_eq!(none.matched[0].use_cases[0].link_count(), 0);
    assert_eq!(none.matched[0].use_cases[0].description, "web Gopher");
}

#[test]
fn projection_of_every_span_kind() {
    let info = record(
        5,
        5,
        PortType::Yes,
        PortType::Unused,
        vec![
            plain("A"),
            RichTextSpan::ExternalLink { text: "ext".to_string(), link: "https://x.org".to_string() },
            RichTextSpan::Note { number: 2, note_id: "n2".to_string() },
            RichTextSpan::Reference { number: 7, ref_id: "r7".to_string() },
            RichTextSpan::Annotation { text: "[a]".to_string(), link: "/wiki/A".to_string() },
            RichTextSpan::Subscript { text: "2".to_string() },
            RichTextSpan::Unknown { text: "?".to_string(), err: SpanError::UnknownTag },
        ],
    );
    let on = PortUseCase::from_with_options(&info, Some(10), true);
    assert_eq!(on.description, "Aext[10][note 2][ref 7][a]_{2}?");
    assert_eq!(on.links, vec![("[10]".to_string(), "https://x.org".to_string())]);
    assert_eq!(
        on.notes_and_refs,
        vec![
            ("[note 2]".to_string(), "https://en.wikipedia.org/wiki/List_of_TCP_and_UDP_port_numbers#n2".to_string()),
            ("[ref 7]".to_string(), "https://en.wikipedia.org/wiki/List_of_TCP_and_UDP_port_numbers#r7".to_string()),
            ("[a]".to_string(), "https://en.wikipedia.org/wiki/A".to_string()),
        ]
    );
    let off = PortUseCase::from_with_options(&info, None, false);
    assert_eq!(off.description, "Aext_{2}?");
    assert!(off.links.is_empty());
    assert!(off.notes_and_refs.is_empty());
    assert_eq!(off.rich_description.len(), 7);
    assert_eq!(on.protocols(), vec![(SupportedProtocol::Tcp, PortType::Yes)]);
}

#[test]
fn protocol_line_order_omits_unused() {
    let mut info = record(5, 5, PortType::Unofficial, PortType::Unused, vec![]);
    info.sctp_type = PortType::No;
    info.dccp_type = PortType::Assigned;
    let uc = PortUseCase::from_with_options(&info, None, false);
    assert_eq!(
        uc.protocols(),
        vec![
            (SupportedProtocol::Tcp, PortType::Unofficial),
            (SupportedProtocol::Sctp, PortType::No),
            (SupportedProtocol::Dccp, PortType::Assigned),
        ]
    );
    assert_eq!(PortType::Unofficial.name(), "Unofficial");
    assert!(PortType::Unused.is_unused());
    assert!(!PortType::Reserved.is_unused());
}

#[test]
fn port_selection_parsing() {
    assert_eq!(
        PortSelection::parse("443/udp").unwrap(),
        PortSelection { number: 443, protocol: SupportedProtocol::Udp }
    );
    assert_eq!(PortSelection::parse("80").unwrap(), PortSelection { number: 80, protocol: SupportedProtocol::Any });
    assert_eq!(PortSelection::parse("80/xyz").unwrap_err().message(), "Unknown protocol: \"xyz\"");
    assert_eq!(PortSelection::parse("99999").unwrap_err().message(), "\"99999\" is not a valid port number");
    assert_eq!(PortSelection::parse("80/TCP").unwrap_err().message(), "Unknown protocol: \"TCP\"");
    assert_eq!(PortSelection { number: 443, protocol: SupportedProtocol::Sctp }.to_text(), "443/sctp");
    assert_eq!(PortSelection { number: 0, protocol: SupportedProtocol::Any }.to_text(), "0");
    let p: PortSelection = "22/dccp".parse().unwrap();
    assert_eq!(p.protocol, SupportedProtocol::Dccp);
}

#[test]
fn user_query_parsing() {
    match UserQuery::parse("8080/tcp") {
        UserQuery::PortLookup(p) => assert_eq!(p, PortSelection { number: 8080, protocol: SupportedProtocol::Tcp }),
        UserQuery::Search(_) => panic!("expected a lookup"),
    }
    match UserQuery::parse("http proxy") {
        UserQuery::Search(s) => assert_eq!(s, "http proxy"),
        UserQuery::PortLookup(_) => panic!("expected a search"),
    }
    assert_eq!(UserQuery::parse("ssh").to_text(), "Search: \"ssh\"");
    assert_eq!(UserQuery::parse("53/udp").to_text(), "53/udp");
}

#[test]
fn parsing_twice_gives_same_records() {
    let doc = || document(vec![table(vec![
        header(),
        row("53", ["Yes", "Yes", "", ""], vec![text("DNS "), link("Domain", "/wiki/DNS", &[])]),
    ])]);
    let a = parse_page(&doc()).unwrap();
    let b = parse_page(&doc()).unwrap();
    assert_eq!(a.0.len(), b.0.len());
    let ua = PortUseCase::from_with_options(&a.0[0], Some(1), true);
    let ub = PortUseCase::from_with_options(&b.0[0], Some(1), true);
    assert_eq!(ua.description, ub.description);
    assert_eq!(ua.links, ub.links);
    assert_eq!(a.0[0].number, b.0[0].number);
}

fn plain_text(segments: &[Segment]) -> String {
    segments.iter().map(|s| s.text.as_str()).collect()
}

#[test]
fn render_lookup_without_match() {
    let db = PortDatabase(vec![]);
    let out = db.lookup(PortSelection { number: 49152, protocol: SupportedProtocol::Udp }, false, false);
    let segs = out.render();
    assert_eq!(plain_text(&segs), "Port 49152/udp is a dynamic port with no known use cases");
    assert_eq!(segs[1].tint, Tint::Missing);
    assert_eq!(segs[3].tint, Tint::Category);
}

#[test]
fn render_lookup_with_sections() {
    let db = PortDatabase(vec![
        record(
            443,
            443,
            PortType::Yes,
            PortType::Assigned,
            vec![
                plain("HTTPS over "),
                RichTextSpan::SiteLink { text: "TLS".to_string(), link: "/wiki/TLS".to_string() },
                RichTextSpan::Reference { number: 4, ref_id: "r4".to_string() },
            ],
        ),
        record(443, 443, PortType::Unused, PortType::Yes, vec![plain("QUIC")]),
    ]);
    let out = db.lookup(PortSelection { number: 443, protocol: SupportedProtocol::Any }, true, true);
    let segs = out.render();
    assert_eq!(
        plain_text(&segs),
        "Port 443 is a well-known port with 2 known use cases\n    1: HTTPS over TLS[1][ref 4]\n        TCP: Yes, UDP: Assigned\n    2: QUIC\n        UDP: Yes\n\nLinks:\n    [1]: https://en.wikipedia.org/wiki/TLS\n\nNotes and References:\n    [ref 4]: https://en.wikipedia.org/wiki/List_of_TCP_and_UDP_port_numbers#r4"
    );
    assert!(segs.iter().any(|s| s.tint == Tint::Support(PortType::Assigned) && s.text == "Assigned"));
    assert!(segs.iter().any(|s| s.tint == Tint::Link && s.text == "[1]"));
    assert!(segs.iter().any(|s| s.tint == Tint::Note && s.text == "[ref 4]"));
}

#[test]
fn render_search_groups() {
    let db = PortDatabase(vec![
        record(6000, 6063, PortType::Yes, PortType::Unused, vec![plain("X11 display")]),
        record(1, 1, PortType::Yes, PortType::Unused, vec![plain("x11 mux")]),
    ]);
    let out = db.search("x11", false, false);
    assert_eq!(
        plain_text(&out.render()),
        "Found 2 ports or port ranges with 2 use cases matching \"x11\"\n\nPort 1 is a well-known port with 1 matched use case\n    1: x11 mux\n        TCP: Yes\n\nPort 6000-6063 are registered ports with 1 matched use case\n    1: X11 display\n        TCP: Yes"
    );
    let none = db.search("gopher", false, false);
    assert_eq!(plain_text(&none.render()), "Found no matches for \"gopher\" among known ports");
}
