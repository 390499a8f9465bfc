use vstd::prelude::*;

use crate::display::{
    MatchedPort, PortLookupOutput, PortUseCase, SearchOutput, flat_links, flat_use_cases,
    pairs_view, protocol_entries,
};
use crate::query::{SupportedProtocol, selection_text};
use crate::store::{PortCategory, PortType, category_name, category_of, port_type_name};
use crate::text::{decimal_string, decimal_text};

verus! {

/// How a piece of rendered text is meant to be styled; painting it is up to the caller.
#[derive(Copy, Clone, Debug, PartialEq, Eq, Structural)]
pub enum Tint {
    Plain,
    /// A port that has known use cases.
    Found,
    /// A port without known use cases.
    Missing,
    Category,
    Link,
    Note,
    /// A protocol support classification.
    Support(PortType),
}

/// A piece of rendered text with its tint.
#[derive(Clone, Debug)]
pub struct Segment {
    pub text: String,
    pub tint: Tint,
}

pub open spec fn segs_view(v: Seq<Segment>) -> Seq<(Seq<char>, Tint)> {
    v.map_values(|s: Segment| (s.text@, s.tint))
}

pub open spec fn plural(n: nat) -> Seq<char> {
    if n == 1 {
        "case"@
    } else {
        "cases"@
    }
}

pub open spec fn protocol_label(p: SupportedProtocol) -> Seq<char> {
    match p {
        SupportedProtocol::Any => "ANY"@,
        SupportedProtocol::Tcp => "TCP"@,
        SupportedProtocol::Udp => "UDP"@,
        SupportedProtocol::Sctp => "SCTP"@,
        SupportedProtocol::Dccp => "DCCP"@,
    }
}

/// `LABEL: Support` for each listed protocol, separated by commas.
pub open spec fn protocol_segs(entries: Seq<(SupportedProtocol, PortType)>) -> Seq<(Seq<char>, Tint)>
    decreases entries.len(),
{
    if entries.len() == 0 {
        Seq::empty()
    } else {
        let e = entries.last();
        protocol_segs(entries.drop_last()) + (if entries.len() > 1 {
            seq![(", "@, Tint::Plain)]
        } else {
            Seq::empty()
        }) + seq![(protocol_label(e.0) + ": "@, Tint::Plain), (port_type_name(e.1), Tint::Support(e.1))]
    }
}

pub open spec fn use_case_protocols(uc: PortUseCase) -> Seq<(Seq<char>, Tint)> {
    protocol_segs(protocol_entries(uc.tcp, uc.udp, uc.sctp, uc.dccp))
}

/// The numbered use cases: the description, then the protocols on an indented
/// line; use cases separated by a newline.
pub open spec fn use_case_segs(ucs: Seq<PortUseCase>, indent: Seq<char>) -> Seq<(Seq<char>, Tint)>
    decreases ucs.len(),
{
    if ucs.len() == 0 {
        Seq::empty()
    } else {
        use_case_segs(ucs.drop_last(), indent) + (if ucs.len() > 1 {
            seq![("\n"@, Tint::Plain)]
        } else {
            Seq::empty()
        }) + seq![
            (
                indent + decimal_text(ucs.len()) + ": "@ + ucs.last().description@ + "\n"@ + indent
                    + indent,
                Tint::Plain,
            ),
        ] + use_case_protocols(ucs.last())
    }
}

/// Indented `tag: url` lines, separated by newlines.
pub open spec fn line_segs(pairs: Seq<(Seq<char>, Seq<char>)>, tint: Tint) -> Seq<(Seq<char>, Tint)>
    decreases pairs.len(),
{
    if pairs.len() == 0 {
        Seq::empty()
    } else {
        line_segs(pairs.drop_last(), tint) + (if pairs.len() > 1 {
            seq![("\n"@, Tint::Plain)]
        } else {
            Seq::empty()
        }) + seq![("    "@, Tint::Plain), (pairs.last().0, tint), (": "@ + pairs.last().1, Tint::Plain)]
    }
}

/// All the notes and references of a sequence of use cases, in order.
pub open spec fn flat_notes(ucs: Seq<PortUseCase>) -> Seq<(Seq<char>, Seq<char>)>
    decreases ucs.len(),
{
    if ucs.len() == 0 {
        Seq::empty()
    } else {
        flat_notes(ucs.drop_last()) + pairs_view(ucs.last().notes_and_refs@)
    }
}

/// The optional link and note sections that close an answer.
pub open spec fn sections(ucs: Seq<PortUseCase>) -> Seq<(Seq<char>, Tint)> {
    (if flat_links(ucs).len() > 0 {
        seq![("\n\nLinks:\n"@, Tint::Plain)] + line_segs(flat_links(ucs), Tint::Link)
    } else {
        Seq::empty()
    }) + (if flat_notes(ucs).len() > 0 {
        seq![("\n\nNotes and References:\n"@, Tint::Plain)] + line_segs(flat_notes(ucs), Tint::Note)
    } else {
        Seq::empty()
    })
}

/// The rendering of a lookup answer.
pub open spec fn lookup_segs(out: PortLookupOutput) -> Seq<(Seq<char>, Tint)> {
    let cat = category_name(category_of(out.lookup.number));
    match out.matched {
        None => seq![
            ("Port "@, Tint::Plain),
            (selection_text(out.lookup), Tint::Missing),
            (" is a "@, Tint::Plain),
            (cat, Tint::Category),
            (" port with no known use cases"@, Tint::Plain),
        ],
        Some(m) => seq![
            ("Port "@, Tint::Plain),
            (selection_text(out.lookup), Tint::Found),
            (" is a "@, Tint::Plain),
            (cat, Tint::Category),
            (
                " port with "@ + decimal_text(m.use_cases@.len()) + " known use "@ + plural(
                    m.use_cases@.len(),
                ) + "\n"@,
                Tint::Plain,
            ),
        ] + use_case_segs(m.use_cases@, "    "@) + sections(m.use_cases@),
    }
}

/// The heading of one group of a search answer.
pub open spec fn subtitle(p: MatchedPort) -> Seq<(Seq<char>, Tint)> {
    let n = p.use_cases@.len();
    let cat = category_name(category_of(p.number.start));
    let tail = " matched use "@ + plural(n);
    if p.number.start == p.number.end {
        seq![
            ("Port "@, Tint::Plain),
            (decimal_text(p.number.start as nat), Tint::Found),
            (" is a "@, Tint::Plain),
            (cat, Tint::Category),
            (" port with "@ + decimal_text(n) + tail, Tint::Plain),
        ]
    } else {
        seq![
            ("Port "@, Tint::Plain),
            (decimal_text(p.number.start as nat) + "-"@ + decimal_text(p.number.end as nat), Tint::Found),
            (" are "@, Tint::Plain),
            (cat, Tint::Category),
            (" ports with "@ + decimal_text(n) + tail, Tint::Plain),
        ]
    }
}

/// The groups of a search answer, separated by a blank line.
pub open spec fn group_segs(groups: Seq<MatchedPort>) -> Seq<(Seq<char>, Tint)>
    decreases groups.len(),
{
    if groups.len() == 0 {
        Seq::empty()
    } else {
        group_segs(groups.drop_last()) + (if groups.len() > 1 {
            seq![("\n\n"@, Tint::Plain)]
        } else {
            Seq::empty()
        }) + subtitle(groups.last()) + seq![("\n"@, Tint::Plain)] + use_case_segs(
            groups.last().use_cases@,
            "    "@,
        )
    }
}

/// The rendering of a search answer.
pub open spec fn search_segs(out: SearchOutput) -> Seq<(Seq<char>, Tint)> {
    let ucs = flat_use_cases(out.matched@);
    let ports = out.matched@.len();
    if ports == 0 {
        seq![("Found no matches for \""@ + out.search@ + "\" among known ports"@, Tint::Plain)]
    } else {
        seq![
            (
                "Found "@ + decimal_text(ports) + " "@ + (if ports == 1 {
                    "port or port range"@
                } else {
                    "ports or port ranges"@
                }) + " with "@ + decimal_text(ucs.len()) + " use "@ + plural(ucs.len())
                    + " matching \""@ + out.search@ + "\"\n\n"@,
                Tint::Plain,
            ),
        ] + group_segs(out.matched@) + sections(ucs)
    }
}

pub open spec fn uc_refs<'a, 'b>(v: Seq<&'b PortUseCase<'a>>) -> Seq<PortUseCase<'a>> {
    Seq::new(v.len(), |k: int| *v[k])
}

/// The links, or the notes and references, of one use case.
pub open spec fn pick_pairs(uc: PortUseCase, notes: bool) -> Seq<(Seq<char>, Seq<char>)> {
    if notes {
        pairs_view(uc.notes_and_refs@)
    } else {
        pairs_view(uc.links@)
    }
}

pub open spec fn pick_flat(ucs: Seq<PortUseCase>, notes: bool) -> Seq<(Seq<char>, Seq<char>)> {
    if notes {
        flat_notes(ucs)
    } else {
        flat_links(ucs)
    }
}

proof fn lemma_pick_flat_step(ucs: Seq<PortUseCase>, k: int, notes: bool)
    requires
        0 <= k < ucs.len(),
    ensures
        pick_flat(ucs.subrange(0, k + 1), notes) == pick_flat(ucs.subrange(0, k), notes) + pick_pairs(
            ucs[k],
            notes,
        ),
{
    assert(ucs.subrange(0, k + 1).drop_last() =~= ucs.subrange(0, k));
}

fn push_seg(out: &mut Vec<Segment>, text: String, tint: Tint)
    ensures
        segs_view(final(out)@) == segs_view(old(out)@).push((text@, tint)),
{
    let ghost t = text@;
    out.push(Segment { text, tint });
    assert(segs_view(out@) =~= segs_view(old(out)@).push((t, tint)));
}

fn push_text(out: &mut Vec<Segment>, text: &str, tint: Tint)
    ensures
        segs_view(final(out)@) == segs_view(old(out)@).push((text@, tint)),
{
    push_seg(out, String::from_str(text), tint);
}

fn cat(a: &str, b: &str) -> (r: String)
    ensures
        r@ == a@ + b@,
{
    let mut r = String::from_str(a);
    r.append(b);
    r
}

fn protocol_label_str(p: SupportedProtocol) -> (r: &'static str)
    ensures
        r@ == protocol_label(p),
{
    match p {
        SupportedProtocol::Any => "ANY",
        SupportedProtocol::Tcp => "TCP",
        SupportedProtocol::Udp => "UDP",
        SupportedProtocol::Sctp => "SCTP",
        SupportedProtocol::Dccp => "DCCP",
    }
}

fn plural_str(n: usize) -> (r: &'static str)
    ensures
        r@ == plural(n as nat),
{
    if n == 1 {
        "case"
    } else {
        "cases"
    }
}

/// Appends the protocol line of a use case.
fn protocol_segments(uc: &PortUseCase, out: &mut Vec<Segment>)
    ensures
        segs_view(final(out)@) == segs_view(old(out)@) + use_case_protocols(*uc),
{
    let entries = uc.protocols();
    let ghost start = segs_view(out@);
    let mut i: usize = 0;
    assert(start + protocol_segs(entries@.subrange(0, 0)) =~= start);
    while i < entries.len()
        invariant
            i <= entries@.len(),
            segs_view(out@) == start + protocol_segs(entries@.subrange(0, i as int)),
        decreases entries@.len() - i,
    {
        let ghost pre = segs_view(out@);
        assert(entries@.subrange(0, i + 1).drop_last() =~= entries@.subrange(0, i as int));
        assert(entries@.subrange(0, i + 1).last() == entries@[i as int]);
        if i > 0 {
            push_text(out, ", ", Tint::Plain);
        }
        let (p, t) = entries[i];
        push_seg(out, cat(protocol_label_str(p), ": "), Tint::Plain);
        push_text(out, t.name(), Tint::Support(t));
        assert(segs_view(out@) =~= start + protocol_segs(entries@.subrange(0, i + 1)));
        i = i + 1;
    }
    assert(entries@.subrange(0, entries@.len() as int) =~= entries@);
}

/// Appends the numbered use cases, each with its protocol line.
fn use_case_segments(ucs: &Vec<PortUseCase>, indent: &str, out: &mut Vec<Segment>)
    ensures
        segs_view(final(out)@) == segs_view(old(out)@) + use_case_segs(ucs@, indent@),
{
    let ghost start = segs_view(out@);
    let mut i: usize = 0;
    assert(start + use_case_segs(ucs@.subrange(0, 0), indent@) =~= start);
    while i < ucs.len()
        invariant
            i <= ucs@.len(),
            segs_view(out@) == start + use_case_segs(ucs@.subrange(0, i as int), indent@),
        decreases ucs@.len() - i,
    {
        assert(ucs@.subrange(0, i + 1).drop_last() =~= ucs@.subrange(0, i as int));
        assert(ucs@.subrange(0, i + 1).last() == ucs@[i as int]);
        if i > 0 {
            push_text(out, "\n", Tint::Plain);
        }
        let uc = &ucs[i];
        let mut line = String::from_str(indent);
        line.append(decimal_string(i + 1).as_str());
        line.append(": ");
        line.append(uc.description.as_str());
        line.append("\n");
        line.append(indent);
        line.append(indent);
        push_seg(out, line, Tint::Plain);
        protocol_segments(uc, out);
        assert(segs_view(out@) =~= start + use_case_segs(ucs@.subrange(0, i + 1), indent@));
        i = i + 1;
    }
    assert(ucs@.subrange(0, ucs@.len() as int) =~= ucs@);
}

/// The indented `tag: url` lines of all the links, or of all the notes and
/// references, of the use cases; and how many there are.
fn pair_lines(ucs: &Vec<&PortUseCase>, notes: bool, tint: Tint) -> (r: (Vec<Segment>, bool))
    ensures
        segs_view(r.0@) == line_segs(pick_flat(uc_refs(ucs@), notes), tint),
        r.1 == (pick_flat(uc_refs(ucs@), notes).len() > 0),
{
    let ghost all = uc_refs(ucs@);
    let mut out: Vec<Segment> = Vec::new();
    let mut any = false;
    let mut k: usize = 0;
    assert(segs_view(out@) =~= Seq::<(Seq<char>, Tint)>::empty());
    assert(pick_flat(all.subrange(0, 0), notes) =~= Seq::<(Seq<char>, Seq<char>)>::empty()) by {
        assert(all.subrange(0, 0).len() == 0);
    }
    while k < ucs.len()
        invariant
            all == uc_refs(ucs@),
            k <= ucs@.len(),
            segs_view(out@) == line_segs(pick_flat(all.subrange(0, k as int), notes), tint),
            any == (pick_flat(all.subrange(0, k as int), notes).len() > 0),
        decreases ucs@.len() - k,
    {
        let ghost before = pick_flat(all.subrange(0, k as int), notes);
        let list = if notes {
            &ucs[k].notes_and_refs
        } else {
            &ucs[k].links
        };
        let ghost pv = pairs_view(list@);
        assert(pv == pick_pairs(all[k as int], notes));
        let mut j: usize = 0;
        assert(before + pv.subrange(0, 0) =~= before);
        while j < list.len()
            invariant
                pv == pairs_view(list@),
                j <= list@.len(),
                segs_view(out@) == line_segs(before + pv.subrange(0, j as int), tint),
                any == ((before + pv.subrange(0, j as int)).len() > 0),
            decreases list@.len() - j,
        {
            let ghost s = before + pv.subrange(0, j as int);
            assert((before + pv.subrange(0, j + 1)).drop_last() =~= s);
            assert((before + pv.subrange(0, j + 1)).last() == pv[j as int]);
            if any {
                push_text(&mut out, "\n", Tint::Plain);
            }
            push_text(&mut out, "    ", Tint::Plain);
            push_seg(&mut out, list[j].0.clone(), tint);
            push_seg(&mut out, cat(": ", list[j].1.as_str()), Tint::Plain);
            assert(segs_view(out@) =~= line_segs(before + pv.subrange(0, j + 1), tint));
            any = true;
            j = j + 1;
        }
        assert(pv.subrange(0, list@.len() as int) =~= pv);
        proof {
            lemma_pick_flat_step(all, k as int, notes);
        }
        k = k + 1;
    }
    assert(all.subrange(0, ucs@.len() as int) =~= all);
    (out, any)
}

/// Appends the link and note sections.
fn section_segments(ucs: &Vec<&PortUseCase>, out: &mut Vec<Segment>)
    ensures
        segs_view(final(out)@) == segs_view(old(out)@) + sections(uc_refs(ucs@)),
{
    let ghost start = segs_view(out@);
    let (mut links, has_links) = pair_lines(ucs, false, Tint::Link);
    let ghost l = segs_view(links@);
    if has_links {
        push_text(out, "\n\nLinks:\n", Tint::Plain);
        let ghost o = out@;
        out.append(&mut links);
        assert(segs_view(out@) =~= segs_view(o) + l);
    }
    let ghost mid = segs_view(out@);
    let (mut notes, has_notes) = pair_lines(ucs, true, Tint::Note);
    let ghost nt = segs_view(notes@);
    if has_notes {
        push_text(out, "\n\nNotes and References:\n", Tint::Plain);
        let ghost o = out@;
        out.append(&mut notes);
        assert(segs_view(out@) =~= segs_view(o) + nt);
    }
    assert(segs_view(out@) =~= start + sections(uc_refs(ucs@)));
}

fn refs_of<'a, 'b>(ucs: &'b Vec<PortUseCase<'a>>) -> (r: Vec<&'b PortUseCase<'a>>)
    ensures
        uc_refs(r@) == ucs@,
{
    let mut r: Vec<&'b PortUseCase<'a>> = Vec::new();
    let mut i: usize = 0;
    while i < ucs.len()
        invariant
            i <= ucs@.len(),
            r@.len() == i,
            uc_refs(r@) == ucs@.subrange(0, i as int),
        decreases ucs@.len() - i,
    {
        let ghost before = r@;
        r.push(&ucs[i]);
        assert(r@ == before.push(&ucs@[i as int]));
        assert forall|k: int| 0 <= k < i + 1 implies uc_refs(r@)[k] == ucs@.subrange(0, i + 1)[k] by {
            if k < i {
                assert(uc_refs(before)[k] == ucs@.subrange(0, i as int)[k]);
            }
        }
        assert(uc_refs(r@) =~= ucs@.subrange(0, i + 1));
        i = i + 1;
    }
    assert(ucs@.subrange(0, ucs@.len() as int) =~= ucs@);
    r
}

impl<'a> PortLookupOutput<'a> {
    /// The answer laid out for reading: a summary line, the numbered use cases
    /// with their protocols, then the link and note sections when not empty.
    pub fn render(&self) -> (r: Vec<Segment>)
        ensures
            segs_view(r@) == lookup_segs(*self),
    {
        let mut out: Vec<Segment> = Vec::new();
        let number = self.lookup.to_text();
        let category = PortCategory::from_port(self.lookup.number).name();
        push_text(&mut out, "Port ", Tint::Plain);
        match &self.matched {
            None => {
                push_seg(&mut out, number, Tint::Missing);
                push_text(&mut out, " is a ", Tint::Plain);
                push_text(&mut out, category, Tint::Category);
                push_text(&mut out, " port with no known use cases", Tint::Plain);
                assert(segs_view(out@) =~= lookup_segs(*self));
            },
            Some(m) => {
                push_seg(&mut out, number, Tint::Found);
                push_text(&mut out, " is a ", Tint::Plain);
                push_text(&mut out, category, Tint::Category);
                let count = m.use_cases.len();
                let mut head = String::from_str(" port with ");
                head.append(decimal_string(count).as_str());
                head.append(" known use ");
                head.append(plural_str(count));
                head.append("\n");
                push_seg(&mut out, head, Tint::Plain);
                let ghost h = segs_view(out@);
                use_case_segments(&m.use_cases, "    ", &mut out);
                let ghost u = segs_view(out@);
                let refs = refs_of(&m.use_cases);
                section_segments(&refs, &mut out);
                proof {
                    reveal_strlit("    ");
                }
                assert(segs_view(out@) =~= lookup_segs(*self));
            },
        }
        out
    }
}

/// Appends the heading of one group.
fn subtitle_segments(p: &MatchedPort, out: &mut Vec<Segment>)
    ensures
        segs_view(final(out)@) == segs_view(old(out)@) + subtitle(*p),
{
    let n = p.use_cases.len();
    let category = PortCategory::from_port(p.number.start).name();
    push_text(out, "Port ", Tint::Plain);
    if p.number.start == p.number.end {
        push_seg(out, decimal_string(p.number.start as usize), Tint::Found);
        push_text(out, " is a ", Tint::Plain);
        push_text(out, category, Tint::Category);
        let mut tail = String::from_str(" port with ");
        tail.append(decimal_string(n).as_str());
        tail.append(" matched use ");
        tail.append(plural_str(n));
        assert(tail@ =~= " port with "@ + decimal_text(n as nat) + (" matched use "@ + plural(n as nat)));
        push_seg(out, tail, Tint::Plain);
    } else {
        let mut range = decimal_string(p.number.start as usize);
        range.append("-");
        range.append(decimal_string(p.number.end as usize).as_str());
        push_seg(out, range, Tint::Found);
        push_text(out, " are ", Tint::Plain);
        push_text(out, category, Tint::Category);
        let mut tail = String::from_str(" ports with ");
        tail.append(decimal_string(n).as_str());
        tail.append(" matched use ");
        tail.append(plural_str(n));
        assert(tail@ =~= " ports with "@ + decimal_text(n as nat) + (" matched use "@ + plural(n as nat)));
        push_seg(out, tail, Tint::Plain);
    }
    assert(segs_view(out@) =~= segs_view(old(out)@) + subtitle(*p));
}

impl<'a> SearchOutput<'a> {
    /// The answer laid out for reading: a summary line, each group with its
    /// heading and numbered use cases, then the link and note sections of all
    /// groups when not empty.
    pub fn render(&self) -> (r: Vec<Segment>)
        ensures
            segs_view(r@) == search_segs(*self),
    {
        let mut out: Vec<Segment> = Vec::new();
        let groups = &self.matched;
        if groups.len() == 0 {
            let mut line = String::from_str("Found no matches for \"");
            line.append(self.search.as_str());
            line.append("\" among known ports");
            push_seg(&mut out, line, Tint::Plain);
            assert(segs_view(out@) =~= search_segs(*self));
            return out;
        }
        // every use case, in order
        let mut all: Vec<&PortUseCase> = Vec::new();
        let mut g: usize = 0;
        assert(flat_use_cases(groups@.subrange(0, 0)) =~= Seq::<PortUseCase>::empty());
        while g < groups.len()
            invariant
                g <= groups@.len(),
                all@.len() == flat_use_cases(groups@.subrange(0, g as int)).len(),
                uc_refs(all@) == flat_use_cases(groups@.subrange(0, g as int)),
            decreases groups@.len() - g,
        {
            let ucs = &groups[g].use_cases;
            let ghost before = uc_refs(all@);
            assert(before.len() == all@.len());
            let mut i: usize = 0;
            assert(before + ucs@.subrange(0, 0) =~= before);
            while i < ucs.len()
                invariant
                    i <= ucs@.len(),
                    all@.len() == before.len() + i,
                    uc_refs(all@) == before + ucs@.subrange(0, i as int),
                decreases ucs@.len() - i,
            {
                let ghost prev = all@;
                all.push(&ucs[i]);
                assert(all@ == prev.push(&ucs@[i as int]));
                assert forall|k: int| 0 <= k < all@.len() implies uc_refs(all@)[k] == (before + ucs@.subrange(0, i + 1))[k] by {
                    if k < prev.len() {
                        assert(uc_refs(prev)[k] == (before + ucs@.subrange(0, i as int))[k]);
                    }
                }
                assert(uc_refs(all@) =~= before + ucs@.subrange(0, i + 1));
                i = i + 1;
            }
            assert(groups@.subrange(0, g + 1).drop_last() =~= groups@.subrange(0, g as int));
            assert(ucs@.subrange(0, ucs@.len() as int) =~= ucs@);
            g = g + 1;
        }
        assert(groups@.subrange(0, groups@.len() as int) =~= groups@);
        let ports = groups.len();
        let cases = all.len();
        let mut head = String::from_str("Found ");
        head.append(decimal_string(ports).as_str());
        head.append(" ");
        head.append(
            if ports == 1 {
                "port or port range"
            } else {
                "ports or port ranges"
            },
        );
        head.append(" with ");
        head.append(decimal_string(cases).as_str());
        head.append(" use ");
        head.append(plural_str(cases));
        head.append(" matching \"");
        head.append(self.search.as_str());
        head.append("\"\n\n");
        push_seg(&mut out, head, Tint::Plain);
        let ghost start = segs_view(out@);
        g = 0;
        assert(start + group_segs(groups@.subrange(0, 0)) =~= start);
        while g < groups.len()
            invariant
                g <= groups@.len(),
                segs_view(out@) == start + group_segs(groups@.subrange(0, g as int)),
            decreases groups@.len() - g,
        {
            assert(groups@.subrange(0, g + 1).drop_last() =~= groups@.subrange(0, g as int));
            assert(groups@.subrange(0, g + 1).last() == groups@[g as int]);
            if g > 0 {
                push_text(&mut out, "\n\n", Tint::Plain);
            }
            subtitle_segments(&groups[g], &mut out);
            push_text(&mut out, "\n", Tint::Plain);
            use_case_segments(&groups[g].use_cases, "    ", &mut out);
            proof {
                reveal_strlit("    ");
            }
            assert(segs_view(out@) =~= start + group_segs(groups@.subrange(0, g + 1)));
            g = g + 1;
        }
        assert(groups@.subrange(0, groups@.len() as int) =~= groups@);
        section_segments(&all, &mut out);
        assert(segs_view(out@) =~= search_segs(*self));
        out
    }
}

} // verus!
