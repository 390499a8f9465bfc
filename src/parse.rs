use vstd::prelude::*;

use crate::markup::{
    MarkupNode, Pick, attr_of, children_of, is_element_named, node_text, nodes, select_below,
    select_in,
};
use crate::query::{find_first_of, first_of};
use crate::rich_text::{SpanView, parse_cell, parse_rich_text_cell, spans_view};
use crate::store::{
    PortCategory, PortDatabase, PortRange, PortRangeInfo, PortType, category_of, keyword_type,
};
use crate::text::{parse_u16, parse_usize, parsed_u16, parsed_usize, trim_text, trimmed};

verus! {

/// A structural defect of the document that aborts the whole parse.
#[derive(Copy, Clone, Debug, PartialEq, Eq, Structural)]
pub enum ParseError {
    /// A selected port table is not a `table` element.
    NotATable,
    /// A port table has no rows.
    EmptyTable,
    /// A row holds no data cell.
    EmptyRow,
    /// A cell that should be a `td` element is not one.
    NotACell,
    /// A row or column span attribute is not an unsigned number.
    InvalidSpan,
    /// A port range cell does not hold one port or two ports joined by a dash.
    InvalidPortNumber,
    /// A port range starts and ends in different categories.
    CategoryCrossed,
    /// The table ended before all rows of a multi-row port range.
    MissingSpannedRow,
    /// The protocol cells of a row span fewer than four columns.
    OutOfTypeCells,
    /// The protocol cells of a row span more than four columns.
    TypeCellsTooWide,
    /// A row has no description cell after its protocol cells.
    NoDescriptionCell,
}

/// The mathematical value of a [`PortRangeInfo`].
pub struct RecordView {
    pub number: PortRange,
    pub tcp: PortType,
    pub udp: PortType,
    pub sctp: PortType,
    pub dccp: PortType,
    pub description: Seq<SpanView>,
}

pub open spec fn record_view(info: PortRangeInfo) -> RecordView {
    RecordView {
        number: info.number,
        tcp: info.tcp_type,
        udp: info.udp_type,
        sctp: info.sctp_type,
        dccp: info.dccp_type,
        description: spans_view(info.rich_description@),
    }
}

pub open spec fn records_view(s: Seq<PortRangeInfo>) -> Seq<RecordView> {
    s.map_values(|info: PortRangeInfo| record_view(info))
}

/// A row or column span attribute: 1 when absent.
pub open spec fn span_attr(n: MarkupNode, name: Seq<char>) -> Result<usize, ParseError> {
    match attr_of(n, name) {
        None => Ok(1),
        Some(v) => match parsed_usize(v) {
            Some(k) => Ok(k),
            None => Err(ParseError::InvalidSpan),
        },
    }
}

/// The text of a range cell's children, superscripts left out, each text piece trimmed.
pub open spec fn range_text(s: Seq<MarkupNode>) -> Seq<char>
    decreases s.len(),
{
    if s.len() == 0 {
        Seq::empty()
    } else {
        range_text(s.drop_last()) + if is_element_named(s.last(), "sup"@) {
            Seq::empty()
        } else {
            node_text(s.last(), true)
        }
    }
}

/// The range a text writes: one port, or two joined at the first `-` or en dash.
pub open spec fn range_of_text(t: Seq<char>) -> Option<PortRange> {
    match first_of(t, '-', '\u{2013}', 0) {
        Some(k) => match (parsed_u16(t.subrange(0, k)), parsed_u16(t.subrange(k + 1, t.len() as int))) {
            (Some(a), Some(b)) => Some(PortRange { start: a, end: b }),
            _ => None,
        },
        None => match parsed_u16(t) {
            Some(p) => Some(PortRange { start: p, end: p }),
            None => None,
        },
    }
}

/// The port range of a range cell and the number of rows it spans.
pub open spec fn port_range_cell(n: MarkupNode) -> Result<(PortRange, usize), ParseError> {
    if !is_element_named(n, "td"@) {
        Err(ParseError::NotACell)
    } else {
        match span_attr(n, "rowspan"@) {
            Err(e) => Err(e),
            Ok(span) => match range_of_text(range_text(children_of(n))) {
                None => Err(ParseError::InvalidPortNumber),
                Some(r) => if category_of(r.start) != category_of(r.end) {
                    Err(ParseError::CategoryCrossed)
                } else {
                    Ok((r, span))
                },
            },
        }
    }
}

/// The classification named by the first text piece that is a keyword once trimmed.
pub open spec fn classify_texts(s: Seq<MarkupNode>) -> PortType
    decreases s.len(),
{
    if s.len() == 0 {
        PortType::Unused
    } else {
        match keyword_type(trimmed(node_text(s[0], false))) {
            Some(t) => t,
            None => classify_texts(s.drop_first()),
        }
    }
}

/// The classification of a protocol cell.
pub open spec fn cell_type(n: MarkupNode) -> Result<PortType, ParseError> {
    if !is_element_named(n, "td"@) {
        Err(ParseError::NotACell)
    } else {
        Ok(classify_texts(select_below(n, Pick::TextNode)))
    }
}

/// Fills the four protocol columns from the cells at `i` on; gives the columns and
/// the index of the first cell after them.
pub open spec fn type_cells(cells: Seq<MarkupNode>, i: int, filled: Seq<PortType>) -> Result<
    (Seq<PortType>, int),
    ParseError,
>
    decreases cells.len() - i,
{
    if filled.len() >= 4 {
        Ok((filled, i))
    } else if i < 0 || i >= cells.len() {
        Err(ParseError::OutOfTypeCells)
    } else {
        match span_attr(cells[i], "colspan"@) {
            Err(e) => Err(e),
            Ok(span) => match cell_type(cells[i]) {
                Err(e) => Err(e),
                Ok(t) => if span > 4 - filled.len() {
                    Err(ParseError::TypeCellsTooWide)
                } else {
                    type_cells(cells, i + 1, filled + Seq::new(span as nat, |_j: int| t))
                },
            },
        }
    }
}

/// The record of a row whose protocol cells start at `from`.
pub open spec fn row_info(range: PortRange, cells: Seq<MarkupNode>, from: int) -> Result<
    RecordView,
    ParseError,
> {
    match type_cells(cells, from, Seq::empty()) {
        Err(e) => Err(e),
        Ok((types, i)) => if i >= cells.len() {
            Err(ParseError::NoDescriptionCell)
        } else {
            match parse_cell(cells[i]) {
                Err(e) => Err(e),
                Ok(d) => Ok(
                    RecordView {
                        number: range,
                        tcp: types[0],
                        udp: types[1],
                        sctp: types[2],
                        dccp: types[3],
                        description: d,
                    },
                ),
            }
        },
    }
}

pub open spec fn prepend(x: RecordView, r: Result<Seq<RecordView>, ParseError>) -> Result<
    Seq<RecordView>,
    ParseError,
> {
    match r {
        Ok(s) => Ok(seq![x] + s),
        Err(e) => Err(e),
    }
}

/// The records of the rows from `i` on, when `pending` rows still belong to `range`.
pub open spec fn rows_from(rows: Seq<MarkupNode>, i: int, pending: nat, range: PortRange) -> Result<
    Seq<RecordView>,
    ParseError,
>
    decreases rows.len() - i,
{
    if i < 0 || i >= rows.len() {
        if pending > 0 {
            Err(ParseError::MissingSpannedRow)
        } else {
            Ok(Seq::empty())
        }
    } else if pending > 0 {
        match row_info(range, select_below(rows[i], Pick::DataCell), 0) {
            Err(e) => Err(e),
            Ok(info) => prepend(info, rows_from(rows, i + 1, (pending - 1) as nat, range)),
        }
    } else {
        let cells = select_below(rows[i], Pick::DataCell);
        if cells.len() == 0 {
            Err(ParseError::EmptyRow)
        } else {
            match port_range_cell(cells[0]) {
                Err(e) => Err(e),
                Ok((r, span)) => match row_info(r, cells, 1) {
                    Err(e) => Err(e),
                    Ok(info) => prepend(
                        info,
                        rows_from(
                            rows,
                            i + 1,
                            if span > 0 {
                                (span - 1) as nat
                            } else {
                                0
                            },
                            r,
                        ),
                    ),
                },
            }
        }
    }
}

/// The records of one port table.
pub open spec fn table_records(t: MarkupNode) -> Result<Seq<RecordView>, ParseError> {
    if !is_element_named(t, "table"@) {
        Err(ParseError::NotATable)
    } else {
        let rows = select_below(t, Pick::BodyRow);
        if rows.len() == 0 {
            Err(ParseError::EmptyTable)
        } else {
            let first = if select_below(rows[0], Pick::DataCell).len() == 0 {
                1int
            } else {
                0int
            };
            rows_from(rows, first, 0, PortRange { start: 0, end: 0 })
        }
    }
}

/// The records of a sequence of tables, in order, or the first error.
pub open spec fn tables_records(ts: Seq<MarkupNode>) -> Result<Seq<RecordView>, ParseError>
    decreases ts.len(),
{
    if ts.len() == 0 {
        Ok(Seq::empty())
    } else {
        match tables_records(ts.drop_last()) {
            Err(e) => Err(e),
            Ok(a) => match table_records(ts.last()) {
                Err(e) => Err(e),
                Ok(b) => Ok(a + b),
            },
        }
    }
}

/// The records of a whole document: those of its sortable port tables, in order.
pub open spec fn document_records(doc: MarkupNode) -> Result<Seq<RecordView>, ParseError> {
    tables_records(select_in(doc, Pick::SortableTable, false))
}

/// The records already built, followed by those the rest of the rows give.
pub open spec fn prepend_all(acc: Seq<RecordView>, r: Result<Seq<RecordView>, ParseError>) -> Result<
    Seq<RecordView>,
    ParseError,
> {
    match r {
        Ok(s) => Ok(acc + s),
        Err(e) => Err(e),
    }
}

proof fn lemma_prepend_all_step(
    acc: Seq<RecordView>,
    x: RecordView,
    rest: Result<Seq<RecordView>, ParseError>,
)
    ensures
        prepend_all(acc, prepend(x, rest)) == prepend_all(acc.push(x), rest),
{
    match rest {
        Ok(s) => {
            assert(acc + (seq![x] + s) =~= acc.push(x) + s);
        },
        Err(_) => {},
    }
}

proof fn lemma_records_view_push(a: Seq<PortRangeInfo>, x: PortRangeInfo)
    ensures
        records_view(a.push(x)) == records_view(a).push(record_view(x)),
{
    assert(records_view(a.push(x)) =~= records_view(a).push(record_view(x)));
}

proof fn lemma_tables_err_prefix(s: Seq<MarkupNode>, k: int)
    requires
        0 <= k <= s.len(),
        tables_records(s.subrange(0, k)) is Err,
    ensures
        tables_records(s) == tables_records(s.subrange(0, k)),
    decreases s.len() - k,
{
    if k < s.len() {
        assert(s.subrange(0, k + 1).drop_last() =~= s.subrange(0, k));
        lemma_tables_err_prefix(s, k + 1);
    } else {
        assert(s.subrange(0, k) =~= s);
    }
}

/// Reads a row or column span attribute; 1 when absent.
fn span_of(n: &MarkupNode, name: &str) -> (r: Result<usize, ParseError>)
    ensures
        r == span_attr(*n, name@),
{
    match n.attr(name) {
        None => Ok(1),
        Some(v) => match parse_usize(v.as_str()) {
            Some(k) => Ok(k),
            None => Err(ParseError::InvalidSpan),
        },
    }
}

/// The range a text writes: one port, or two joined at the first `-` or en dash.
pub fn range_from_text(t: &str) -> (r: Option<PortRange>)
    ensures
        r == range_of_text(t@),
{
    let n = t.unicode_len();
    match find_first_of(t, '-', '\u{2013}') {
        Some(k) => {
            let a = parse_u16(t.substring_char(0, k));
            let b = parse_u16(t.substring_char(k + 1, n));
            match (a, b) {
                (Some(a), Some(b)) => Some(PortRange { start: a, end: b }),
                _ => None,
            }
        },
        None => match parse_u16(t) {
            Some(p) => Some(PortRange { start: p, end: p }),
            None => None,
        },
    }
}

/// Parses the cell that holds a port range, in the first column of a table: gives
/// the range and the number of rows it spans.
pub fn parse_port_range(cell: &MarkupNode) -> (r: Result<(PortRange, usize), ParseError>)
    ensures
        r == port_range_cell(*cell),
{
    if !cell.is_named("td") {
        return Err(ParseError::NotACell);
    }
    let span = match span_of(cell, "rowspan") {
        Ok(k) => k,
        Err(e) => return Err(e),
    };
    let children = cell.children();
    let mut text = String::new();
    let mut i: usize = 0;
    while i < children.len()
        invariant
            children@ == children_of(*cell),
            i <= children@.len(),
            text@ == range_text(children@.subrange(0, i as int)),
        decreases children@.len() - i,
    {
        assert(children@.subrange(0, i + 1).drop_last() =~= children@.subrange(0, i as int));
        if !children[i].is_named("sup") {
            let piece = children[i].text(true);
            text.append(piece.as_str());
        }
        i = i + 1;
    }
    assert(children@.subrange(0, children@.len() as int) =~= children@);
    let range = match range_from_text(text.as_str()) {
        Some(r) => r,
        None => return Err(ParseError::InvalidPortNumber),
    };
    match PortCategory::of_range(range) {
        Ok(_) => Ok((range, span)),
        Err(e) => Err(e),
    }
}

impl PortType {
    /// Classifies a protocol cell by the first of its text pieces that is, once
    /// trimmed, one of the keywords; `Unused` when none is.
    pub fn from_cell(cell: &MarkupNode) -> (r: Result<PortType, ParseError>)
        ensures
            r == cell_type(*cell),
    {
        if !cell.is_named("td") {
            return Err(ParseError::NotACell);
        }
        let texts = cell.select_below(Pick::TextNode);
        let ghost ts = nodes(texts@);
        let mut i: usize = 0;
        assert(ts.subrange(0, ts.len() as int) =~= ts);
        while i < texts.len()
            invariant
                ts == nodes(texts@),
                ts == select_below(*cell, Pick::TextNode),
                is_element_named(*cell, "td"@),
                i <= texts@.len(),
                classify_texts(ts) == classify_texts(ts.subrange(i as int, ts.len() as int)),
            decreases texts@.len() - i,
        {
            let ghost rest = ts.subrange(i as int, ts.len() as int);
            assert(rest.drop_first() =~= ts.subrange(i + 1, ts.len() as int));
            assert(rest[0] == *texts@[i as int]);
            let piece = texts[i].text(false);
            let t = trim_text(piece.as_str());
            assert(rest.len() > 0);
            assert(node_text(rest[0], false) == piece@);
            if let Some(k) = PortType::from_keyword(t.as_str()) {
                assert(classify_texts(rest) == k);
                return Ok(k);
            }
            i = i + 1;
        }
        assert(ts.subrange(i as int, ts.len() as int).len() == 0);
        Ok(PortType::Unused)
    }
}

/// Fills the four protocol columns from the cells at `from` on; gives the columns
/// and the index of the first cell after them.
fn fill_types(cells: &Vec<&MarkupNode>, from: usize) -> (r: Result<(Vec<PortType>, usize), ParseError>)
    requires
        from <= cells@.len(),
    ensures
        match r {
            Ok((t, i)) => type_cells(nodes(cells@), from as int, Seq::empty()) == Ok::<
                (Seq<PortType>, int),
                ParseError,
            >((t@, i as int)) && t@.len() == 4,
            Err(e) => type_cells(nodes(cells@), from as int, Seq::empty()) == Err::<
                (Seq<PortType>, int),
                ParseError,
            >(e),
        },
{
    let ghost cs = nodes(cells@);
    let mut types: Vec<PortType> = Vec::new();
    let mut i = from;
    while types.len() < 4
        invariant
            cs == nodes(cells@),
            from <= i <= cells@.len(),
            types@.len() <= 4,
            type_cells(cs, from as int, Seq::empty()) == type_cells(cs, i as int, types@),
        decreases cells@.len() - i,
    {
        if i >= cells.len() {
            return Err(ParseError::OutOfTypeCells);
        }
        let span = match span_of(cells[i], "colspan") {
            Ok(k) => k,
            Err(e) => return Err(e),
        };
        let t = match PortType::from_cell(cells[i]) {
            Ok(t) => t,
            Err(e) => return Err(e),
        };
        if span > 4 - types.len() {
            return Err(ParseError::TypeCellsTooWide);
        }
        let ghost before = types@;
        let mut k: usize = 0;
        while k < span
            invariant
                k <= span,
                types@ == before + Seq::new(k as nat, |_j: int| t),
            decreases span - k,
        {
            types.push(t);
            k = k + 1;
            assert(types@ =~= before + Seq::new(k as nat, |_j: int| t));
        }
        i = i + 1;
    }
    Ok((types, i))
}

/// Parses a row's protocol cells, starting at `from`, and its description cell
/// into a record of `port_range`.
fn parse_row_info(port_range: PortRange, cells: &Vec<&MarkupNode>, from: usize) -> (r: Result<
    PortRangeInfo,
    ParseError,
>)
    requires
        from <= cells@.len(),
    ensures
        match r {
            Ok(info) => row_info(port_range, nodes(cells@), from as int) == Ok::<
                RecordView,
                ParseError,
            >(record_view(info)) && info.number == port_range,
            Err(e) => row_info(port_range, nodes(cells@), from as int) == Err::<
                RecordView,
                ParseError,
            >(e),
        },
{
    let (types, i) = match fill_types(cells, from) {
        Ok(f) => f,
        Err(e) => return Err(e),
    };
    if i >= cells.len() {
        return Err(ParseError::NoDescriptionCell);
    }
    let rich_description = match parse_rich_text_cell(cells[i]) {
        Ok(d) => d,
        Err(e) => return Err(e),
    };
    Ok(
        PortRangeInfo {
            number: port_range,
            tcp_type: types[0],
            udp_type: types[1],
            sctp_type: types[2],
            dccp_type: types[3],
            rich_description,
        },
    )
}

/// Parses one port table. A range cell spanning several rows gives one record
/// for each of them, all with its range.
pub fn parse_table(table: &MarkupNode) -> (r: Result<Vec<PortRangeInfo>, ParseError>)
    ensures
        match r {
            Ok(v) => table_records(*table) == Ok::<Seq<RecordView>, ParseError>(records_view(v@))
                && forall|k: int| 0 <= k < v@.len() ==> (#[trigger] v@[k]).well_formed(),
            Err(e) => table_records(*table) == Err::<Seq<RecordView>, ParseError>(e),
        },
{
    if !table.is_named("table") {
        return Err(ParseError::NotATable);
    }
    let rows = table.select_below(Pick::BodyRow);
    let ghost rs = nodes(rows@);
    if rows.len() == 0 {
        return Err(ParseError::EmptyTable);
    }
    let first_cells = rows[0].select_below(Pick::DataCell);
    let mut i: usize = if first_cells.len() == 0 {
        1
    } else {
        0
    };
    let mut pending: usize = 0;
    let mut range = PortRange { start: 0, end: 0 };
    let mut list: Vec<PortRangeInfo> = Vec::new();
    assert(records_view(list@) =~= Seq::<RecordView>::empty());
    proof {
        match rows_from(rs, i as int, 0, range) {
            Ok(t) => {
                assert(Seq::<RecordView>::empty() + t =~= t);
            },
            Err(_) => {},
        }
    }
    loop
        invariant
            rs == nodes(rows@),
            rs == select_below(*table, Pick::BodyRow),
            i <= rows@.len(),
            pending > 0 ==> category_of(range.start) == category_of(range.end),
            forall|k: int| 0 <= k < list@.len() ==> (#[trigger] list@[k]).well_formed(),
            table_records(*table) == prepend_all(
                records_view(list@),
                rows_from(rs, i as int, pending as nat, range),
            ),
        decreases rows@.len() - i,
    {
        if i >= rows.len() {
            if pending > 0 {
                return Err(ParseError::MissingSpannedRow);
            }
            assert(records_view(list@) + Seq::<RecordView>::empty() =~= records_view(list@));
            return Ok(list);
        }
        let cells = rows[i].select_below(Pick::DataCell);
        assert(rs[i as int] == *rows@[i as int]);
        if pending > 0 {
            let info = match parse_row_info(range, &cells, 0) {
                Ok(info) => info,
                Err(e) => return Err(e),
            };
            proof {
                lemma_prepend_all_step(
                    records_view(list@),
                    record_view(info),
                    rows_from(rs, i + 1, (pending - 1) as nat, range),
                );
                lemma_records_view_push(list@, info);
            }
            list.push(info);
            pending = pending - 1;
        } else {
            if cells.len() == 0 {
                return Err(ParseError::EmptyRow);
            }
            let (r, span) = match parse_port_range(cells[0]) {
                Ok(p) => p,
                Err(e) => return Err(e),
            };
            let info = match parse_row_info(r, &cells, 1) {
                Ok(info) => info,
                Err(e) => return Err(e),
            };
            let next_pending: usize = if span > 0 {
                span - 1
            } else {
                0
            };
            proof {
                lemma_prepend_all_step(
                    records_view(list@),
                    record_view(info),
                    rows_from(rs, i + 1, next_pending as nat, r),
                );
                lemma_records_view_push(list@, info);
            }
            list.push(info);
            pending = next_pending;
            range = r;
        }
        i = i + 1;
    }
}

/// Parses a whole document: the records of all its sortable port tables, in
/// document order. Any structural defect fails the whole parse.
pub fn parse_page(document: &MarkupNode) -> (r: Result<PortDatabase, ParseError>)
    ensures
        match r {
            Ok(db) => document_records(*document) == Ok::<Seq<RecordView>, ParseError>(
                records_view(db.0@),
            ) && db.well_formed(),
            Err(e) => document_records(*document) == Err::<Seq<RecordView>, ParseError>(e),
        },
{
    let mut tables: Vec<&MarkupNode> = Vec::new();
    document.select_into(Pick::SortableTable, false, &mut tables);
    assert(nodes(tables@) =~= select_in(*document, Pick::SortableTable, false));
    let ghost ts = nodes(tables@);
    let mut list: Vec<PortRangeInfo> = Vec::new();
    assert(records_view(list@) =~= Seq::<RecordView>::empty());
    let mut i: usize = 0;
    while i < tables.len()
        invariant
            ts == nodes(tables@),
            ts == select_in(*document, Pick::SortableTable, false),
            i <= tables@.len(),
            tables_records(ts.subrange(0, i as int)) == Ok::<Seq<RecordView>, ParseError>(
                records_view(list@),
            ),
            forall|k: int| 0 <= k < list@.len() ==> (#[trigger] list@[k]).well_formed(),
        decreases tables@.len() - i,
    {
        assert(ts.subrange(0, i + 1).drop_last() =~= ts.subrange(0, i as int));
        assert(ts.subrange(0, i + 1).last() == *tables@[i as int]);
        match parse_table(tables[i]) {
            Ok(v) => {
                let mut v = v;
                let ghost a = list@;
                let ghost b = v@;
                list.append(&mut v);
                assert(records_view(list@) =~= records_view(a) + records_view(b));
                assert forall|k: int| 0 <= k < list@.len() implies (#[trigger] list@[k]).well_formed() by {
                    if k >= a.len() {
                        assert(list@[k] == b[k - a.len()]);
                    }
                }
            },
            Err(e) => {
                proof {
                    lemma_tables_err_prefix(ts, i + 1);
                }
                return Err(e);
            },
        }
        i = i + 1;
    }
    assert(ts.subrange(0, tables@.len() as int) =~= ts);
    Ok(PortDatabase(list))
}

} // verus!
