//! Table extraction: rows and cells are found anywhere below the table, in
//! document order; the first row with cells gives the headers and every
//! later one a record.
use vstd::prelude::*;
use crate::html::{HtmlElement, HtmlNode};
use crate::reduced::{TableData, TableView, table_view, record_view};
use crate::text::{clean_spec, clean_text};
use crate::tags::same_text;
use vstd::string::StringExecFns;

verus! {

broadcast use vstd::std_specs::vec::group_vec_axioms, vstd::seq::group_seq_axioms;

/// Whether an element named `name` is selected: a cell (`th` or `td`) when
/// `cells` holds, a row (`tr`) otherwise.
pub open spec fn is_selected(name: Seq<char>, cells: bool) -> bool {
    if cells {
        name == "th"@ || name == "td"@
    } else {
        name == "tr"@
    }
}

/// The selected elements among `s` and their descendants, in document order.
pub open spec fn selected_in(s: Seq<HtmlNode>, cells: bool) -> Seq<HtmlElement>
    decreases s,
{
    if s.len() == 0 {
        Seq::empty()
    } else {
        selected_in(s.drop_last(), cells) + selected_below(s.last(), cells)
    }
}

/// The selected elements among `n` and its descendants, in document order.
pub open spec fn selected_below(n: HtmlNode, cells: bool) -> Seq<HtmlElement>
    decreases n,
{
    match n {
        HtmlNode::Element(e) => (if is_selected(e.name@, cells) {
            seq![e]
        } else {
            Seq::empty()
        }) + selected_in(e.children@, cells),
        _ => Seq::empty(),
    }
}

/// The text of the text nodes among `s` and their descendants, concatenated.
pub open spec fn text_in(s: Seq<HtmlNode>) -> Seq<char>
    decreases s,
{
    if s.len() == 0 {
        Seq::empty()
    } else {
        text_in(s.drop_last()) + text_below(s.last())
    }
}

/// The text of the text nodes among `n` and its descendants, concatenated.
pub open spec fn text_below(n: HtmlNode) -> Seq<char>
    decreases n,
{
    match n {
        HtmlNode::Element(e) => text_in(e.children@),
        HtmlNode::Text(t) => t@,
        HtmlNode::Other => Seq::empty(),
    }
}

/// The cleaned texts of the cells of `row`.
pub open spec fn cell_values(row: HtmlElement) -> Seq<Seq<char>> {
    selected_in(row.children@, true).map_values(|c: HtmlElement| clean_spec(text_in(c.children@)))
}

/// The cell lists of the rows among `s` and their descendants.
pub open spec fn row_cells_in(s: Seq<HtmlNode>) -> Seq<Seq<Seq<char>>> {
    selected_in(s, false).map_values(|r: HtmlElement| cell_values(r))
}

/// The decimal digits of `n`.
pub open spec fn decimal(n: nat) -> Seq<char>
    decreases n,
{
    if n < 10 {
        seq![seq!['0', '1', '2', '3', '4', '5', '6', '7', '8', '9'][n as int]]
    } else {
        decimal(n / 10) + seq![seq!['0', '1', '2', '3', '4', '5', '6', '7', '8', '9'][(n % 10) as int]]
    }
}

/// The field name of the cell at `i` of a row under `headers`.
pub open spec fn field_name(headers: Seq<Seq<char>>, i: int) -> Seq<char> {
    if i < headers.len() {
        headers[i]
    } else {
        "col"@ + decimal(i as nat)
    }
}

/// The record of a data row: each cell value under its field name.
pub open spec fn record_of(headers: Seq<Seq<char>>, cells: Seq<Seq<char>>) -> Seq<
    (Seq<char>, Seq<char>),
> {
    cells.map(|i: int, v: Seq<char>| (field_name(headers, i), v))
}

/// The record set built from a table's cell lists, row by row, and whether a
/// header row has been seen.
pub open spec fn table_fold(rows: Seq<Seq<Seq<char>>>) -> (bool, TableView)
    decreases rows.len(),
{
    if rows.len() == 0 {
        (false, TableView { headers: Seq::empty(), rows: Seq::empty() })
    } else {
        let prev = table_fold(rows.drop_last());
        let cells = rows.last();
        if cells.len() == 0 {
            prev
        } else if !prev.0 {
            (true, TableView { headers: cells, rows: prev.1.rows })
        } else {
            (
                true,
                TableView {
                    headers: prev.1.headers,
                    rows: prev.1.rows.push(record_of(prev.1.headers, cells)),
                },
            )
        }
    }
}

/// The record set of the table element `t`.
pub open spec fn table_spec(t: HtmlElement) -> TableView {
    table_fold(row_cells_in(t.children@)).1
}

pub open spec fn strs_view(v: Seq<String>) -> Seq<Seq<char>> {
    v.map_values(|s: String| s@)
}

/// The decimal digits of `n`.
fn decimal_text(n: usize) -> (r: String)
    ensures
        r@ == decimal(n as nat),
    decreases n,
{
    let digits = "0123456789";
    proof {
        reveal_strlit("0123456789");
        assert(digits@ =~= seq!['0', '1', '2', '3', '4', '5', '6', '7', '8', '9']);
    }
    if n < 10 {
        let d = digits.substring_char(n, n + 1);
        assert(d@ =~= seq![digits@[n as int]]);
        <String as StringExecFns>::from_str(d)
    } else {
        let mut s = decimal_text(n / 10);
        let d = digits.substring_char(n % 10, n % 10 + 1);
        assert(d@ =~= seq![digits@[(n % 10) as int]]);
        s.append(d);
        s
    }
}

/// "col" followed by the decimal digits of `i`.
fn col_key(i: usize) -> (r: String)
    ensures
        r@ == "col"@ + decimal(i as nat),
{
    let mut s = <String as StringExecFns>::from_str("col");
    let d = decimal_text(i);
    s.append(d.as_str());
    s
}

/// Appends to `out` the text of the text nodes among `nodes` and below.
fn text_into(nodes: &Vec<HtmlNode>, out: &mut String)
    ensures
        final(out)@ == old(out)@ + text_in(nodes@),
    decreases nodes,
{
    let mut i: usize = 0;
    while i < nodes.len()
        invariant
            i <= nodes@.len(),
            out@ == old(out)@ + text_in(nodes@.subrange(0, i as int)),
        decreases nodes@.len() - i,
    {
        let ghost before = out@;
        match &nodes[i] {
            HtmlNode::Element(e) => {
                text_into(&e.children, out);
            },
            HtmlNode::Text(t) => {
                out.append(t.as_str());
            },
            HtmlNode::Other => {},
        }
        let ghost pre = nodes@.subrange(0, i as int);
        let ghost cur = nodes@.subrange(0, i + 1);
        assert(cur.drop_last() =~= pre);
        assert(cur.last() == nodes@[i as int]);
        assert(text_in(cur) == text_in(pre) + text_below(nodes@[i as int]));
        assert(out@ == before + text_below(nodes@[i as int]));
        assert(out@ =~= old(out)@ + text_in(cur));
        i = i + 1;
    }
    assert(nodes@.subrange(0, nodes@.len() as int) =~= nodes@);
}

/// Appends to `out` the cleaned text of each cell among `nodes` and below.
fn cells_into(nodes: &Vec<HtmlNode>, out: &mut Vec<String>)
    ensures
        strs_view(final(out)@) == strs_view(old(out)@) + selected_in(nodes@, true).map_values(
            |c: HtmlElement| clean_spec(text_in(c.children@)),
        ),
    decreases nodes,
{
    let mut i: usize = 0;
    while i < nodes.len()
        invariant
            i <= nodes@.len(),
            strs_view(out@) == strs_view(old(out)@) + selected_in(
                nodes@.subrange(0, i as int),
                true,
            ).map_values(|c: HtmlElement| clean_spec(text_in(c.children@))),
        decreases nodes@.len() - i,
    {
        let ghost before = out@;
        if let HtmlNode::Element(e) = &nodes[i] {
            if same_text(e.name.as_str(), "th") || same_text(e.name.as_str(), "td") {
                let mut raw = String::new();
                text_into(&e.children, &mut raw);
                assert(raw@ =~= text_in(e.children@));
                out.push(clean_text(raw.as_str()));
                assert(strs_view(out@) =~= strs_view(before).push(clean_spec(text_in(e.children@))));
            }
            let ghost mid = out@;
            cells_into(&e.children, out);
            let ghost f = |c: HtmlElement| clean_spec(text_in(c.children@));
            let ghost own: Seq<HtmlElement> = if is_selected(e.name@, true) { seq![*e] } else { Seq::empty() };
            assert(selected_below(nodes@[i as int], true) == own + selected_in(e.children@, true));
            assert((own + selected_in(e.children@, true)).map_values(f) =~= own.map_values(f) + selected_in(e.children@, true).map_values(f));
            assert(strs_view(mid) =~= strs_view(before) + own.map_values(f));
        }
        let ghost f = |c: HtmlElement| clean_spec(text_in(c.children@));
        let ghost pre = nodes@.subrange(0, i as int);
        let ghost cur = nodes@.subrange(0, i + 1);
        assert(cur.drop_last() =~= pre);
        assert(cur.last() == nodes@[i as int]);
        assert(selected_in(cur, true) == selected_in(pre, true) + selected_below(nodes@[i as int], true));
        assert(strs_view(out@) =~= strs_view(before) + selected_below(nodes@[i as int], true).map_values(f));
        assert((selected_in(pre, true) + selected_below(nodes@[i as int], true)).map_values(f)
            =~= selected_in(pre, true).map_values(f) + selected_below(nodes@[i as int], true).map_values(f));
        assert(strs_view(out@) =~= strs_view(old(out)@) + selected_in(cur, true).map_values(f));
        i = i + 1;
    }
    assert(nodes@.subrange(0, nodes@.len() as int) =~= nodes@);
}


pub open spec fn rows_view(v: Seq<Vec<String>>) -> Seq<Seq<Seq<char>>> {
    v.map_values(|r: Vec<String>| strs_view(r@))
}

/// Appends to `out` the cell list of each row among `nodes` and below.
fn row_cells_into(nodes: &Vec<HtmlNode>, out: &mut Vec<Vec<String>>)
    ensures
        rows_view(final(out)@) == rows_view(old(out)@) + row_cells_in(nodes@),
    decreases nodes,
{
    let mut i: usize = 0;
    while i < nodes.len()
        invariant
            i <= nodes@.len(),
            rows_view(out@) == rows_view(old(out)@) + row_cells_in(nodes@.subrange(0, i as int)),
        decreases nodes@.len() - i,
    {
        let ghost before = out@;
        let ghost f = |r: HtmlElement| cell_values(r);
        if let HtmlNode::Element(e) = &nodes[i] {
            if same_text(e.name.as_str(), "tr") {
                let mut cells: Vec<String> = Vec::new();
                cells_into(&e.children, &mut cells);
                assert(strs_view(cells@) =~= cell_values(*e));
                out.push(cells);
                assert(rows_view(out@) =~= rows_view(before).push(cell_values(*e)));
            }
            let ghost mid = out@;
            row_cells_into(&e.children, out);
            let ghost own: Seq<HtmlElement> = if is_selected(e.name@, false) {
                seq![*e]
            } else {
                Seq::empty()
            };
            assert(selected_below(nodes@[i as int], false) == own + selected_in(e.children@, false));
            assert((own + selected_in(e.children@, false)).map_values(f) =~= own.map_values(f)
                + selected_in(e.children@, false).map_values(f));
            assert(rows_view(mid) =~= rows_view(before) + own.map_values(f));
        }
        let ghost pre = nodes@.subrange(0, i as int);
        let ghost cur = nodes@.subrange(0, i + 1);
        assert(cur.drop_last() =~= pre);
        assert(cur.last() == nodes@[i as int]);
        assert(selected_in(cur, false) == selected_in(pre, false) + selected_below(
            nodes@[i as int],
            false,
        ));
        assert(rows_view(out@) =~= rows_view(before) + selected_below(
            nodes@[i as int],
            false,
        ).map_values(f));
        assert((selected_in(pre, false) + selected_below(nodes@[i as int], false)).map_values(f)
            =~= selected_in(pre, false).map_values(f) + selected_below(
            nodes@[i as int],
            false,
        ).map_values(f));
        assert(rows_view(out@) =~= rows_view(old(out)@) + row_cells_in(cur));
        i = i + 1;
    }
    assert(nodes@.subrange(0, nodes@.len() as int) =~= nodes@);
}

/// The record of a data row with the given cells under `headers`.
fn make_record(headers: &Vec<String>, cells: &Vec<String>) -> (r: Vec<(String, String)>)
    ensures
        record_view(r) == record_of(strs_view(headers@), strs_view(cells@)),
{
    let mut rec: Vec<(String, String)> = Vec::new();
    let mut i: usize = 0;
    while i < cells.len()
        invariant
            i <= cells@.len(),
            record_view(rec) =~= record_of(strs_view(headers@), strs_view(cells@)).subrange(
                0,
                i as int,
            ),
        decreases cells@.len() - i,
    {
        let key = if i < headers.len() {
            headers[i].clone()
        } else {
            col_key(i)
        };
        assert(key@ == field_name(strs_view(headers@), i as int));
        let ghost before = record_view(rec);
        let ghost before_raw = rec@;
        assert(before.len() == i);
        let value = cells[i].clone();
        assert(value@ == strs_view(cells@)[i as int]);
        rec.push((key, value));
        assert(rec@ == before_raw.push((key, value)));
        assert(record_view(rec).len() == i + 1);
        let ghost target = record_of(strs_view(headers@), strs_view(cells@));
        assert forall|j: int| 0 <= j < i + 1 implies #[trigger] record_view(rec)[j] == target[j] by {
            if j < i {
                assert(record_view(rec)[j] == before[j]);
            }
        }
        assert(record_view(rec) =~= target.subrange(0, i + 1));
        i = i + 1;
    }
    rec
}

/// The record set of the table element `table_el`: the first row with cells
/// gives the headers, every later row with cells gives one record.
pub fn parse_table(table_el: &HtmlElement) -> (r: TableData)
    ensures
        table_view(r) == table_spec(*table_el),
{
    let mut all_rows: Vec<Vec<String>> = Vec::new();
    row_cells_into(&table_el.children, &mut all_rows);
    assert(rows_view(all_rows@) =~= row_cells_in(table_el.children@));
    let ghost all = rows_view(all_rows@);
    let n = all_rows.len();
    let mut headers: Vec<String> = Vec::new();
    let mut rows: Vec<Vec<(String, String)>> = Vec::new();
    let mut first_row = true;
    let mut k: usize = 0;
    assert(all.subrange(0, 0) =~= Seq::<Seq<Seq<char>>>::empty());
    assert(table_view(TableData { table_headers: headers, rows: rows }).headers =~= Seq::empty());
    assert(table_view(TableData { table_headers: headers, rows: rows }).rows =~= Seq::empty());
    while k < n
        invariant
            k <= n,
            n == all.len(),
            rows_view(all_rows@) =~= all.subrange(k as int, n as int),
            table_fold(all.subrange(0, k as int)) == (
            !first_row,
            table_view(TableData { table_headers: headers, rows: rows }),
            ),
        decreases n - k,
    {
        let ghost cur = all.subrange(0, k + 1);
        assert(cur.drop_last() =~= all.subrange(0, k as int));
        assert(rows_view(all_rows@)[0] == all[k as int]);
        assert(cur.last() == all[k as int]);
        assert(all_rows@.len() == rows_view(all_rows@).len());
        let ghost left = all_rows@;
        let cells = all_rows.remove(0);
        assert forall|j: int| 0 <= j < all_rows@.len() implies #[trigger] rows_view(all_rows@)[j]
            == rows_view(left)[j + 1] by {
            assert(all_rows@[j] == left[j + 1]);
        }
        assert(strs_view(cells@) == all[k as int]);
        let ghost prev_headers = strs_view(headers@);
        let ghost prev_rows = table_view(TableData { table_headers: headers, rows: rows }).rows;
        if cells.len() == 0 {
        } else if first_row {
            headers = cells;
            first_row = false;
            assert(table_view(TableData { table_headers: headers, rows: rows }).headers
                =~= all[k as int]);
            assert(table_view(TableData { table_headers: headers, rows: rows }).rows =~= prev_rows);
        } else {
            let rec = make_record(&headers, &cells);
            rows.push(rec);
            assert(table_view(TableData { table_headers: headers, rows: rows }).rows
                =~= prev_rows.push(record_of(prev_headers, all[k as int])));
        }
        assert(rows_view(all_rows@) =~= all.subrange(k + 1, n as int));
        k = k + 1;
    }
    assert(all.subrange(0, n as int) =~= all);
    TableData { table_headers: headers, rows }
}

} // verus!
