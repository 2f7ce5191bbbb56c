use vstd::prelude::*;
use vstd::string::StringSliceAdditionalSpecFns;

use crate::bytes::push_bytes;
use crate::document::spec_body;
use crate::mutation::common::{
    apply_patches, arranged, attr_prefix, close_tag, disjoint, in_bounds, open_tag, patched, push_close, push_open,
    qualified, qualify, span_keys, spec_word_prefix, word_prefix_for, Patch,
};
use crate::mutation::page_setup::{attr_prefix_of, attribute_markup, push_attribute};
use crate::mutation::table::{dxa_markup, empty_element};
use crate::mutation::table_edit::{
    body_tables, reason_text, resolve_table, spec_resolve_table, spec_table_reason, table_mutation_reason,
};
use crate::mutation::table_width::edits_of;
use crate::numbers::{decimal_digits, format_u64};
use crate::order::stable_order;
use crate::protocol::{
    unsupported, FailureCode, OperationFailure, PropertyPatch, SetTableFormatting, TableAlignment, TableBorders,
    TableCellMargins, TableFormattingPatch,
};
use crate::source::{NodeId, SourceDocument, SourceSpan};
use crate::wordml::{child, spec_child};

verus! {

// ---------------------------------------------------------------------------
// The markup of each property
// ---------------------------------------------------------------------------

pub open spec fn alignment_text(a: TableAlignment) -> Seq<u8> {
    match a {
        TableAlignment::Left => "left".spec_bytes(),
        TableAlignment::Center => "center".spec_bytes(),
        TableAlignment::Right => "right".spec_bytes(),
    }
}

/// `<jc val="…"/>`.
pub open spec fn alignment_markup(prefix: Seq<u8>, a: TableAlignment) -> Seq<u8> {
    empty_element(prefix, "jc".spec_bytes(), attribute_markup(attr_prefix_of(prefix), "val".spec_bytes(), alignment_text(a)))
}

/// The border style of a choice of borders: single lines, or none.
pub open spec fn border_style(b: TableBorders) -> Seq<u8> {
    match b {
        TableBorders::Grid => "single".spec_bytes(),
        TableBorders::Nil => "nil".spec_bytes(),
    }
}

/// Table justification and border styles are written by their literal names: `left`,
/// `center` and `right`; `single` for grid borders and `nil` for none.
pub proof fn law_table_formatting_names()
    ensures
        alignment_text(TableAlignment::Left) == "left".spec_bytes(),
        alignment_text(TableAlignment::Center) == "center".spec_bytes(),
        alignment_text(TableAlignment::Right) == "right".spec_bytes(),
        border_style(TableBorders::Grid) == "single".spec_bytes(),
        border_style(TableBorders::Nil) == "nil".spec_bytes(),
{
}

/// One border of the given style, half a point wide, automatic colour.
pub open spec fn edge_markup(prefix: Seq<u8>, edge: Seq<u8>, style: Seq<u8>) -> Seq<u8> {
    let a = attr_prefix_of(prefix);
    empty_element(
        prefix,
        edge,
        attribute_markup(a, "val".spec_bytes(), style) + attribute_markup(a, "sz".spec_bytes(), "4".spec_bytes())
            + attribute_markup(a, "space".spec_bytes(), "0".spec_bytes()) + attribute_markup(
            a,
            "color".spec_bytes(),
            "auto".spec_bytes(),
        ),
    )
}

/// `<tblBorders>` with the top, bottom, left, right and both inside borders.
pub open spec fn borders_markup(prefix: Seq<u8>, b: TableBorders) -> Seq<u8> {
    let s = border_style(b);
    let name = qualified(prefix, "tblBorders".spec_bytes());
    open_tag(name) + edge_markup(prefix, "top".spec_bytes(), s) + edge_markup(prefix, "bottom".spec_bytes(), s)
        + edge_markup(prefix, "left".spec_bytes(), s) + edge_markup(prefix, "right".spec_bytes(), s) + edge_markup(
        prefix,
        "insideH".spec_bytes(),
        s,
    ) + edge_markup(prefix, "insideV".spec_bytes(), s) + close_tag(name)
}

/// `<tblCellMar>` with the top, left, bottom and right margins, in twips.
pub open spec fn margins_markup(prefix: Seq<u8>, m: TableCellMargins) -> Seq<u8> {
    let name = qualified(prefix, "tblCellMar".spec_bytes());
    open_tag(name) + dxa_markup(prefix, "top".spec_bytes(), decimal_digits(m.top_twips as nat)) + dxa_markup(
        prefix,
        "left".spec_bytes(),
        decimal_digits(m.left_twips as nat),
    ) + dxa_markup(prefix, "bottom".spec_bytes(), decimal_digits(m.bottom_twips as nat)) + dxa_markup(
        prefix,
        "right".spec_bytes(),
        decimal_digits(m.right_twips as nat),
    ) + close_tag(name)
}

/// What a requested property is replaced with: its markup, or nothing to clear it;
/// `None` for a property that is not requested.
pub open spec fn alignment_replacement(prefix: Seq<u8>, p: Option<PropertyPatch<TableAlignment>>) -> Option<Seq<u8>> {
    match p {
        None => None,
        Some(PropertyPatch::Apply(a)) => Some(alignment_markup(prefix, a)),
        Some(PropertyPatch::Clear) => Some(seq![]),
    }
}

pub open spec fn margins_replacement(prefix: Seq<u8>, p: Option<PropertyPatch<TableCellMargins>>) -> Option<Seq<u8>> {
    match p {
        None => None,
        Some(PropertyPatch::Apply(m)) => Some(margins_markup(prefix, m)),
        Some(PropertyPatch::Clear) => Some(seq![]),
    }
}

pub open spec fn borders_replacement(prefix: Seq<u8>, p: Option<PropertyPatch<TableBorders>>) -> Option<Seq<u8>> {
    match p {
        None => None,
        Some(PropertyPatch::Apply(b)) => Some(borders_markup(prefix, b)),
        Some(PropertyPatch::Clear) => Some(seq![]),
    }
}

/// The requested properties in the order they are written: alignment, cell margins,
/// borders; each with its local name and its replacement.
pub open spec fn requested(prefix: Seq<u8>, f: TableFormattingPatch) -> Seq<(Seq<u8>, Option<Seq<u8>>)> {
    seq![
        ("jc".spec_bytes(), alignment_replacement(prefix, f.alignment)),
        ("tblCellMar".spec_bytes(), margins_replacement(prefix, f.cell_margins)),
        ("tblBorders".spec_bytes(), borders_replacement(prefix, f.borders)),
    ]
}

// ---------------------------------------------------------------------------
// Where each property goes
// ---------------------------------------------------------------------------

/// The edit of one property of existing table properties `props`: a requested property
/// replaces the first one of its name (clearing removes it); a new one is added just
/// before the closing tag of `props` (as written with its own prefix); clearing a
/// property that is not there changes nothing.
pub open spec fn property_edit(d: &SourceDocument, props: NodeId, local: Seq<u8>, rep: Option<Seq<u8>>) -> Result<
    Option<(SourceSpan, Seq<u8>)>,
    FailureCode,
> {
    match rep {
        None => Ok(None),
        Some(r) => match spec_child(d, props.0 as int, local) {
            Some(existing) => Ok(Some((d.spec_span(existing.0 as int), r))),
            None => if r.len() == 0 {
                Ok(None)
            } else {
                match spec_word_prefix(d, props.0 as int, "tblPr".spec_bytes()) {
                    None => Err(FailureCode::UnsupportedOperation),
                    Some(pp) => {
                        let at = d.spec_span(props.0 as int).end - close_tag(qualified(pp, "tblPr".spec_bytes())).len();
                        if at < 0 {
                            Err(FailureCode::UnsupportedOperation)
                        } else {
                            Ok(Some((SourceSpan { start: at as usize, end: at as usize }, r)))
                        }
                    },
                }
            },
        },
    }
}

/// The edits of the first `k` requested properties of existing table properties.
pub open spec fn property_edits(d: &SourceDocument, props: NodeId, items: Seq<(Seq<u8>, Option<Seq<u8>>)>, k: int) -> Result<
    Seq<(SourceSpan, Seq<u8>)>,
    FailureCode,
>
    decreases k,
{
    if k <= 0 {
        Ok(seq![])
    } else {
        match property_edits(d, props, items, k - 1) {
            Err(c) => Err(c),
            Ok(s) => match property_edit(d, props, items[k - 1].0, items[k - 1].1) {
                Err(c) => Err(c),
                Ok(None) => Ok(s),
                Ok(Some(e)) => Ok(s.push(e)),
            },
        }
    }
}

/// The content of new table properties: the markup of the first `k` properties that are
/// set, in order.
pub open spec fn new_properties(items: Seq<(Seq<u8>, Option<Seq<u8>>)>, k: int) -> Seq<u8>
    decreases k,
{
    if k <= 0 {
        seq![]
    } else {
        new_properties(items, k - 1) + match items[k - 1].1 {
            Some(r) => r,
            None => seq![],
        }
    }
}

/// What changing a table's formatting asks of the part, before any patch is applied:
/// the table, a simple one, a non-empty request, the table's namespace prefix; then the
/// edits of its properties, or new properties (holding every property set, in order)
/// before the table's first child. The first that fails gives the error.
pub open spec fn formatting_plan(d: &SourceDocument, op: SetTableFormatting) -> Result<
    Seq<(SourceSpan, Seq<u8>)>,
    (FailureCode, Option<Seq<char>>),
> {
    match spec_resolve_table(d, op.table) {
        Err(c) => Err((c, None)),
        Ok(i) => {
            let t = body_tables(d, spec_body(d)->Ok_0)[i];
            match spec_table_reason(d, t) {
                Some(reason) => Err((FailureCode::UnsupportedOperation, Some(reason_text(reason)))),
                None => if op.formatting.alignment is None && op.formatting.cell_margins is None
                    && op.formatting.borders is None {
                    Err((FailureCode::PreconditionFailed, None))
                } else {
                    match spec_word_prefix(d, t.0 as int, "tbl".spec_bytes()) {
                        None => Err((FailureCode::UnsupportedOperation, None)),
                        Some(prefix) => {
                            let items = requested(prefix, op.formatting);
                            match spec_child(d, t.0 as int, "tblPr".spec_bytes()) {
                                Some(props) => match property_edits(d, props, items, 3) {
                                    Err(c) => Err((c, None)),
                                    Ok(e) => Ok(e),
                                },
                                None => {
                                    let content = new_properties(items, 3);
                                    let name = qualified(prefix, "tblPr".spec_bytes());
                                    if content.len() == 0 {
                                        Ok(seq![])
                                    } else if d.spec_children(t.0 as int).len() == 0 {
                                        Err((FailureCode::UnsupportedOperation, None))
                                    } else {
                                        let at = d.spec_span(d.spec_children(t.0 as int)[0].0 as int).start;
                                        Ok(seq![(SourceSpan { start: at, end: at }, open_tag(name) + content + close_tag(name))])
                                    }
                                },
                            }
                        },
                    }
                },
            }
        },
    }
}

// ---------------------------------------------------------------------------
// Writing the markup
// ---------------------------------------------------------------------------

fn push_empty_start(out: &mut Vec<u8>, prefix: &[u8], local: &str)
    ensures
        final(out)@ == old(out)@ + seq![0x3cu8] + qualified(prefix@, local.spec_bytes()),
{
    out.push(0x3cu8);
    push_bytes(out, qualify(prefix, local).as_slice());
}

fn push_empty_end(out: &mut Vec<u8>)
    ensures
        final(out)@ == old(out)@ + seq![0x2fu8, 0x3eu8],
{
    out.push(0x2fu8);
    out.push(0x3eu8);
    assert(out@ =~= old(out)@ + seq![0x2fu8, 0x3eu8]);
}

fn alignment_fragment(prefix: &[u8], a: TableAlignment) -> (r: Vec<u8>)
    ensures
        r@ == alignment_markup(prefix@, a),
{
    let text: &str = match a {
        TableAlignment::Left => "left",
        TableAlignment::Center => "center",
        TableAlignment::Right => "right",
    };
    let mut out: Vec<u8> = Vec::new();
    push_empty_start(&mut out, prefix, "jc");
    push_attribute(&mut out, attr_prefix(prefix).as_slice(), "val", text.as_bytes());
    push_empty_end(&mut out);
    assert(out@ =~= alignment_markup(prefix@, a));
    out
}

fn push_edge(out: &mut Vec<u8>, prefix: &[u8], edge: &str, style: &str)
    ensures
        final(out)@ == old(out)@ + edge_markup(prefix@, edge.spec_bytes(), style.spec_bytes()),
{
    let a = attr_prefix(prefix);
    let ghost start = out@;
    push_empty_start(out, prefix, edge);
    push_attribute(out, a.as_slice(), "val", style.as_bytes());
    push_attribute(out, a.as_slice(), "sz", "4".as_bytes());
    push_attribute(out, a.as_slice(), "space", "0".as_bytes());
    push_attribute(out, a.as_slice(), "color", "auto".as_bytes());
    push_empty_end(out);
    assert(out@ =~= start + edge_markup(prefix@, edge.spec_bytes(), style.spec_bytes()));
}

fn borders_fragment(prefix: &[u8], b: TableBorders) -> (r: Vec<u8>)
    ensures
        r@ == borders_markup(prefix@, b),
{
    let style: &str = match b {
        TableBorders::Grid => "single",
        TableBorders::Nil => "nil",
    };
    let name = qualify(prefix, "tblBorders");
    let mut out: Vec<u8> = Vec::new();
    push_open(&mut out, name.as_slice());
    push_edge(&mut out, prefix, "top", style);
    push_edge(&mut out, prefix, "bottom", style);
    push_edge(&mut out, prefix, "left", style);
    push_edge(&mut out, prefix, "right", style);
    push_edge(&mut out, prefix, "insideH", style);
    push_edge(&mut out, prefix, "insideV", style);
    push_close(&mut out, name.as_slice());
    assert(out@ =~= borders_markup(prefix@, b));
    out
}

fn push_margin(out: &mut Vec<u8>, prefix: &[u8], edge: &str, width: u16)
    ensures
        final(out)@ == old(out)@ + dxa_markup(prefix@, edge.spec_bytes(), decimal_digits(width as nat)),
{
    let a = attr_prefix(prefix);
    let ghost start = out@;
    push_empty_start(out, prefix, edge);
    push_attribute(out, a.as_slice(), "w", format_u64(width as u64).as_slice());
    push_attribute(out, a.as_slice(), "type", "dxa".as_bytes());
    push_empty_end(out);
    assert(out@ =~= start + dxa_markup(prefix@, edge.spec_bytes(), decimal_digits(width as nat)));
}

fn margins_fragment(prefix: &[u8], m: TableCellMargins) -> (r: Vec<u8>)
    ensures
        r@ == margins_markup(prefix@, m),
{
    let name = qualify(prefix, "tblCellMar");
    let mut out: Vec<u8> = Vec::new();
    push_open(&mut out, name.as_slice());
    push_margin(&mut out, prefix, "top", m.top_twips);
    push_margin(&mut out, prefix, "left", m.left_twips);
    push_margin(&mut out, prefix, "bottom", m.bottom_twips);
    push_margin(&mut out, prefix, "right", m.right_twips);
    push_close(&mut out, name.as_slice());
    assert(out@ =~= margins_markup(prefix@, m));
    out
}

pub open spec fn opt_view(o: Option<Vec<u8>>) -> Option<Seq<u8>> {
    match o {
        Some(v) => Some(v@),
        None => None,
    }
}

fn alignment_change(prefix: &[u8], p: &Option<PropertyPatch<TableAlignment>>) -> (r: Option<Vec<u8>>)
    ensures
        opt_view(r) == alignment_replacement(prefix@, *p),
{
    match p {
        None => None,
        Some(PropertyPatch::Apply(a)) => Some(alignment_fragment(prefix, *a)),
        Some(PropertyPatch::Clear) => {
            let v: Vec<u8> = Vec::new();
            assert(v@ =~= Seq::<u8>::empty());
            Some(v)
        },
    }
}

fn margins_change(prefix: &[u8], p: &Option<PropertyPatch<TableCellMargins>>) -> (r: Option<Vec<u8>>)
    ensures
        opt_view(r) == margins_replacement(prefix@, *p),
{
    match p {
        None => None,
        Some(PropertyPatch::Apply(m)) => Some(margins_fragment(prefix, *m)),
        Some(PropertyPatch::Clear) => {
            let v: Vec<u8> = Vec::new();
            assert(v@ =~= Seq::<u8>::empty());
            Some(v)
        },
    }
}

fn borders_change(prefix: &[u8], p: &Option<PropertyPatch<TableBorders>>) -> (r: Option<Vec<u8>>)
    ensures
        opt_view(r) == borders_replacement(prefix@, *p),
{
    match p {
        None => None,
        Some(PropertyPatch::Apply(b)) => Some(borders_fragment(prefix, *b)),
        Some(PropertyPatch::Clear) => {
            let v: Vec<u8> = Vec::new();
            assert(v@ =~= Seq::<u8>::empty());
            Some(v)
        },
    }
}

// ---------------------------------------------------------------------------
// Patching the properties
// ---------------------------------------------------------------------------

fn table_property_change(source: &SourceDocument, props: NodeId, local: &str, rep: Option<Vec<u8>>, out: &mut Vec<Patch>) -> (r:
    Result<(), OperationFailure>)
    requires
        source.wf(),
        source.valid_id(props),
        in_bounds(old(out)@, source.bytes@.len() as int),
    ensures
        match r {
            Ok(()) => property_edit(source, props, local.spec_bytes(), opt_view(rep)) matches Ok(x)
                && edits_of(final(out)@) == edits_of(old(out)@) + match x {
                    Some(e) => seq![e],
                    None => Seq::<(SourceSpan, Seq<u8>)>::empty(),
                } && in_bounds(final(out)@, source.bytes@.len() as int),
            Err(e) => property_edit(source, props, local.spec_bytes(), opt_view(rep)) == Err::<
                Option<(SourceSpan, Seq<u8>)>,
                FailureCode,
            >(e.code),
        },
{
    let ghost start = out@;
    let r = match rep {
        None => {
            assert(edits_of(out@) =~= edits_of(start) + Seq::<(SourceSpan, Seq<u8>)>::empty());
            return Ok(());
        },
        Some(r) => r,
    };
    match child(source, props, local) {
        Some(existing) => {
            let p = Patch { span: source.span(existing), replacement: r };
            out.push(p);
            assert(edits_of(out@) =~= edits_of(start) + seq![(p.span, p.replacement@)]);
            Ok(())
        },
        None => {
            if r.len() == 0 {
                assert(edits_of(out@) =~= edits_of(start) + Seq::<(SourceSpan, Seq<u8>)>::empty());
                return Ok(());
            }
            let pp = word_prefix_for(source, props, "tblPr")?;
            let name = qualify(pp.as_slice(), "tblPr");
            let end = source.span(props).end;
            if end < 3 || end - 3 < name.len() {
                return Err(unsupported("table properties are shorter than their closing tag"));
            }
            let at = end - 3 - name.len();
            assert(close_tag(name@).len() == name@.len() + 3);
            let p = Patch { span: SourceSpan { start: at, end: at }, replacement: r };
            out.push(p);
            assert(edits_of(out@) =~= edits_of(start) + seq![(p.span, p.replacement@)]);
            Ok(())
        },
    }
}

/// Changes the direct properties of a simple direct body table (alignment, default cell
/// margins, borders) without touching rows, cells or the grid: each requested property
/// replaces (or, cleared, removes) the table's own, or is added to its properties; a
/// table without properties gets new ones holding every property set.
#[verifier::spinoff_prover]
#[verifier::rlimit(60)]
pub fn set_table_formatting_to_vec(source: &SourceDocument, operation: &SetTableFormatting) -> (r: Result<
    Vec<u8>,
    OperationFailure,
>)
    requires
        source.wf(),
    ensures
        formatting_plan(source, *operation) matches Err((c, reason)) ==> r matches Err(e) && e.code == c && match reason {
            Some(x) => e.reason_code matches Some(s) && s@ == x,
            None => true,
        },
        formatting_plan(source, *operation) matches Ok(edits) ==> exists|ps: Seq<Patch>, order: Seq<usize>|
            edits_of(ps) == edits && stable_order(order, span_keys(ps), ps.len() as int) && match r {
                Ok(out) => disjoint(arranged(ps, order)) && out@ == patched(source.bytes@, arranged(ps, order)),
                Err(e) => !disjoint(arranged(ps, order)) && e.code == FailureCode::UnsupportedOperation,
            },
{
    let resolved = resolve_table(source, &operation.table)?;
    match table_mutation_reason(source, resolved.table) {
        Some(reason) => {
            return Err(unsupported("set_table_formatting supports only simple rectangular tables").with_reason_code(
                reason.as_str(),
            ));
        },
        None => {},
    }
    let f = &operation.formatting;
    if f.alignment.is_none() && f.cell_margins.is_none() && f.borders.is_none() {
        return Err(OperationFailure::failed(FailureCode::PreconditionFailed, "table formatting patch is empty"));
    }
    let prefix = word_prefix_for(source, resolved.table, "tbl")?;
    let jc = alignment_change(prefix.as_slice(), &f.alignment);
    let margins = margins_change(prefix.as_slice(), &f.cell_margins);
    let borders = borders_change(prefix.as_slice(), &f.borders);
    let ghost items = requested(prefix@, *f);
    proof {
        reveal_with_fuel(property_edits, 4);
        reveal_with_fuel(new_properties, 4);
    }
    assert(items[0] == ("jc".spec_bytes(), opt_view(jc)));
    assert(items[1] == ("tblCellMar".spec_bytes(), opt_view(margins)));
    assert(items[2] == ("tblBorders".spec_bytes(), opt_view(borders)));
    let mut patches: Vec<Patch> = Vec::new();
    match child(source, resolved.table, "tblPr") {
        Some(props) => {
            assert(edits_of(patches@) =~= Seq::<(SourceSpan, Seq<u8>)>::empty());
            table_property_change(source, props, "jc", jc, &mut patches)?;
            assert(property_edits(source, props, items, 1) == Ok::<Seq<(SourceSpan, Seq<u8>)>, FailureCode>(edits_of(patches@))) by {
                assert(property_edits(source, props, items, 0) == Ok::<Seq<(SourceSpan, Seq<u8>)>, FailureCode>(Seq::empty()));
                assert(Seq::<(SourceSpan, Seq<u8>)>::empty() =~= edits_of(patches@).take(0));
            }
            let ghost one = edits_of(patches@);
            table_property_change(source, props, "tblCellMar", margins, &mut patches)?;
            assert(property_edits(source, props, items, 2) == Ok::<Seq<(SourceSpan, Seq<u8>)>, FailureCode>(edits_of(patches@))) by {
                match property_edit(source, props, items[1].0, items[1].1) {
                    Ok(Some(e)) => assert(one.push(e) =~= one + seq![e]),
                    _ => assert(one =~= one + Seq::<(SourceSpan, Seq<u8>)>::empty()),
                }
            }
            let ghost two = edits_of(patches@);
            table_property_change(source, props, "tblBorders", borders, &mut patches)?;
            assert(property_edits(source, props, items, 3) == Ok::<Seq<(SourceSpan, Seq<u8>)>, FailureCode>(edits_of(patches@))) by {
                match property_edit(source, props, items[2].0, items[2].1) {
                    Ok(Some(e)) => assert(two.push(e) =~= two + seq![e]),
                    _ => assert(two =~= two + Seq::<(SourceSpan, Seq<u8>)>::empty()),
                }
            }
        },
        None => {
            let mut content: Vec<u8> = Vec::new();
            match jc {
                Some(v) => push_bytes(&mut content, v.as_slice()),
                None => {},
            }
            match margins {
                Some(v) => push_bytes(&mut content, v.as_slice()),
                None => {},
            }
            match borders {
                Some(v) => push_bytes(&mut content, v.as_slice()),
                None => {},
            }
            assert(content@ =~= new_properties(items, 3));
            if content.len() > 0 {
                let kids = source.children(resolved.table);
                let _end = source.subtree_end(resolved.table);
                if kids.len() == 0 {
                    return Err(unsupported("table has no property insertion boundary"));
                }
                let at = source.span(kids[0]).start;
                let name = qualify(prefix.as_slice(), "tblPr");
                let mut replacement: Vec<u8> = Vec::new();
                push_open(&mut replacement, name.as_slice());
                push_bytes(&mut replacement, content.as_slice());
                push_close(&mut replacement, name.as_slice());
                patches.push(Patch { span: SourceSpan { start: at, end: at }, replacement });
            }
            assert(edits_of(patches@) =~= formatting_plan(source, *operation)->Ok_0);
        },
    }
    apply_patches(source, patches)
}

} // verus!
