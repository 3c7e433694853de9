//! What holds of a search in an XML data file as a whole.

use crate::references;
use crate::references::{Context, Reference, Scene};
use crate::seqs;
use crate::session;
use crate::session::{ModelListing, OdooData, OdooDataRecord, Symbol, SymbolId, SyncOdoo};
use crate::text;
use crate::view_model;
use crate::xml_ast_utils::XmlAstResult;
use crate::xml_node::{XmlAttr, XmlKind, XmlTree};
use std::ops::Range;
use vstd::prelude::*;

verus! {

/// Whether the cursor is on every one of some references.
pub open spec fn all_under_cursor(refs: Seq<Reference>, offset: usize) -> bool {
    forall|i: int|
        0 <= i < refs.len() ==> references::under_cursor((#[trigger] refs[i]).range(), offset)
}

proof fn lemma_filter_map_under_cursor(
    attributes: Seq<XmlAttr>,
    f: spec_fn(XmlAttr) -> Option<Reference>,
    offset: usize,
)
    requires
        forall|a: XmlAttr|
            #[trigger] f(a) matches Some(r) ==> references::under_cursor(r.range(), offset),
    ensures
        all_under_cursor(attributes.filter_map(f), offset),
{
    let refs = attributes.filter_map(f);
    assert forall|i: int| 0 <= i < refs.len() implies references::under_cursor(
        (#[trigger] refs[i]).range(),
        offset,
    ) by {
        assert(refs.contains(refs[i]));
        attributes.lemma_filter_map_contains(f, refs[i]);
        let a = choose|a: XmlAttr| #[trigger] attributes.contains(a) && f(a) == Some(refs[i]);
        assert(f(a) == Some(refs[i]));
    }
}

proof fn lemma_field_under_cursor(attributes: Seq<XmlAttr>, offset: usize, context: Context)
    ensures
        all_under_cursor(references::field_trace(attributes, offset, context).references, offset),
    decreases attributes.len(),
{
    if attributes.len() > 0 {
        lemma_field_under_cursor(attributes.drop_last(), offset, context);
    }
}

proof fn lemma_node_under_cursor(scene: Scene, node: XmlTree, context: Context)
    ensures
        all_under_cursor(references::trace(scene, node, context).references, scene.offset),
    decreases node, 1int,
{
    match node.kind {
        XmlKind::Element(tag) => {
            references::lemma_tags_differ();
            if tag == "record"@ {
                lemma_filter_map_under_cursor(
                    node.attributes,
                    |a: XmlAttr| references::record_reference(a, scene.offset),
                    scene.offset,
                );
                lemma_nodes_under_cursor(
                    scene,
                    node.children,
                    references::record_body_context(scene, node, context),
                );
            } else if tag == "field"@ {
                lemma_field_under_cursor(node.attributes, scene.offset, context);
                lemma_nodes_under_cursor(
                    scene,
                    node.children,
                    references::field_trace(node.attributes, scene.offset, context).context,
                );
            } else {
                lemma_filter_map_under_cursor(
                    node.attributes,
                    |a: XmlAttr| references::menu_item_reference(a, scene.offset),
                    scene.offset,
                );
                lemma_filter_map_under_cursor(
                    node.attributes,
                    |a: XmlAttr| references::template_reference(a, scene.offset),
                    scene.offset,
                );
                lemma_nodes_under_cursor(scene, node.children, context);
            }
        },
        XmlKind::Text(_) => {},
        XmlKind::Other => {},
    }
}

proof fn lemma_nodes_under_cursor(scene: Scene, nodes: Seq<XmlTree>, context: Context)
    ensures
        all_under_cursor(references::trace_all(scene, nodes, context).references, scene.offset),
    decreases nodes, 0int,
{
    if nodes.len() > 0 {
        let before = references::trace_all(scene, nodes.drop_last(), context);
        lemma_nodes_under_cursor(scene, nodes.drop_last(), context);
        lemma_node_under_cursor(scene, nodes.last(), before.context);
    }
}

/// The cursor is on every reference that a search follows, and on the part of the file that it
/// makes a link of.
pub proof fn law_search_under_cursor(scene: Scene, root: XmlTree)
    ensures
        all_under_cursor(references::references(scene, root), scene.offset),
        seqs::last_of(
            references::all_links(scene.odoo, references::references(scene, root)),
        ) matches Some(link) ==> references::under_cursor(link, scene.offset),
{
    lemma_nodes_under_cursor(scene, root.children, Context::top());
    let refs = references::references(scene, root);
    let l = |r: Reference| references::link_of(scene.odoo, r);
    let links = references::all_links(scene.odoo, refs);
    if links.len() > 0 {
        let link = links.last();
        assert(links.contains(link));
        refs.lemma_filter_map_contains(l, link);
        let r = choose|r: Reference| #[trigger] refs.contains(r) && l(r) == Some(link);
        let i = choose|i: int| 0 <= i < refs.len() && refs[i] == r;
        assert(references::under_cursor(refs[i].range(), scene.offset));
    }
}

/// Whether the cursor is on an attribute's value or on a text somewhere in a node.
pub open spec fn cursor_in(node: XmlTree, offset: usize) -> bool
    decreases node,
{
    ||| node.kind is Text && references::under_cursor(node.range, offset)
    ||| exists|i: int|
        0 <= i < node.attributes.len() && references::under_cursor(
            (#[trigger] node.attributes[i]).range_value,
            offset,
        )
    ||| exists|i: int| 0 <= i < node.children.len() && cursor_in(#[trigger] node.children[i], offset)
}

proof fn lemma_filter_map_off_cursor(
    attributes: Seq<XmlAttr>,
    f: spec_fn(XmlAttr) -> Option<Reference>,
    offset: usize,
)
    requires
        forall|a: XmlAttr|
            #[trigger] f(a) is Some ==> references::under_cursor(a.range_value, offset),
        forall|i: int|
            0 <= i < attributes.len() ==> !references::under_cursor(
                (#[trigger] attributes[i]).range_value,
                offset,
            ),
    ensures
        attributes.filter_map(f).len() == 0,
{
    let refs = attributes.filter_map(f);
    if refs.len() > 0 {
        assert(refs.contains(refs[0]));
        attributes.lemma_filter_map_contains(f, refs[0]);
        let a = choose|a: XmlAttr| #[trigger] attributes.contains(a) && f(a) == Some(refs[0]);
        let i = choose|i: int| 0 <= i < attributes.len() && attributes[i] == a;
        assert(f(attributes[i]) is Some);
    }
}

proof fn lemma_field_off_cursor(attributes: Seq<XmlAttr>, offset: usize, context: Context)
    requires
        forall|i: int|
            0 <= i < attributes.len() ==> !references::under_cursor(
                (#[trigger] attributes[i]).range_value,
                offset,
            ),
    ensures
        references::field_trace(attributes, offset, context).references.len() == 0,
    decreases attributes.len(),
{
    if attributes.len() > 0 {
        assert forall|i: int|
            0 <= i < attributes.drop_last().len() implies !references::under_cursor(
            (#[trigger] attributes.drop_last()[i]).range_value,
            offset,
        ) by {
            assert(attributes.drop_last()[i] == attributes[i]);
        }
        lemma_field_off_cursor(attributes.drop_last(), offset, context);
        assert(attributes[attributes.len() - 1] == attributes.last());
    }
}

proof fn lemma_node_off_cursor(scene: Scene, node: XmlTree, context: Context)
    requires
        !cursor_in(node, scene.offset),
    ensures
        references::trace(scene, node, context).references.len() == 0,
    decreases node, 1int,
{
    match node.kind {
        XmlKind::Element(tag) => {
            references::lemma_tags_differ();
            if tag == "record"@ {
                lemma_filter_map_off_cursor(
                    node.attributes,
                    |a: XmlAttr| references::record_reference(a, scene.offset),
                    scene.offset,
                );
                lemma_nodes_off_cursor(
                    scene,
                    node.children,
                    references::record_body_context(scene, node, context),
                );
            } else if tag == "field"@ {
                lemma_field_off_cursor(node.attributes, scene.offset, context);
                lemma_nodes_off_cursor(
                    scene,
                    node.children,
                    references::field_trace(node.attributes, scene.offset, context).context,
                );
            } else {
                lemma_filter_map_off_cursor(
                    node.attributes,
                    |a: XmlAttr| references::menu_item_reference(a, scene.offset),
                    scene.offset,
                );
                lemma_filter_map_off_cursor(
                    node.attributes,
                    |a: XmlAttr| references::template_reference(a, scene.offset),
                    scene.offset,
                );
                lemma_nodes_off_cursor(scene, node.children, context);
            }
        },
        XmlKind::Text(_) => {},
        XmlKind::Other => {},
    }
}

proof fn lemma_nodes_off_cursor(scene: Scene, nodes: Seq<XmlTree>, context: Context)
    requires
        forall|i: int| 0 <= i < nodes.len() ==> !cursor_in(#[trigger] nodes[i], scene.offset),
    ensures
        references::trace_all(scene, nodes, context).references.len() == 0,
    decreases nodes, 0int,
{
    if nodes.len() > 0 {
        let front = nodes.drop_last();
        let before = references::trace_all(scene, front, context);
        assert forall|i: int| 0 <= i < front.len() implies !cursor_in(
            #[trigger] front[i],
            scene.offset,
        ) by {
            assert(front[i] == nodes[i]);
        }
        lemma_nodes_off_cursor(scene, front, context);
        assert(nodes[nodes.len() - 1] == nodes.last());
        lemma_node_off_cursor(scene, nodes.last(), before.context);
    }
}

/// With the cursor on no attribute's value and on no text, a search finds nothing.
pub proof fn law_nothing_off_cursor(scene: Scene, on_dep_only: bool, root: XmlTree)
    requires
        forall|i: int|
            0 <= i < root.children.len() ==> !cursor_in(#[trigger] root.children[i], scene.offset),
    ensures
        references::all_results(scene, on_dep_only, references::references(scene, root))
            == Seq::<XmlAstResult>::empty(),
        references::all_links(scene.odoo, references::references(scene, root))
            == Seq::<Range<usize>>::empty(),
{
    lemma_nodes_off_cursor(scene, root.children, Context::top());
    let refs = references::references(scene, root);
    assert(refs =~= Seq::<Reference>::empty());
    seqs::lemma_flat_map_empty::<Reference, XmlAstResult>(
        |r: Reference| references::results_of(scene, on_dep_only, r),
    );
}

/// A file is read in order: what stands in the first part is found first, and the second part
/// is read in the surroundings that the first leaves.
pub proof fn law_reading_in_order(
    scene: Scene,
    first: Seq<XmlTree>,
    second: Seq<XmlTree>,
    context: Context,
)
    ensures
        ({
            let a = references::trace_all(scene, first, context);
            let b = references::trace_all(scene, second, a.context);
            let both = references::trace_all(scene, first + second, context);
            both.references == a.references + b.references && both.context == b.context
        }),
    decreases second.len(),
{
    let a = references::trace_all(scene, first, context);
    if second.len() == 0 {
        assert(first + second =~= first);
        assert(a.references + Seq::<Reference>::empty() =~= a.references);
    } else {
        law_reading_in_order(scene, first, second.drop_last(), context);
        assert((first + second).drop_last() =~= first + second.drop_last());
        assert((first + second).last() == second.last());
        let b = references::trace_all(scene, second.drop_last(), a.context);
        let last = references::trace(scene, second.last(), b.context);
        assert(a.references + b.references + last.references =~= a.references + (b.references
            + last.references));
    }
}

/// Nothing of a record is left behind it: neither its model nor the one that its view is for.
pub proof fn law_record_leaves_nothing(scene: Scene, node: XmlTree, context: Context)
    ensures
        references::record_trace(scene, node, context).context.record_model is None,
        references::record_trace(scene, node, context).context.view_arch_model is None,
        node.is_element("record"@) ==> references::trace(scene, node, context)
            == references::record_trace(scene, node, context),
{
}

/// A record that is no view has no architecture, even where it stands in a view: its fields are
/// those of its own model, also behind and within a field called `arch`.
pub proof fn law_only_views_have_architectures(
    scene: Scene,
    node: XmlTree,
    context: Context,
    model: Seq<char>,
)
    requires
        node.is_element("record"@),
        node.attribute("model"@) != Some("ir.ui.view"@),
        references::record_context(node.attributes, context).record_model == Some(model),
        forall|i: int| 0 <= i < node.children.len() ==> record_free(#[trigger] node.children[i]),
    ensures
        fields_of(references::trace(scene, node, context).references, model),
{
    let inner = references::record_body_context(scene, node, context);
    references::lemma_tags_differ();
    lemma_no_fields(
        node.attributes,
        |a: XmlAttr| references::record_reference(a, scene.offset),
        model,
    );
    lemma_no_view_nodes(scene, node.children, inner, model);
}

proof fn lemma_no_view_node(scene: Scene, node: XmlTree, context: Context, model: Seq<char>)
    requires
        record_free(node),
        context.view_arch_model is None,
        context.record_model == Some(model),
    ensures
        fields_of(references::trace(scene, node, context).references, model),
        references::trace(scene, node, context).context.view_arch_model is None,
        references::trace(scene, node, context).context.record_model == Some(model),
    decreases node, 1int,
{
    match node.kind {
        XmlKind::Element(tag) => {
            references::lemma_tags_differ();
            if tag == "field"@ {
                lemma_field_attrs_of_model(node.attributes, scene.offset, context, model);
                law_arch_fields_of_view_model(node.attributes, scene.offset, context);
                lemma_no_view_nodes(
                    scene,
                    node.children,
                    references::field_trace(node.attributes, scene.offset, context).context,
                    model,
                );
            } else {
                lemma_no_fields(
                    node.attributes,
                    |a: XmlAttr| references::menu_item_reference(a, scene.offset),
                    model,
                );
                lemma_no_fields(
                    node.attributes,
                    |a: XmlAttr| references::template_reference(a, scene.offset),
                    model,
                );
                lemma_no_view_nodes(scene, node.children, context, model);
            }
        },
        XmlKind::Text(_) => {},
        XmlKind::Other => {},
    }
}

proof fn lemma_no_view_nodes(
    scene: Scene,
    nodes: Seq<XmlTree>,
    context: Context,
    model: Seq<char>,
)
    requires
        forall|i: int| 0 <= i < nodes.len() ==> record_free(#[trigger] nodes[i]),
        context.view_arch_model is None,
        context.record_model == Some(model),
    ensures
        fields_of(references::trace_all(scene, nodes, context).references, model),
        references::trace_all(scene, nodes, context).context.view_arch_model is None,
        references::trace_all(scene, nodes, context).context.record_model == Some(model),
    decreases nodes, 0int,
{
    if nodes.len() > 0 {
        let front = nodes.drop_last();
        assert forall|i: int| 0 <= i < front.len() implies record_free(#[trigger] front[i]) by {
            assert(front[i] == nodes[i]);
        }
        lemma_no_view_nodes(scene, front, context, model);
        assert(nodes[nodes.len() - 1] == nodes.last());
        lemma_no_view_node(
            scene,
            nodes.last(),
            references::trace_all(scene, front, context).context,
            model,
        );
    }
}

/// Whether a field opens the architecture of a view.
pub open spec fn is_arch(attributes: Seq<XmlAttr>, context: Context) -> bool {
    context.view_arch_model is Some && exists|i: int|
        0 <= i < attributes.len() && (#[trigger] attributes[i]).name == "name"@
            && attributes[i].value == "arch"@
}

/// Inside the field `arch` of a view, fields are those of the model that the view is for; inside
/// any other field, those of the model of the record around.
pub proof fn law_arch_fields_of_view_model(
    attributes: Seq<XmlAttr>,
    offset: usize,
    context: Context,
)
    ensures
        references::field_trace(attributes, offset, context).arch == is_arch(attributes, context),
        references::field_trace(attributes, offset, context).context.record_model == (if is_arch(
            attributes,
            context,
        ) {
            context.view_arch_model
        } else {
            context.record_model
        }),
        references::field_trace(attributes, offset, context).context.view_arch_model
            == context.view_arch_model,
    decreases attributes.len(),
{
    if attributes.len() > 0 {
        let front = attributes.drop_last();
        law_arch_fields_of_view_model(front, offset, context);
        let n = attributes.len() - 1;
        assert(attributes[n] == attributes.last());
        if is_arch(front, context) {
            let i = choose|i: int|
                0 <= i < front.len() && (#[trigger] front[i]).name == "name"@ && front[i].value
                    == "arch"@;
            assert(attributes[i] == front[i]);
        } else if is_arch(attributes, context) {
            let i = choose|i: int|
                0 <= i < attributes.len() && (#[trigger] attributes[i]).name == "name"@
                    && attributes[i].value == "arch"@;
            if i < n {
                assert(front[i] == attributes[i]);
            }
        }
    }
}

/// Behind a field no field is around. Behind the field `arch` of a view the record is one of
/// `ir.ui.view` again, and behind a field `arch` within the architecture the architecture goes on.
pub proof fn law_field_restores(scene: Scene, node: XmlTree, context: Context)
    requires
        node.is_element("field"@),
    ensures
        references::trace(scene, node, context).context.field_name is None,
        is_arch(node.attributes, context) && !references::in_arch(context) ==> references::trace(
            scene,
            node,
            context,
        ).context.record_model == Some("ir.ui.view"@),
        is_arch(node.attributes, context) && references::in_arch(context) ==> references::trace(
            scene,
            node,
            context,
        ).context.record_model == context.record_model,
{
    references::lemma_tags_differ();
    law_arch_fields_of_view_model(node.attributes, scene.offset, context);
}

/// An XML id leads to parts of XML files, the names of models and fields lead to symbols.
pub proof fn law_kinds_of_results(
    scene: Scene,
    on_dep_only: bool,
    reference: Reference,
    result: XmlAstResult,
)
    requires
        references::results_of(scene, on_dep_only, reference).contains(result),
    ensures
        reference is XmlId ==> result is XML_DATA,
        reference !is XmlId ==> result is SYMBOL,
{
    match reference {
        Reference::XmlId { xml_id, .. } => {
            let module = scene.module.unwrap();
            let data = scene.odoo.xml_data(module, xml_id);
            data.lemma_filter_map_contains(
                |d: OdooData| references::datum_result(scene.odoo, module, on_dep_only, d),
                result,
            );
        },
        Reference::Model { .. } => {},
        Reference::Field { model, name, .. } => {
            let m = scene.odoo.model_named(model).unwrap();
            let symbols = m.reachable_symbols(references::scope(scene.module, on_dep_only), true);
            let f = |s: SymbolId| references::as_results(scene.odoo.symbol(s).content_of(name));
            seqs::lemma_flat_map_contains(symbols, f, result);
            let i = choose|i: int|
                0 <= i < symbols.len() && f(#[trigger] symbols[i]).contains(result);
            assert(references::as_results(scene.odoo.symbol(symbols[i]).content_of(name)).contains(
                result,
            ));
        },
    }
}

/// The limit to the dependencies of a module only leaves out some of what an XML id leads to,
/// and keeps the order of the rest.
pub proof fn law_dependencies_only_narrow(odoo: SyncOdoo, module: SymbolId, xml_id: Seq<char>)
    ensures
        seqs::is_subsequence(
            references::xml_id_results(odoo, module, xml_id, true),
            references::xml_id_results(odoo, module, xml_id, false),
        ),
{
    seqs::lemma_filter_map_narrows(
        odoo.xml_data(module, xml_id),
        |d: OdooData| references::datum_result(odoo, module, true, d),
        |d: OdooData| references::datum_result(odoo, module, false, d),
    );
}

/// What an XML id leads to within the dependencies of a module is in a module that the module
/// depends on.
pub proof fn law_results_in_dependencies(
    odoo: SyncOdoo,
    module: SymbolId,
    xml_id: Seq<char>,
    result: XmlAstResult,
)
    requires
        references::xml_id_results(odoo, module, xml_id, true).contains(result),
    ensures
        result matches XmlAstResult::XML_DATA(file, _) && odoo.symbol(file).module matches Some(
            theirs,
        ) && odoo.symbol(module).module matches Some(own) && odoo.is_in_deps(
            own,
            odoo.symbol(theirs).name@,
        ),
{
    let data = odoo.xml_data(module, xml_id);
    let f = |d: OdooData| references::datum_result(odoo, module, true, d);
    data.lemma_filter_map_contains(f, result);
}

/// Whether a node holds no record, itself included.
pub open spec fn record_free(node: XmlTree) -> bool
    decreases node,
{
    &&& !node.is_element("record"@)
    &&& forall|i: int| 0 <= i < node.children.len() ==> record_free(#[trigger] node.children[i])
}

/// Whether a node holds neither a record nor a field called `arch`, itself included.
pub open spec fn plain(node: XmlTree) -> bool
    decreases node,
{
    &&& !node.is_element("record"@)
    &&& node.is_element("field"@) ==> forall|i: int|
        0 <= i < node.attributes.len() ==> !((#[trigger] node.attributes[i]).name == "name"@
            && node.attributes[i].value == "arch"@)
    &&& forall|i: int| 0 <= i < node.children.len() ==> plain(#[trigger] node.children[i])
}

/// A node without records keeps the model that the view around is for.
pub proof fn law_record_free_keeps_view_model(scene: Scene, node: XmlTree, context: Context)
    requires
        record_free(node),
    ensures
        references::trace(scene, node, context).context.view_arch_model == context.view_arch_model,
    decreases node, 1int,
{
    match node.kind {
        XmlKind::Element(tag) => {
            references::lemma_tags_differ();
            law_arch_fields_of_view_model(node.attributes, scene.offset, context);
            let inner = if tag == "field"@ {
                references::field_trace(node.attributes, scene.offset, context).context
            } else {
                context
            };
            lemma_record_free_nodes(scene, node.children, inner);
        },
        XmlKind::Text(_) => {},
        XmlKind::Other => {},
    }
}

proof fn lemma_record_free_nodes(scene: Scene, nodes: Seq<XmlTree>, context: Context)
    requires
        forall|i: int| 0 <= i < nodes.len() ==> record_free(#[trigger] nodes[i]),
    ensures
        references::trace_all(scene, nodes, context).context.view_arch_model
            == context.view_arch_model,
    decreases nodes, 0int,
{
    if nodes.len() > 0 {
        let front = nodes.drop_last();
        assert forall|i: int| 0 <= i < front.len() implies record_free(#[trigger] front[i]) by {
            assert(front[i] == nodes[i]);
        }
        lemma_record_free_nodes(scene, front, context);
        assert(nodes[nodes.len() - 1] == nodes.last());
        law_record_free_keeps_view_model(
            scene,
            nodes.last(),
            references::trace_all(scene, front, context).context,
        );
    }
}

/// Whether all references to fields among `refs` are to fields of `model`.
pub open spec fn fields_of(refs: Seq<Reference>, model: Seq<char>) -> bool {
    forall|i: int|
        0 <= i < refs.len() ==> (#[trigger] refs[i] matches Reference::Field { model: m, .. } ==> m
            == model)
}

proof fn lemma_field_attrs_of_model(
    attributes: Seq<XmlAttr>,
    offset: usize,
    context: Context,
    model: Seq<char>,
)
    requires
        context.record_model == Some(model),
        is_arch(attributes, context) ==> references::in_arch(context),
    ensures
        fields_of(references::field_trace(attributes, offset, context).references, model),
        references::field_trace(attributes, offset, context).context.record_model == Some(model),
    decreases attributes.len(),
{
    law_arch_fields_of_view_model(attributes, offset, context);
    if attributes.len() > 0 {
        let front = attributes.drop_last();
        if is_arch(front, context) {
            let i = choose|i: int|
                0 <= i < front.len() && (#[trigger] front[i]).name == "name"@ && front[i].value
                    == "arch"@;
            assert(attributes[i] == front[i]);
        }
        lemma_field_attrs_of_model(front, offset, context, model);
    }
}

/// In a part of a file without records and without views, every reference to a field is to one
/// of the model of the record around, and that model stays the same.
pub proof fn law_plain_part_keeps_model(
    scene: Scene,
    node: XmlTree,
    context: Context,
    model: Seq<char>,
)
    requires
        plain(node),
        context.record_model == Some(model),
    ensures
        fields_of(references::trace(scene, node, context).references, model),
        references::trace(scene, node, context).context.record_model == Some(model),
    decreases node, 1int,
{
    match node.kind {
        XmlKind::Element(tag) => {
            references::lemma_tags_differ();
            if tag == "field"@ {
                assert(!is_arch(node.attributes, context));
                lemma_field_attrs_of_model(node.attributes, scene.offset, context, model);
                lemma_plain_nodes(
                    scene,
                    node.children,
                    references::field_trace(node.attributes, scene.offset, context).context,
                    model,
                );
                law_arch_fields_of_view_model(node.attributes, scene.offset, context);
            } else {
                lemma_no_fields(
                    node.attributes,
                    |a: XmlAttr| references::menu_item_reference(a, scene.offset),
                    model,
                );
                lemma_no_fields(
                    node.attributes,
                    |a: XmlAttr| references::template_reference(a, scene.offset),
                    model,
                );
                lemma_plain_nodes(scene, node.children, context, model);
            }
        },
        XmlKind::Text(_) => {},
        XmlKind::Other => {},
    }
}

proof fn lemma_no_fields(
    attributes: Seq<XmlAttr>,
    f: spec_fn(XmlAttr) -> Option<Reference>,
    model: Seq<char>,
)
    requires
        forall|a: XmlAttr| #[trigger] f(a) matches Some(r) ==> r !is Field,
    ensures
        fields_of(attributes.filter_map(f), model),
{
    let refs = attributes.filter_map(f);
    assert forall|i: int| 0 <= i < refs.len() implies (
    #[trigger] refs[i] matches Reference::Field { model: m, .. } ==> m == model) by {
        assert(refs.contains(refs[i]));
        attributes.lemma_filter_map_contains(f, refs[i]);
        let a = choose|a: XmlAttr| #[trigger] attributes.contains(a) && f(a) == Some(refs[i]);
        assert(f(a) == Some(refs[i]));
    }
}

proof fn lemma_plain_nodes(
    scene: Scene,
    nodes: Seq<XmlTree>,
    context: Context,
    model: Seq<char>,
)
    requires
        forall|i: int| 0 <= i < nodes.len() ==> plain(#[trigger] nodes[i]),
        context.record_model == Some(model),
    ensures
        fields_of(references::trace_all(scene, nodes, context).references, model),
        references::trace_all(scene, nodes, context).context.record_model == Some(model),
    decreases nodes, 0int,
{
    if nodes.len() > 0 {
        let front = nodes.drop_last();
        assert forall|i: int| 0 <= i < front.len() implies plain(#[trigger] front[i]) by {
            assert(front[i] == nodes[i]);
        }
        lemma_plain_nodes(scene, front, context, model);
        assert(nodes[nodes.len() - 1] == nodes.last());
        law_plain_part_keeps_model(
            scene,
            nodes.last(),
            references::trace_all(scene, front, context).context,
            model,
        );
    }
}

/// In a part of the architecture of a view without records, every reference to a field is to one
/// of the view's model, and the architecture goes on behind it. A field in it may itself be
/// called `arch`.
pub proof fn law_architecture_keeps_model(
    scene: Scene,
    node: XmlTree,
    context: Context,
    model: Seq<char>,
)
    requires
        record_free(node),
        references::in_arch(context),
        context.record_model == Some(model),
    ensures
        fields_of(references::trace(scene, node, context).references, model),
        references::in_arch(references::trace(scene, node, context).context),
        references::trace(scene, node, context).context.record_model == Some(model),
    decreases node, 1int,
{
    law_record_free_keeps_view_model(scene, node, context);
    match node.kind {
        XmlKind::Element(tag) => {
            references::lemma_tags_differ();
            if tag == "field"@ {
                lemma_field_attrs_of_model(node.attributes, scene.offset, context, model);
                law_arch_fields_of_view_model(node.attributes, scene.offset, context);
                lemma_architecture_nodes(
                    scene,
                    node.children,
                    references::field_trace(node.attributes, scene.offset, context).context,
                    model,
                );
            } else {
                lemma_no_fields(
                    node.attributes,
                    |a: XmlAttr| references::menu_item_reference(a, scene.offset),
                    model,
                );
                lemma_no_fields(
                    node.attributes,
                    |a: XmlAttr| references::template_reference(a, scene.offset),
                    model,
                );
                lemma_architecture_nodes(scene, node.children, context, model);
            }
        },
        XmlKind::Text(_) => {},
        XmlKind::Other => {},
    }
}

proof fn lemma_architecture_nodes(
    scene: Scene,
    nodes: Seq<XmlTree>,
    context: Context,
    model: Seq<char>,
)
    requires
        forall|i: int| 0 <= i < nodes.len() ==> record_free(#[trigger] nodes[i]),
        references::in_arch(context),
        context.record_model == Some(model),
    ensures
        fields_of(references::trace_all(scene, nodes, context).references, model),
        references::in_arch(references::trace_all(scene, nodes, context).context),
        references::trace_all(scene, nodes, context).context.record_model == Some(model),
    decreases nodes, 0int,
{
    if nodes.len() > 0 {
        let front = nodes.drop_last();
        assert forall|i: int| 0 <= i < front.len() implies record_free(#[trigger] front[i]) by {
            assert(front[i] == nodes[i]);
        }
        lemma_architecture_nodes(scene, front, context, model);
        assert(nodes[nodes.len() - 1] == nodes.last());
        law_architecture_keeps_model(
            scene,
            nodes.last(),
            references::trace_all(scene, front, context).context,
            model,
        );
    }
}

/// The model that a view is for is never blank, and has no white space around it.
pub proof fn law_arch_model_is_a_name(scene: Scene, children: Seq<XmlTree>)
    ensures
        references::arch_model(scene, children) matches Some(model) ==> model.len() > 0
            && text::trimmed(model) == model,
{
    let f = |c: XmlTree| references::declared_model(c);
    let declared = children.filter_map(f);
    if declared.len() > 0 {
        assert(declared.contains(declared.last()));
        children.lemma_filter_map_contains(f, declared.last());
        let field = choose|c: XmlTree| #[trigger]
            children.contains(c) && f(c) == Some(declared.last());
        text::lemma_trimmed_twice(field.first_text().unwrap());
    } else if let (Some(xml_id), Some(module)) = (
        references::inherited_view(children),
        scene.module,
    ) {
        view_model::law_view_model_is_a_name(scene.odoo, module, xml_id);
    }
}

/// The surroundings in which the child `k` of a record is read.
pub open spec fn child_context(scene: Scene, record: XmlTree, context: Context, k: int) -> Context {
    references::trace_all(
        scene,
        record.children.take(k),
        references::record_body_context(scene, record, context),
    ).context
}

/// In the architecture of a view for `model`, every reference to a field is to one of `model`.
/// `k` is the place of the field `arch` in the view's record. A record before it within the
/// view's record ends the view, and a record within the architecture has a model of its own.
pub proof fn law_view_fields_are_of_its_model(
    scene: Scene,
    record: XmlTree,
    context: Context,
    k: int,
    model: Seq<char>,
)
    requires
        record.is_element("record"@),
        record.attribute("model"@) == Some("ir.ui.view"@),
        references::arch_model(scene, record.children) == Some(model),
        0 <= k < record.children.len(),
        forall|i: int| 0 <= i < k ==> record_free(#[trigger] record.children[i]),
        record.children[k].is_element("field"@),
        exists|i: int|
            0 <= i < record.children[k].attributes.len() && (
            #[trigger] record.children[k].attributes[i]).name == "name"@
                && record.children[k].attributes[i].value == "arch"@,
        forall|i: int|
            0 <= i < record.children[k].children.len() ==> record_free(
                #[trigger] record.children[k].children[i],
            ),
    ensures
        ({
            let arch = record.children[k];
            let head = references::field_trace(
                arch.attributes,
                scene.offset,
                child_context(scene, record, context, k),
            );
            &&& head.context.record_model == Some(model)
            &&& fields_of(
                references::trace_all(scene, arch.children, head.context).references,
                model,
            )
        }),
{
    let front = record.children.take(k);
    assert forall|i: int| 0 <= i < front.len() implies record_free(#[trigger] front[i]) by {
        assert(front[i] == record.children[i]);
    }
    lemma_record_free_nodes(
        scene,
        front,
        references::record_body_context(scene, record, context),
    );
    let arch = record.children[k];
    let here = child_context(scene, record, context, k);
    assert(is_arch(arch.attributes, here));
    law_arch_fields_of_view_model(arch.attributes, scene.offset, here);
    lemma_architecture_nodes(
        scene,
        arch.children,
        references::field_trace(arch.attributes, scene.offset, here).context,
        model,
    );
}

proof fn lemma_field_name_found(
    attributes: Seq<XmlAttr>,
    offset: usize,
    context: Context,
    model: Seq<char>,
    i: int,
)
    requires
        context.record_model == Some(model),
        model.len() > 0,
        is_arch(attributes, context) ==> references::in_arch(context),
        0 <= i < attributes.len(),
        attributes[i].name == "name"@,
        references::under_cursor(attributes[i].range_value, offset),
    ensures
        references::field_trace(attributes, offset, context).references.contains(
            Reference::Field {
                model,
                name: attributes[i].value,
                range: attributes[i].range_value,
            },
        ),
    decreases attributes.len(),
{
    let n = attributes.len() - 1;
    let front = attributes.drop_last();
    let r = Reference::Field {
        model,
        name: attributes[i].value,
        range: attributes[i].range_value,
    };
    let all = references::field_trace(attributes, offset, context).references;
    let before = references::field_trace(front, offset, context);
    if is_arch(front, context) {
        let j = choose|j: int|
            0 <= j < front.len() && (#[trigger] front[j]).name == "name"@ && front[j].value
                == "arch"@;
        assert(attributes[j] == front[j]);
    }
    law_arch_fields_of_view_model(attributes, offset, context);
    if i < n {
        assert(front[i] == attributes[i]);
        lemma_field_name_found(front, offset, context, model, i);
        let j = choose|j: int| 0 <= j < before.references.len() && before.references[j] == r;
        assert(all[j] == r);
    } else {
        assert(attributes.last() == attributes[i]);
        assert(all[before.references.len() as int] == r);
    }
}

/// The name of a field in a record of a model, or in the architecture of a view for it, with the
/// cursor on it, is a reference to that field of the model. The name of the field that opens the
/// architecture is looked up in the view's model.
pub proof fn law_field_name_refers_to_field(
    scene: Scene,
    node: XmlTree,
    context: Context,
    model: Seq<char>,
    i: int,
)
    requires
        node.is_element("field"@),
        context.record_model == Some(model),
        model.len() > 0,
        is_arch(node.attributes, context) ==> references::in_arch(context),
        0 <= i < node.attributes.len(),
        node.attributes[i].name == "name"@,
        references::under_cursor(node.attributes[i].range_value, scene.offset),
    ensures
        references::trace(scene, node, context).references.contains(
            Reference::Field {
                model,
                name: node.attributes[i].value,
                range: node.attributes[i].range_value,
            },
        ),
{
    references::lemma_tags_differ();
    lemma_field_name_found(node.attributes, scene.offset, context, model, i);
    let r = Reference::Field {
        model,
        name: node.attributes[i].value,
        range: node.attributes[i].range_value,
    };
    let head = references::field_trace(node.attributes, scene.offset, context).references;
    let j = choose|j: int| 0 <= j < head.len() && head[j] == r;
    assert(references::trace(scene, node, context).references[j] == r);
}

/// Whether an attribute of an element `tag` is the reference `r`: a record's `model`, a field's
/// `name`, or an attribute that holds an XML id.
pub open spec fn attr_refers(tag: Seq<char>, attr: XmlAttr, r: Reference) -> bool {
    &&& r.range() == attr.range_value
    &&& match r {
        Reference::Model { name, .. } => tag == "record"@ && attr.name == "model"@ && name
            == attr.value,
        Reference::Field { name, .. } => tag == "field"@ && attr.name == "name"@ && name
            == attr.value,
        Reference::XmlId { xml_id, .. } => references::holds_xml_id(tag, attr.name) && xml_id
            == attr.value,
    }
}

/// Whether the reference `r` stands in a node: as an attribute, or as a text that names a model.
pub open spec fn stands_in(node: XmlTree, r: Reference) -> bool
    decreases node,
{
    ||| node.kind matches XmlKind::Element(tag) && exists|i: int|
        0 <= i < node.attributes.len() && attr_refers(tag, #[trigger] node.attributes[i], r)
    ||| node.kind matches XmlKind::Text(t) && r == (Reference::Model {
        name: t,
        range: node.range,
    })
    ||| exists|i: int| 0 <= i < node.children.len() && stands_in(#[trigger] node.children[i], r)
}

/// Whether the reference `r` stands in one of some nodes.
pub open spec fn stands_among(nodes: Seq<XmlTree>, r: Reference) -> bool {
    exists|i: int| 0 <= i < nodes.len() && stands_in(#[trigger] nodes[i], r)
}

proof fn lemma_attrs_refer(
    node: XmlTree,
    tag: Seq<char>,
    f: spec_fn(XmlAttr) -> Option<Reference>,
    r: Reference,
)
    requires
        node.kind == XmlKind::Element(tag),
        forall|a: XmlAttr| #[trigger] f(a) matches Some(x) ==> attr_refers(tag, a, x),
        node.attributes.filter_map(f).contains(r),
    ensures
        stands_in(node, r),
{
    node.attributes.lemma_filter_map_contains(f, r);
    let a = choose|a: XmlAttr| #[trigger] node.attributes.contains(a) && f(a) == Some(r);
    let i = choose|i: int| 0 <= i < node.attributes.len() && node.attributes[i] == a;
    assert(attr_refers(tag, node.attributes[i], r));
}

proof fn lemma_field_attrs_refer(
    attributes: Seq<XmlAttr>,
    offset: usize,
    context: Context,
    r: Reference,
) -> (i: int)
    requires
        references::field_trace(attributes, offset, context).references.contains(r),
    ensures
        0 <= i < attributes.len(),
        attr_refers("field"@, attributes[i], r),
    decreases attributes.len(),
{
    references::lemma_tags_differ();
    let all = references::field_trace(attributes, offset, context).references;
    let before = references::field_trace(attributes.drop_last(), offset, context).references;
    let k = choose|k: int| 0 <= k < all.len() && all[k] == r;
    if k < before.len() {
        assert(before[k] == r);
        let i = lemma_field_attrs_refer(attributes.drop_last(), offset, context, r);
        assert(attributes[i] == attributes.drop_last()[i]);
        i
    } else {
        attributes.len() - 1
    }
}

proof fn lemma_node_refers(scene: Scene, node: XmlTree, context: Context, r: Reference)
    requires
        references::trace(scene, node, context).references.contains(r),
    ensures
        stands_in(node, r),
    decreases node, 1int,
{
    references::lemma_tags_differ();
    let all = references::trace(scene, node, context).references;
    let k = choose|k: int| 0 <= k < all.len() && all[k] == r;
    match node.kind {
        XmlKind::Element(tag) => {
            let inner = if tag == "record"@ {
                references::record_body_context(scene, node, context)
            } else if tag == "field"@ {
                references::field_trace(node.attributes, scene.offset, context).context
            } else {
                context
            };
            let body = references::trace_all(scene, node.children, inner).references;
            let f = if tag == "record"@ {
                |a: XmlAttr| references::record_reference(a, scene.offset)
            } else if tag == "menuitem"@ {
                |a: XmlAttr| references::menu_item_reference(a, scene.offset)
            } else {
                |a: XmlAttr| references::template_reference(a, scene.offset)
            };
            let head = if tag == "field"@ {
                references::field_trace(node.attributes, scene.offset, context).references
            } else if tag == "record"@ || tag == "menuitem"@ || tag == "template"@ {
                node.attributes.filter_map(f)
            } else {
                Seq::empty()
            };
            assert(all =~= head + body);
            if k < head.len() {
                assert(head[k] == r);
                if tag == "field"@ {
                    let i = lemma_field_attrs_refer(node.attributes, scene.offset, context, r);
                    assert(attr_refers(tag, node.attributes[i], r));
                } else {
                    lemma_attrs_refer(node, tag, f, r);
                }
            } else {
                assert(body[k - head.len()] == r);
                lemma_nodes_refer(scene, node.children, inner, r);
                let i = choose|i: int|
                    0 <= i < node.children.len() && stands_in(#[trigger] node.children[i], r);
                assert(stands_in(node.children[i], r));
            }
        },
        XmlKind::Text(_) => {},
        XmlKind::Other => {},
    }
}

proof fn lemma_nodes_refer(scene: Scene, nodes: Seq<XmlTree>, context: Context, r: Reference)
    requires
        references::trace_all(scene, nodes, context).references.contains(r),
    ensures
        stands_among(nodes, r),
    decreases nodes, 0int,
{
    let all = references::trace_all(scene, nodes, context).references;
    let front = nodes.drop_last();
    let before = references::trace_all(scene, front, context);
    let k = choose|k: int| 0 <= k < all.len() && all[k] == r;
    if k < before.references.len() {
        assert(before.references[k] == r);
        lemma_nodes_refer(scene, front, context, r);
        let i = choose|i: int| 0 <= i < front.len() && stands_in(#[trigger] front[i], r);
        assert(stands_in(nodes[i], r));
    } else {
        let last = references::trace(scene, nodes.last(), before.context).references;
        assert(last[k - before.references.len()] == r);
        lemma_node_refers(scene, nodes.last(), before.context, r);
        assert(stands_in(nodes[nodes.len() - 1], r));
    }
}

/// Whether a search in the file `root` with the cursor at `offset` may follow `r`: it stands in
/// the file, and the cursor is on it.
pub open spec fn followed(root: XmlTree, offset: usize, r: Reference) -> bool {
    stands_among(root.children, r) && references::under_cursor(r.range(), offset)
}

/// Every reference that a search follows stands in the file, under the cursor: it is a record's
/// `model`, a field's `name`, a text, a record's `id`, a field's `ref`, a menu item's `action` or
/// `groups`, or a template's `inherit_id` or `groups`.
pub proof fn law_references_stand_in_file(scene: Scene, root: XmlTree, r: Reference)
    requires
        references::references(scene, root).contains(r),
    ensures
        followed(root, scene.offset, r),
{
    lemma_nodes_refer(scene, root.children, Context::top(), r);
    law_search_under_cursor(scene, root);
}

/// The part of the file that a search makes a link of is the value of an attribute, or a text,
/// somewhere below the root: that of a reference that the search follows.
pub proof fn law_link_stands_in_file(scene: Scene, root: XmlTree)
    ensures
        seqs::last_of(
            references::all_links(scene.odoo, references::references(scene, root)),
        ) matches Some(link) ==> exists|r: Reference| #[trigger]
            followed(root, scene.offset, r) && r.range() == link,
{
    let refs = references::references(scene, root);
    let l = |r: Reference| references::link_of(scene.odoo, r);
    let links = references::all_links(scene.odoo, refs);
    if links.len() > 0 {
        let link = links.last();
        assert(links.contains(link));
        refs.lemma_filter_map_contains(l, link);
        let r = choose|r: Reference| #[trigger] refs.contains(r) && l(r) == Some(link);
        law_references_stand_in_file(scene, root, r);
    }
}

/// What a search finds comes from a reference that stands in the file under the cursor: a symbol
/// from the name of a model or a field, a part of an XML file from an XML id.
pub proof fn law_results_come_from_references(
    scene: Scene,
    on_dep_only: bool,
    root: XmlTree,
    result: XmlAstResult,
)
    requires
        references::all_results(scene, on_dep_only, references::references(scene, root)).contains(
            result,
        ),
    ensures
        exists|r: Reference| #[trigger]
            followed(root, scene.offset, r) && references::results_of(
                scene,
                on_dep_only,
                r,
            ).contains(result) && (r is XmlId <==> result is XML_DATA),
{
    let refs = references::references(scene, root);
    let f = |r: Reference| references::results_of(scene, on_dep_only, r);
    seqs::lemma_flat_map_contains(refs, f, result);
    let i = choose|i: int| 0 <= i < refs.len() && f(#[trigger] refs[i]).contains(result);
    assert(refs.contains(refs[i]));
    law_references_stand_in_file(scene, root, refs[i]);
    law_kinds_of_results(scene, on_dep_only, refs[i], result);
}

/// References that lead somewhere make a link.
pub proof fn law_results_come_with_link(
    scene: Scene,
    on_dep_only: bool,
    refs: Seq<Reference>,
)
    ensures
        references::all_results(scene, on_dep_only, refs).len() > 0 ==> references::all_links(
            scene.odoo,
            refs,
        ).len() > 0,
{
    let results = references::all_results(scene, on_dep_only, refs);
    if results.len() > 0 {
        let f = |r: Reference| references::results_of(scene, on_dep_only, r);
        let l = |r: Reference| references::link_of(scene.odoo, r);
        assert(results.contains(results[0]));
        seqs::lemma_flat_map_contains(refs, f, results[0]);
        let i = choose|i: int| 0 <= i < refs.len() && f(#[trigger] refs[i]).contains(results[0]);
        assert(f(refs[i]).len() > 0);
        assert(l(refs[i]) is Some);
        seqs::lemma_filter_map_keeps(refs, l, i);
    }
}

/// The parts of the file that a node's attributes and texts cover, in document order.
pub open spec fn spots(node: XmlTree) -> Seq<Range<usize>>
    decreases node, 1int,
{
    let own = node.attributes.map_values(|a: XmlAttr| a.range_value);
    let texts = if node.kind is Text {
        seq![node.range]
    } else {
        Seq::empty()
    };
    own + texts + spots_all(node.children)
}

/// The parts of the file that the attributes and texts of some nodes cover, in document order.
pub open spec fn spots_all(nodes: Seq<XmlTree>) -> Seq<Range<usize>>
    decreases nodes, 0int,
{
    if nodes.len() == 0 {
        Seq::empty()
    } else {
        spots_all(nodes.drop_last()) + spots(nodes.last())
    }
}

/// Whether some parts of a file lie apart.
pub open spec fn apart(ranges: Seq<Range<usize>>) -> bool {
    forall|i: int, j: int|
        0 <= i < j < ranges.len() ==> (#[trigger] ranges[i]).end < (#[trigger] ranges[j]).start
            || ranges[j].end < ranges[i].start
}

/// Whether the cursor is on at most one of some parts of a file.
pub open spec fn on_one_at_most(ranges: Seq<Range<usize>>, offset: usize) -> bool {
    forall|i: int, j: int|
        0 <= i < j < ranges.len() ==> !(references::under_cursor(#[trigger] ranges[i], offset)
            && references::under_cursor(#[trigger] ranges[j], offset))
}

/// Those of some parts of a file that the cursor is on.
spec fn touched(ranges: Seq<Range<usize>>, offset: usize) -> Seq<Range<usize>> {
    ranges.filter(|r: Range<usize>| references::under_cursor(r, offset))
}

proof fn lemma_touched_concat(a: Seq<Range<usize>>, b: Seq<Range<usize>>, offset: usize)
    ensures
        touched(a + b, offset) == touched(a, offset) + touched(b, offset),
{
    Seq::filter_distributes_over_add(
        a,
        b,
        |r: Range<usize>| references::under_cursor(r, offset),
    );
}

proof fn lemma_touched_last(ranges: Seq<Range<usize>>, offset: usize)
    requires
        ranges.len() > 0,
    ensures
        touched(ranges, offset) == (if references::under_cursor(ranges.last(), offset) {
            touched(ranges.drop_last(), offset).push(ranges.last())
        } else {
            touched(ranges.drop_last(), offset)
        }),
{
    reveal(Seq::filter);
}

proof fn lemma_touched_once(ranges: Seq<Range<usize>>, offset: usize)
    requires
        on_one_at_most(ranges, offset),
    ensures
        touched(ranges, offset).len() <= 1,
    decreases ranges.len(),
{
    if ranges.len() == 0 {
        reveal(Seq::filter);
    } else {
        let front = ranges.drop_last();
        assert(on_one_at_most(front, offset)) by {
            assert forall|i: int, j: int| 0 <= i < j < front.len() implies !(
            references::under_cursor(#[trigger] front[i], offset) && references::under_cursor(
                #[trigger] front[j],
                offset,
            )) by {
                assert(front[i] == ranges[i] && front[j] == ranges[j]);
            }
        }
        lemma_touched_once(front, offset);
        lemma_touched_last(ranges, offset);
        let before = touched(front, offset);
        if before.len() > 0 {
            let p = |r: Range<usize>| references::under_cursor(r, offset);
            front.lemma_filter_pred(p, 0);
            assert(before.contains(before[0]));
            front.lemma_filter_contains_rev(p, before[0]);
            let i = choose|i: int| 0 <= i < front.len() && front[i] == before[0];
            assert(ranges[i] == before[0]);
            assert(ranges[ranges.len() - 1] == ranges.last());
        }
    }
}

proof fn lemma_attrs_touched(
    attributes: Seq<XmlAttr>,
    f: spec_fn(XmlAttr) -> Option<Reference>,
    offset: usize,
)
    requires
        forall|a: XmlAttr|
            #[trigger] f(a) is Some ==> references::under_cursor(a.range_value, offset),
    ensures
        attributes.filter_map(f).len() <= touched(
            attributes.map_values(|a: XmlAttr| a.range_value),
            offset,
        ).len(),
    decreases attributes.len(),
{
    let g = |a: XmlAttr| a.range_value;
    if attributes.len() > 0 {
        let n = attributes.len() - 1;
        lemma_attrs_touched(attributes.drop_last(), f, offset);
        assert(attributes.map_values(g).drop_last() =~= attributes.drop_last().map_values(g));
        lemma_touched_last(attributes.map_values(g), offset);
        assert(attributes.take(n + 1) =~= attributes);
        assert(attributes.take(n) =~= attributes.drop_last());
        seqs::lemma_filter_map_take(attributes, f, n);
        assert(f(attributes[n]) is Some ==> references::under_cursor(g(attributes[n]), offset));
    }
}

proof fn lemma_field_attrs_touched(attributes: Seq<XmlAttr>, offset: usize, context: Context)
    ensures
        references::field_trace(attributes, offset, context).references.len() <= touched(
            attributes.map_values(|a: XmlAttr| a.range_value),
            offset,
        ).len(),
    decreases attributes.len(),
{
    let g = |a: XmlAttr| a.range_value;
    if attributes.len() > 0 {
        lemma_field_attrs_touched(attributes.drop_last(), offset, context);
        assert(attributes.map_values(g).drop_last() =~= attributes.drop_last().map_values(g));
        lemma_touched_last(attributes.map_values(g), offset);
    }
}

proof fn lemma_node_touched(scene: Scene, node: XmlTree, context: Context)
    ensures
        references::trace(scene, node, context).references.len() <= touched(
            spots(node),
            scene.offset,
        ).len(),
    decreases node, 1int,
{
    let g = |a: XmlAttr| a.range_value;
    let own = node.attributes.map_values(g);
    let texts = if node.kind is Text {
        seq![node.range]
    } else {
        Seq::empty()
    };
    lemma_touched_concat(own, texts, scene.offset);
    lemma_touched_concat(own + texts, spots_all(node.children), scene.offset);
    match node.kind {
        XmlKind::Element(tag) => {
            references::lemma_tags_differ();
            if tag == "record"@ {
                lemma_attrs_touched(
                    node.attributes,
                    |a: XmlAttr| references::record_reference(a, scene.offset),
                    scene.offset,
                );
                lemma_nodes_touched(
                    scene,
                    node.children,
                    references::record_body_context(scene, node, context),
                );
            } else if tag == "field"@ {
                lemma_field_attrs_touched(node.attributes, scene.offset, context);
                lemma_nodes_touched(
                    scene,
                    node.children,
                    references::field_trace(node.attributes, scene.offset, context).context,
                );
            } else {
                lemma_attrs_touched(
                    node.attributes,
                    |a: XmlAttr| references::menu_item_reference(a, scene.offset),
                    scene.offset,
                );
                lemma_attrs_touched(
                    node.attributes,
                    |a: XmlAttr| references::template_reference(a, scene.offset),
                    scene.offset,
                );
                lemma_nodes_touched(scene, node.children, context);
            }
        },
        XmlKind::Text(_) => {
            lemma_touched_last(texts, scene.offset);
        },
        XmlKind::Other => {},
    }
}

proof fn lemma_nodes_touched(scene: Scene, nodes: Seq<XmlTree>, context: Context)
    ensures
        references::trace_all(scene, nodes, context).references.len() <= touched(
            spots_all(nodes),
            scene.offset,
        ).len(),
    decreases nodes, 0int,
{
    if nodes.len() > 0 {
        let front = nodes.drop_last();
        lemma_nodes_touched(scene, front, context);
        lemma_node_touched(
            scene,
            nodes.last(),
            references::trace_all(scene, front, context).context,
        );
        lemma_touched_concat(spots_all(front), spots(nodes.last()), scene.offset);
    }
}

/// With the cursor on at most one attribute value or text, a search follows at most one reference,
/// and what it finds is of one kind: symbols only, or parts of XML files only.
pub proof fn law_one_kind_of_results(scene: Scene, on_dep_only: bool, root: XmlTree)
    requires
        on_one_at_most(spots_all(root.children), scene.offset),
    ensures
        references::references(scene, root).len() <= 1,
        ({
            let found = references::all_results(
                scene,
                on_dep_only,
                references::references(scene, root),
            );
            ||| forall|i: int| 0 <= i < found.len() ==> (#[trigger] found[i]) is SYMBOL
            ||| forall|i: int| 0 <= i < found.len() ==> (#[trigger] found[i]) is XML_DATA
        }),
{
    lemma_nodes_touched(scene, root.children, Context::top());
    lemma_touched_once(spots_all(root.children), scene.offset);
    let refs = references::references(scene, root);
    let f = |r: Reference| references::results_of(scene, on_dep_only, r);
    if refs.len() == 0 {
        assert(refs =~= Seq::<Reference>::empty());
        seqs::lemma_flat_map_empty::<Reference, XmlAstResult>(f);
    } else {
        let r = refs[0];
        assert(refs =~= seq![r]);
        seqs::lemma_flat_map_one(r, f);
        let found = references::all_results(scene, on_dep_only, refs);
        assert forall|i: int| 0 <= i < found.len() implies (r is XmlId ==> (
        #[trigger] found[i]) is XML_DATA) && (r !is XmlId ==> found[i] is SYMBOL) by {
            assert(references::results_of(scene, on_dep_only, r).contains(found[i]));
            law_kinds_of_results(scene, on_dep_only, r, found[i]);
        }
    }
}

/// In a file whose attribute values and texts lie apart, a search finds results of one kind
/// wherever the cursor is.
pub proof fn law_one_kind_at_every_cursor(
    odoo: SyncOdoo,
    module: Option<SymbolId>,
    on_dep_only: bool,
    root: XmlTree,
    offset: usize,
)
    requires
        apart(spots_all(root.children)),
    ensures
        ({
            let scene = Scene { odoo, module, offset };
            let found = references::all_results(
                scene,
                on_dep_only,
                references::references(scene, root),
            );
            ||| forall|i: int| 0 <= i < found.len() ==> (#[trigger] found[i]) is SYMBOL
            ||| forall|i: int| 0 <= i < found.len() ==> (#[trigger] found[i]) is XML_DATA
        }),
{
    law_one_kind_of_results(Scene { odoo, module, offset }, on_dep_only, root);
}

/// An element that is no record, field, menu item or template is read as its children are, one
/// after the other; its own attributes have no effect.
pub proof fn law_other_elements_read_as_children(scene: Scene, node: XmlTree, context: Context)
    requires
        node.kind is Element,
        !node.is_element("record"@),
        !node.is_element("field"@),
        !node.is_element("menuitem"@),
        !node.is_element("template"@),
    ensures
        references::trace(scene, node, context) == references::trace_all(
            scene,
            node.children,
            context,
        ),
        forall|attributes: Seq<XmlAttr>|
            references::trace(scene, (#[trigger] with_attributes(node, attributes)), context)
                == references::trace(scene, node, context),
{
}

/// A node with other attributes.
pub open spec fn with_attributes(node: XmlTree, attributes: Seq<XmlAttr>) -> XmlTree {
    XmlTree { attributes, ..node }
}

/// A reading only adds to what was found before. It leaves the link alone or sets one that is
/// under the cursor, and adds nothing without such a link.
pub proof fn law_visit_only_adds(
    scene: Scene,
    on_dep_only: bool,
    node: XmlTree,
    context: Context,
    before: (Seq<XmlAstResult>, Option<Range<usize>>),
    after: (Seq<XmlAstResult>, Option<Range<usize>>),
)
    requires
        references::grown(
            scene,
            on_dep_only,
            references::trace(scene, node, context).references,
            before,
            after,
        ),
    ensures
        before.0.is_prefix_of(after.0),
        after.1 == before.1 || (after.1 matches Some(link) && references::under_cursor(
            link,
            scene.offset,
        )),
        after.0 != before.0 ==> (after.1 matches Some(link) && references::under_cursor(
            link,
            scene.offset,
        )),
{
    let refs = references::trace(scene, node, context).references;
    lemma_node_under_cursor(scene, node, context);
    law_results_come_with_link(scene, on_dep_only, refs);
    let l = |r: Reference| references::link_of(scene.odoo, r);
    let links = references::all_links(scene.odoo, refs);
    if links.len() > 0 {
        let link = links.last();
        assert(links.contains(link));
        refs.lemma_filter_map_contains(l, link);
        let r = choose|r: Reference| #[trigger] refs.contains(r) && l(r) == Some(link);
        let i = choose|i: int| 0 <= i < refs.len() && refs[i] == r;
        assert(references::under_cursor(refs[i].range(), scene.offset));
    }
    if references::all_results(scene, on_dep_only, refs).len() == 0 {
        assert(after.0 =~= before.0);
    }
}

/// Whether surroundings know of no field and no view but those that `before` knows of.
pub open spec fn adds_none(before: Context, after: Context) -> bool {
    &&& after.field_name is Some ==> after.field_name == before.field_name
    &&& after.view_arch_model is Some ==> after.view_arch_model == before.view_arch_model
}

/// A reading leaves no name of a field behind, and no model of a view, that did not hold before.
pub proof fn law_visit_leaves_no_surroundings(scene: Scene, node: XmlTree, context: Context)
    ensures
        adds_none(context, references::trace(scene, node, context).context),
    decreases node, 1int,
{
    match node.kind {
        XmlKind::Element(tag) => {
            references::lemma_tags_differ();
            let inner = if tag == "record"@ {
                references::record_body_context(scene, node, context)
            } else if tag == "field"@ {
                references::field_trace(node.attributes, scene.offset, context).context
            } else {
                context
            };
            lemma_record_keeps_field(node.attributes, context);
            law_arch_fields_of_view_model(node.attributes, scene.offset, context);
            lemma_nodes_leave_no_surroundings(scene, node.children, inner);
        },
        XmlKind::Text(_) => {},
        XmlKind::Other => {},
    }
}

proof fn lemma_record_keeps_field(attributes: Seq<XmlAttr>, context: Context)
    ensures
        references::record_context(attributes, context).field_name == context.field_name,
    decreases attributes.len(),
{
    if attributes.len() > 0 {
        lemma_record_keeps_field(attributes.drop_last(), context);
    }
}

proof fn lemma_nodes_leave_no_surroundings(scene: Scene, nodes: Seq<XmlTree>, context: Context)
    ensures
        adds_none(context, references::trace_all(scene, nodes, context).context),
    decreases nodes, 0int,
{
    if nodes.len() > 0 {
        let front = nodes.drop_last();
        lemma_nodes_leave_no_surroundings(scene, front, context);
        law_visit_leaves_no_surroundings(
            scene,
            nodes.last(),
            references::trace_all(scene, front, context).context,
        );
    }
}

/// Whether the directory `name` is one of those that the module symbol `own` depends on.
pub open spec fn lists_dependency(own: Symbol, name: Seq<char>) -> bool {
    exists|i: int|
        0 <= i < own.kind->Package_0->Module_0.in_deps@.len() && (
        #[trigger] own.kind->Package_0->Module_0.in_deps@[i])@ == name
}

/// Whether `module` belongs to a module that depends on the one that the file belongs to.
pub open spec fn file_in_dependencies(odoo: SyncOdoo, module: SymbolId, file: SymbolId) -> bool {
    match (odoo.symbols@[module as int].module, odoo.symbols@[file as int].module) {
        (Some(own), Some(theirs)) => lists_dependency(
            odoo.symbols@[own as int],
            odoo.symbols@[theirs as int].name@,
        ),
        _ => false,
    }
}

/// Whether `option` is what a datum adds to the results: a record in a loaded file its place,
/// whatever its fields; with `on_dep_only` if its file is in the dependencies. Any other datum
/// adds nothing.
pub open spec fn is_found_at(
    odoo: SyncOdoo,
    module: SymbolId,
    on_dep_only: bool,
    datum: OdooData,
    option: Option<XmlAstResult>,
) -> bool {
    match datum {
        OdooData::RECORD(record) => match record.file_symbol {
            Some(file) => if !on_dep_only || file_in_dependencies(odoo, module, file) {
                option == Some(XmlAstResult::XML_DATA(file, record.range))
            } else {
                option is None
            },
            None => option is None,
        },
        OdooData::OTHER(_) => option is None,
    }
}

/// Whether `results` are the places of the records among `data`, in order and each once.
pub open spec fn are_found_at(
    odoo: SyncOdoo,
    module: SymbolId,
    on_dep_only: bool,
    data: Seq<OdooData>,
    results: Seq<XmlAstResult>,
) -> bool {
    exists|options: Seq<Option<XmlAstResult>>|
        options.len() == data.len() && #[trigger] seqs::is_selection(options, results)
            && forall|k: int|
            0 <= k < options.len() ==> is_found_at(
                odoo,
                module,
                on_dep_only,
                data[k],
                #[trigger] options[k],
            )
}

proof fn lemma_datum_found(odoo: SyncOdoo, module: SymbolId, on_dep_only: bool, datum: OdooData)
    ensures
        is_found_at(
            odoo,
            module,
            on_dep_only,
            datum,
            references::datum_result(odoo, module, on_dep_only, datum),
        ),
{
    if let Some(file) = datum.file_symbol() {
        if let (Some(own), Some(theirs)) = (odoo.symbol(module).module, odoo.symbol(file).module) {
            let name = odoo.symbol(theirs).name@;
            let deps = odoo.symbol(own).kind->Package_0->Module_0.in_deps@;
            assert(odoo.symbol(own).as_module().in_deps@ == deps);
            if odoo.is_in_deps(own, name) {
                let i = choose|i: int| 0 <= i < deps.len() && (#[trigger] deps[i])@ == name;
                assert(lists_dependency(odoo.symbol(own), name));
            }
            if lists_dependency(odoo.symbol(own), name) {
                let i = choose|i: int| 0 <= i < deps.len() && (#[trigger] deps[i])@ == name;
                assert(odoo.is_in_deps(own, name));
            }
        }
    }
}

/// An XML id leads to every record that it stands for, in order and each once, whatever the record
/// holds: to those in loaded files, and with the limit to dependencies to those in them.
pub proof fn law_every_record_is_found(
    odoo: SyncOdoo,
    module: SymbolId,
    xml_id: Seq<char>,
    on_dep_only: bool,
    e: int,
)
    requires
        0 <= e < odoo.xml_ids@.len(),
        odoo.xml_ids@[e].from_file == module,
        odoo.xml_ids@[e].xml_id@ == xml_id,
        forall|j: int|
            0 <= j < e ==> !((#[trigger] odoo.xml_ids@[j]).from_file == module
                && odoo.xml_ids@[j].xml_id@ == xml_id),
    ensures
        are_found_at(
            odoo,
            module,
            on_dep_only,
            odoo.xml_ids@[e].data@,
            references::xml_id_results(odoo, module, xml_id, on_dep_only),
        ),
{
    session::law_first_entry_of_an_xml_id(odoo, module, xml_id, e);
    let data = odoo.xml_ids@[e].data@;
    let f = |d: OdooData| references::datum_result(odoo, module, on_dep_only, d);
    seqs::lemma_filter_map_selects(data, f);
    let options = data.map_values(f);
    assert forall|k: int| 0 <= k < options.len() implies is_found_at(
        odoo,
        module,
        on_dep_only,
        data[k],
        #[trigger] options[k],
    ) by {
        lemma_datum_found(odoo, module, on_dep_only, data[k]);
    }
    assert(seqs::is_selection(
        options,
        references::xml_id_results(odoo, module, xml_id, on_dep_only),
    ));
}

/// A record in a loaded file, within the limit if there is one, is among what its XML id leads to.
pub proof fn law_record_is_found(
    odoo: SyncOdoo,
    module: SymbolId,
    xml_id: Seq<char>,
    on_dep_only: bool,
    e: int,
    d: int,
    record: OdooDataRecord,
    file: SymbolId,
)
    requires
        0 <= e < odoo.xml_ids@.len(),
        odoo.xml_ids@[e].from_file == module,
        odoo.xml_ids@[e].xml_id@ == xml_id,
        forall|j: int|
            0 <= j < e ==> !((#[trigger] odoo.xml_ids@[j]).from_file == module
                && odoo.xml_ids@[j].xml_id@ == xml_id),
        0 <= d < odoo.xml_ids@[e].data@.len(),
        odoo.xml_ids@[e].data@[d] == OdooData::RECORD(record),
        record.file_symbol == Some(file),
        !on_dep_only || file_in_dependencies(odoo, module, file),
    ensures
        references::xml_id_results(odoo, module, xml_id, on_dep_only).contains(
            XmlAstResult::XML_DATA(file, record.range),
        ),
{
    session::law_first_entry_of_an_xml_id(odoo, module, xml_id, e);
    let data = odoo.xml_ids@[e].data@;
    let f = |x: OdooData| references::datum_result(odoo, module, on_dep_only, x);
    lemma_datum_found(odoo, module, on_dep_only, data[d]);
    seqs::lemma_filter_map_keeps(data, f, d);
}

/// An XML id without an entry leads nowhere.
pub proof fn law_unknown_xml_id_leads_nowhere(
    odoo: SyncOdoo,
    module: SymbolId,
    xml_id: Seq<char>,
    on_dep_only: bool,
)
    requires
        forall|j: int|
            0 <= j < odoo.xml_ids@.len() ==> !((#[trigger] odoo.xml_ids@[j]).from_file == module
                && odoo.xml_ids@[j].xml_id@ == xml_id),
    ensures
        references::xml_id_results(odoo, module, xml_id, on_dep_only).len() == 0,
{
    session::law_first_entry_of_an_xml_id(odoo, module, xml_id, odoo.xml_ids@.len() as int);
}

/// Whether `listing` is the one that shows the model `name` to `from_module`, with or without what
/// it inherits: the first such of the first model of that name.
pub open spec fn is_listing_of(
    odoo: SyncOdoo,
    name: Seq<char>,
    from_module: Option<SymbolId>,
    with_inheritance: bool,
    listing: ModelListing,
    m: int,
    l: int,
) -> bool {
    &&& is_model_of(odoo, name, m)
    &&& 0 <= l < odoo.models@[m].listings@.len()
    &&& odoo.models@[m].listings@[l] == listing
    &&& listing.from_module == from_module
    &&& listing.with_inheritance == with_inheritance
    &&& forall|j: int|
        0 <= j < l ==> !((#[trigger] odoo.models@[m].listings@[j]).from_module == from_module
            && odoo.models@[m].listings@[j].with_inheritance == with_inheritance)
}

/// Whether `m` is the place of the first model called `name`.
pub open spec fn is_model_of(odoo: SyncOdoo, name: Seq<char>, m: int) -> bool {
    &&& 0 <= m < odoo.models@.len()
    &&& odoo.models@[m].name@ == name
    &&& forall|j: int| 0 <= j < m ==> (#[trigger] odoo.models@[j]).name@ != name
}

/// Whether `results` are `symbols`, one by one.
pub open spec fn are_symbols(symbols: Seq<SymbolId>, results: Seq<XmlAstResult>) -> bool {
    &&& results.len() == symbols.len()
    &&& forall|i: int|
        0 <= i < results.len() ==> #[trigger] results[i] == XmlAstResult::SYMBOL(symbols[i])
}

/// The name of a model leads to the classes that make it up, without those that it inherits from,
/// in order: to all of them, or with the limit to dependencies to those that the module sees.
pub proof fn law_model_leads_to_its_classes(
    scene: Scene,
    on_dep_only: bool,
    name: Seq<char>,
    range: Range<usize>,
    listing: ModelListing,
    m: int,
    l: int,
)
    requires
        is_listing_of(
            scene.odoo,
            name,
            if on_dep_only {
                scene.module
            } else {
                None
            },
            false,
            listing,
            m,
            l,
        ),
    ensures
        exists|symbols: Seq<SymbolId>| #[trigger]
            session::seen_of(listing, symbols) && are_symbols(
                symbols,
                references::results_of(scene, on_dep_only, Reference::Model { name, range }),
            ),
        references::link_of(scene.odoo, Reference::Model { name, range }) == Some(range),
{
    let from = references::scope(scene.module, on_dep_only);
    session::law_first_model_of_a_name(scene.odoo, name, m);
    let model = scene.odoo.models@[m];
    session::law_first_listing_seen(model, from, false, l);
    let symbols = model.reachable_symbols(from, false);
    assert(session::seen_of(listing, symbols));
    assert(are_symbols(
        symbols,
        references::results_of(scene, on_dep_only, Reference::Model { name, range }),
    ));
}

/// Whether `c` is the place of the first entry for `name` in what a symbol holds.
pub open spec fn is_content_of(symbol: Symbol, name: Seq<char>, c: int) -> bool {
    &&& 0 <= c < symbol.content@.len()
    &&& symbol.content@[c].name@ == name
    &&& forall|j: int| 0 <= j < c ==> (#[trigger] symbol.content@[j]).name@ != name
}

/// Whether `part` is what a class holds under `name`.
pub open spec fn is_held(symbol: Symbol, name: Seq<char>, part: Seq<XmlAstResult>) -> bool {
    &&& forall|c: int| #[trigger]
        is_content_of(symbol, name, c) ==> are_symbols(symbol.content@[c].symbols@, part)
    &&& (forall|j: int| 0 <= j < symbol.content@.len() ==> (#[trigger] symbol.content@[j]).name@
        != name) ==> part.len() == 0
}

/// The name of a field leads to what each class of the model, and each that it inherits from,
/// holds under that name, class by class.
pub proof fn law_field_leads_to_its_definitions(
    scene: Scene,
    on_dep_only: bool,
    model: Seq<char>,
    name: Seq<char>,
    range: Range<usize>,
    listing: ModelListing,
    m: int,
    l: int,
)
    requires
        is_listing_of(
            scene.odoo,
            model,
            if on_dep_only {
                scene.module
            } else {
                None
            },
            true,
            listing,
            m,
            l,
        ),
    ensures
        exists|symbols: Seq<SymbolId>, parts: Seq<Seq<XmlAstResult>>|
            #![trigger session::seen_of(listing, symbols), parts.flatten()]
            session::seen_of(listing, symbols) && parts.len() == symbols.len() && references::results_of(
                scene,
                on_dep_only,
                Reference::Field { model, name, range },
            ) == parts.flatten() && forall|i: int|
                0 <= i < symbols.len() ==> is_held(
                    scene.odoo.symbols@[symbols[i] as int],
                    name,
                    #[trigger] parts[i],
                ),
        references::link_of(scene.odoo, Reference::Field { model, name, range }) == Some(range),
{
    let from = references::scope(scene.module, on_dep_only);
    session::law_first_model_of_a_name(scene.odoo, model, m);
    let found = scene.odoo.models@[m];
    session::law_first_listing_seen(found, from, true, l);
    let symbols = found.reachable_symbols(from, true);
    let f = |s: SymbolId| references::as_results(scene.odoo.symbol(s).content_of(name));
    let parts = symbols.map_values(f);
    assert(session::seen_of(listing, symbols));
    assert forall|i: int| 0 <= i < symbols.len() implies is_held(
        scene.odoo.symbols@[symbols[i] as int],
        name,
        #[trigger] parts[i],
    ) by {
        let symbol = scene.odoo.symbols@[symbols[i] as int];
        assert forall|c: int| #[trigger] is_content_of(symbol, name, c) implies are_symbols(
            symbol.content@[c].symbols@,
            parts[i],
        ) by {
            session::law_first_content_of_a_name(symbol, name, c);
        }
        if forall|j: int| 0 <= j < symbol.content@.len() ==> (#[trigger] symbol.content@[j]).name@
            != name {
            session::law_first_content_of_a_name(symbol, name, symbol.content@.len() as int);
        }
    }
    assert(references::results_of(scene, on_dep_only, Reference::Field { model, name, range })
        == parts.flatten());
}

/// The name of an unknown model, and that of a field of one, lead nowhere and are no links.
pub proof fn law_unknown_model_leads_nowhere(
    scene: Scene,
    on_dep_only: bool,
    reference: Reference,
    name: Seq<char>,
)
    requires
        (reference matches Reference::Model { name: n, .. } && n == name) || (
        reference matches Reference::Field { model: n, .. } && n == name),
        forall|j: int| 0 <= j < scene.odoo.models@.len() ==> (#[trigger] scene.odoo.models@[j]).name@
            != name,
    ensures
        references::results_of(scene, on_dep_only, reference).len() == 0,
        references::link_of(scene.odoo, reference) is None,
{
    session::law_first_model_of_a_name(scene.odoo, name, scene.odoo.models@.len() as int);
}

/// The name of a known model that no listing shows to the module, and that of a field of one, lead
/// nowhere, but are links.
pub proof fn law_unlisted_model_leads_nowhere(
    scene: Scene,
    on_dep_only: bool,
    reference: Reference,
    name: Seq<char>,
    m: int,
)
    requires
        (reference matches Reference::Model { name: n, .. } && n == name) || (
        reference matches Reference::Field { model: n, .. } && n == name),
        is_model_of(scene.odoo, name, m),
        forall|j: int|
            0 <= j < scene.odoo.models@[m].listings@.len() ==> !((
            #[trigger] scene.odoo.models@[m].listings@[j]).from_module == (if on_dep_only {
                scene.module
            } else {
                None
            }) && scene.odoo.models@[m].listings@[j].with_inheritance == (reference is Field)),
    ensures
        references::results_of(scene, on_dep_only, reference).len() == 0,
        references::link_of(scene.odoo, reference) == Some(reference.range()),
{
    let from = references::scope(scene.module, on_dep_only);
    let model = scene.odoo.models@[m];
    session::law_first_model_of_a_name(scene.odoo, name, m);
    session::law_first_listing_seen(
        model,
        from,
        reference is Field,
        model.listings@.len() as int,
    );
    if let Reference::Field { name: field, .. } = reference {
        let f = |s: SymbolId| references::as_results(scene.odoo.symbol(s).content_of(field));
        seqs::lemma_flat_map_empty::<SymbolId, XmlAstResult>(f);
    }
}

/// An XML id leads to what it stands for in the module, and is a link wherever it leads.
pub proof fn law_xml_id_is_a_link(
    scene: Scene,
    on_dep_only: bool,
    xml_id: Seq<char>,
    range: Range<usize>,
)
    ensures
        references::link_of(scene.odoo, Reference::XmlId { xml_id, range }) == Some(range),
        scene.module matches Some(module) ==> references::results_of(
            scene,
            on_dep_only,
            Reference::XmlId { xml_id, range },
        ) == references::xml_id_results(scene.odoo, module, xml_id, on_dep_only),
{
}

/// What some references lead to is what each of them leads to, one after the other, and the link
/// is that of the last of them that makes one.
pub proof fn law_results_of_each(scene: Scene, on_dep_only: bool, refs: Seq<Reference>)
    ensures
        exists|parts: Seq<Seq<XmlAstResult>>|
            parts.len() == refs.len() && references::all_results(scene, on_dep_only, refs)
                == #[trigger] parts.flatten() && forall|i: int|
                0 <= i < parts.len() ==> #[trigger] parts[i] == references::results_of(
                    scene,
                    on_dep_only,
                    refs[i],
                ),
        forall|k: int|
            0 <= k < refs.len() && references::link_of(scene.odoo, #[trigger] refs[k]) is Some && (
            forall|j: int|
                k < j < refs.len() ==> references::link_of(scene.odoo, #[trigger] refs[j]) is None)
                ==> seqs::last_of(references::all_links(scene.odoo, refs)) == references::link_of(
                scene.odoo,
                refs[k],
            ),
        (forall|j: int|
            0 <= j < refs.len() ==> references::link_of(scene.odoo, #[trigger] refs[j]) is None)
            ==> seqs::last_of(references::all_links(scene.odoo, refs)) is None,
{
    let f = |r: Reference| references::results_of(scene, on_dep_only, r);
    let l = |r: Reference| references::link_of(scene.odoo, r);
    let parts = refs.map_values(f);
    assert(references::all_results(scene, on_dep_only, refs) == parts.flatten());
    seqs::lemma_filter_map_selects(refs, l);
    let options = refs.map_values(l);
    let links = references::all_links(scene.odoo, refs);
    let places = choose|places: Seq<int>| #[trigger] seqs::selects(options, links, places);
    assert forall|k: int|
        0 <= k < refs.len() && references::link_of(scene.odoo, #[trigger] refs[k]) is Some && (
        forall|j: int|
            k < j < refs.len() ==> references::link_of(scene.odoo, #[trigger] refs[j])
                is None) implies seqs::last_of(links) == references::link_of(
        scene.odoo,
        refs[k],
    ) by {
        assert(options[k] is Some);
        let i = choose|i: int| 0 <= i < places.len() && places[i] == k;
        let last = places.len() - 1;
        if i < last {
            assert(places[i] < places[last]);
            assert(options[places[last]] == Some(links[last]));
            assert(references::link_of(scene.odoo, refs[places[last]]) is Some);
        }
        assert(options[places[i]] == Some(links[i]));
    }
    if links.len() > 0 {
        assert(options[places[0]] == Some(links[0]));
        assert(references::link_of(scene.odoo, refs[places[0]]) is Some);
    }
}

/// Whether `i` is the place of the first attribute called `name`.
pub open spec fn is_first_attr(attributes: Seq<XmlAttr>, name: Seq<char>, i: int) -> bool {
    &&& 0 <= i < attributes.len()
    &&& attributes[i].name == name
    &&& forall|j: int| 0 <= j < i ==> (#[trigger] attributes[j]).name != name
}

/// Whether the first attribute called `name` has the given value.
pub open spec fn attr_is(attributes: Seq<XmlAttr>, name: Seq<char>, value: Seq<char>) -> bool {
    exists|i: int| #[trigger] is_first_attr(attributes, name, i) && attributes[i].value == value
}

/// Whether the first text among some nodes is `t`.
pub open spec fn first_text_is(nodes: Seq<XmlTree>, t: Seq<char>) -> bool {
    exists|i: int|
        0 <= i < nodes.len() && (#[trigger] nodes[i]).kind == XmlKind::Text(t) && forall|j: int|
            0 <= j < i ==> (#[trigger] nodes[j]).kind !is Text
}

/// Whether a node is a `field` of the given name.
pub open spec fn is_field_of_name(node: XmlTree, name: Seq<char>) -> bool {
    node.kind == XmlKind::Element("field"@) && attr_is(node.attributes, "name"@, name)
}

/// Whether a node is a field `model` whose first text, without the white space around it, is
/// `model`, and is not blank.
pub open spec fn names_model(node: XmlTree, model: Seq<char>) -> bool {
    &&& is_field_of_name(node, "model"@)
    &&& model.len() > 0
    &&& exists|t: Seq<char>| #[trigger]
        first_text_is(node.children, t) && model == text::trimmed(t)
}

proof fn lemma_attr_is(node: XmlTree, name: Seq<char>, value: Seq<char>)
    ensures
        attr_is(node.attributes, name, value) <==> node.attribute(name) == Some(value),
{
    let p = |a: XmlAttr| a.is_named(name);
    let attrs = node.attributes;
    if attr_is(attrs, name, value) {
        let i = choose|i: int| #[trigger]
            is_first_attr(attrs, name, i) && attrs[i].value == value;
        seqs::lemma_find_first_at(attrs, p, i);
    }
    if node.attribute(name) == Some(value) {
        seqs::lemma_first_place(attrs, p);
        let i = choose|i: int|
            0 <= i < attrs.len() && p(#[trigger] attrs[i]) && seqs::find_first(attrs, p) == Some(
                attrs[i],
            ) && forall|j: int| 0 <= j < i ==> !p(#[trigger] attrs[j]);
        assert forall|j: int| 0 <= j < i implies (#[trigger] attrs[j]).name != name by {
            assert(!p(attrs[j]));
        }
        assert(is_first_attr(attrs, name, i));
    }
}

proof fn lemma_names_model(node: XmlTree, model: Seq<char>)
    ensures
        names_model(node, model) <==> references::declared_model(node) == Some(model),
{
    let p = |c: XmlTree| c.kind is Text;
    let nodes = node.children;
    lemma_attr_is(node, "name"@, "model"@);
    assert forall|t: Seq<char>| #[trigger] first_text_is(nodes, t) implies node.first_text()
        == Some(t) by {
        let i = choose|i: int|
            0 <= i < nodes.len() && (#[trigger] nodes[i]).kind == XmlKind::Text(t) && forall|j: int|
                0 <= j < i ==> (#[trigger] nodes[j]).kind !is Text;
        assert forall|j: int| 0 <= j < i implies !p(#[trigger] nodes[j]) by {}
        seqs::lemma_find_first_at(nodes, p, i);
    }
    if let Some(t) = node.first_text() {
        seqs::lemma_first_place(nodes, p);
        let i = choose|i: int|
            0 <= i < nodes.len() && p(#[trigger] nodes[i]) && seqs::find_first(nodes, p) == Some(
                nodes[i],
            ) && forall|j: int| 0 <= j < i ==> !p(#[trigger] nodes[j]);
        assert forall|j: int| 0 <= j < i implies (#[trigger] nodes[j]).kind !is Text by {
            assert(!p(nodes[j]));
        }
        assert(nodes[i].kind == XmlKind::Text(t));
        assert(first_text_is(nodes, t));
    }
}

/// A view whose record names a model is for the last that it names, whatever else the record
/// holds.
pub proof fn law_view_is_for_the_model_it_names(
    scene: Scene,
    children: Seq<XmlTree>,
    k: int,
    model: Seq<char>,
)
    requires
        0 <= k < children.len(),
        names_model(children[k], model),
        forall|j: int, m: Seq<char>|
            k < j < children.len() ==> !#[trigger] names_model(children[j], m),
    ensures
        references::arch_model(scene, children) == Some(model),
{
    let f = |c: XmlTree| references::declared_model(c);
    let options = children.map_values(f);
    let declared = children.filter_map(f);
    seqs::lemma_filter_map_selects(children, f);
    let places = choose|places: Seq<int>| #[trigger] seqs::selects(options, declared, places);
    lemma_names_model(children[k], model);
    assert(options[k] == Some(model));
    let i = choose|i: int| 0 <= i < places.len() && places[i] == k;
    let last = places.len() - 1;
    if i < last {
        assert(places[i] < places[last]);
        assert(options[places[last]] == Some(declared[last]));
        lemma_names_model(children[places[last]], declared[last]);
    }
    assert(options[places[i]] == Some(declared[i]));
}

/// A view whose record names no model is for the model of the view that its first field
/// `inherit_id` refers to, as it is known in the module; without such a field, without a reference
/// in it, and outside of modules it is for none.
pub proof fn law_view_is_for_the_model_it_inherits(scene: Scene, children: Seq<XmlTree>, k: int)
    requires
        forall|j: int, m: Seq<char>|
            0 <= j < children.len() ==> !#[trigger] names_model(children[j], m),
        0 <= k <= children.len(),
        forall|j: int| 0 <= j < k ==> !is_field_of_name(#[trigger] children[j], "inherit_id"@),
    ensures
        k == children.len() ==> references::arch_model(scene, children) is None,
        k < children.len() && is_field_of_name(children[k], "inherit_id"@) ==> (forall|
            xml_id: Seq<char>,
        | #[trigger]
            attr_is(children[k].attributes, "ref"@, xml_id) ==> references::arch_model(
                scene,
                children,
            ) == (match scene.module {
                Some(module) => view_model::view_model(scene.odoo, module, xml_id),
                None => None,
            })),
        k < children.len() && is_field_of_name(children[k], "inherit_id"@) && (forall|xml_id: Seq<
            char,
        >| !#[trigger] attr_is(children[k].attributes, "ref"@, xml_id)) ==> references::arch_model(
            scene,
            children,
        ) is None,
{
    let f = |c: XmlTree| references::declared_model(c);
    let p = |c: XmlTree| references::is_field_named(c, "inherit_id"@);
    let declared = children.filter_map(f);
    if declared.len() > 0 {
        assert(declared.contains(declared[0]));
        children.lemma_filter_map_contains(f, declared[0]);
        let c = choose|c: XmlTree| #[trigger] children.contains(c) && f(c) == Some(declared[0]);
        let j = choose|j: int| 0 <= j < children.len() && children[j] == c;
        lemma_names_model(children[j], declared[0]);
    }
    assert forall|j: int| 0 <= j < k implies !p(#[trigger] children[j]) by {
        lemma_attr_is(children[j], "name"@, "inherit_id"@);
        assert(!is_field_of_name(children[j], "inherit_id"@));
    }
    if k == children.len() {
        seqs::lemma_find_first_none(children, p);
    } else if is_field_of_name(children[k], "inherit_id"@) {
        lemma_attr_is(children[k], "name"@, "inherit_id"@);
        seqs::lemma_find_first_at(children, p, k);
        assert forall|xml_id: Seq<char>| #[trigger]
            attr_is(children[k].attributes, "ref"@, xml_id) implies children[k].attribute("ref"@)
            == Some(xml_id) by {
            lemma_attr_is(children[k], "ref"@, xml_id);
        }
        if let Some(xml_id) = children[k].attribute("ref"@) {
            lemma_attr_is(children[k], "ref"@, xml_id);
        }
    }
}

/// Whether the cursor at `offset` is in `range` or at one of its ends.
pub open spec fn touches(range: Range<usize>, offset: usize) -> bool {
    range.start <= offset && offset <= range.end
}

/// Whether `option` is the XML id that an attribute holds, if the cursor is on it.
pub open spec fn is_xml_id_of(attr: XmlAttr, offset: usize, option: Option<Reference>) -> bool {
    if touches(attr.range_value, offset) {
        option == Some(Reference::XmlId { xml_id: attr.value, range: attr.range_value })
    } else {
        option is None
    }
}

/// Whether `option` is what an attribute of an element `tag` other than a field refers to: the
/// `model` of a record is a model; the `id` of a record, the `action` and `groups` of a menu item,
/// and the `inherit_id` and `groups` of a template are XML ids; anything else is no reference.
pub open spec fn is_reference_of(
    tag: Seq<char>,
    attr: XmlAttr,
    offset: usize,
    option: Option<Reference>,
) -> bool {
    if tag == "record"@ && attr.name == "model"@ {
        if touches(attr.range_value, offset) {
            option == Some(Reference::Model { name: attr.value, range: attr.range_value })
        } else {
            option is None
        }
    } else if (tag == "record"@ && attr.name == "id"@) || (tag == "menuitem"@ && (attr.name
        == "action"@ || attr.name == "groups"@)) || (tag == "template"@ && (attr.name
        == "inherit_id"@ || attr.name == "groups"@)) {
        is_xml_id_of(attr, offset, option)
    } else {
        option is None
    }
}

/// Whether `own` are the references of the attributes of an element `tag` other than a field, in
/// order.
pub open spec fn are_references_of(
    tag: Seq<char>,
    attributes: Seq<XmlAttr>,
    offset: usize,
    own: Seq<Reference>,
) -> bool {
    exists|options: Seq<Option<Reference>>|
        options.len() == attributes.len() && #[trigger] seqs::is_selection(options, own)
            && forall|k: int|
            0 <= k < options.len() ==> is_reference_of(
                tag,
                attributes[k],
                offset,
                #[trigger] options[k],
            )
}

proof fn lemma_references_of(
    tag: Seq<char>,
    attributes: Seq<XmlAttr>,
    offset: usize,
    f: spec_fn(XmlAttr) -> Option<Reference>,
)
    requires
        forall|a: XmlAttr| is_reference_of(tag, a, offset, #[trigger] f(a)),
    ensures
        are_references_of(tag, attributes, offset, attributes.filter_map(f)),
{
    seqs::lemma_filter_map_selects(attributes, f);
    let options = attributes.map_values(f);
    assert forall|k: int| 0 <= k < options.len() implies is_reference_of(
        tag,
        attributes[k],
        offset,
        #[trigger] options[k],
    ) by {
        assert(options[k] == f(attributes[k]));
    }
    assert(seqs::is_selection(options, attributes.filter_map(f)));
}

/// Whether `model` is the model of a record: the value of its last attribute `model`, or else that
/// of the record around.
pub open spec fn is_model_of_record(
    attributes: Seq<XmlAttr>,
    around: Option<Seq<char>>,
    model: Option<Seq<char>>,
) -> bool {
    &&& forall|i: int|
        0 <= i < attributes.len() && (#[trigger] attributes[i]).name == "model"@ && (forall|j: int|
            i < j < attributes.len() ==> (#[trigger] attributes[j]).name != "model"@) ==> model
            == Some(attributes[i].value)
    &&& (forall|i: int| 0 <= i < attributes.len() ==> (#[trigger] attributes[i]).name != "model"@)
        ==> model == around
}

proof fn lemma_model_of_record(attributes: Seq<XmlAttr>, context: Context)
    ensures
        is_model_of_record(
            attributes,
            context.record_model,
            references::record_context(attributes, context).record_model,
        ),
    decreases attributes.len(),
{
    if attributes.len() > 0 {
        let n = attributes.len() - 1;
        let front = attributes.drop_last();
        lemma_model_of_record(front, context);
        let model = references::record_context(attributes, context).record_model;
        assert forall|i: int|
            0 <= i < attributes.len() && (#[trigger] attributes[i]).name == "model"@ && (forall|
                j: int,
            | i < j < attributes.len() ==> (#[trigger] attributes[j]).name != "model"@) implies model
            == Some(attributes[i].value) by {
            if i < n {
                assert(attributes[n].name != "model"@);
                assert(front[i] == attributes[i]);
                assert forall|j: int| i < j < front.len() implies (#[trigger] front[j]).name
                    != "model"@ by {
                    assert(attributes[j] == front[j]);
                }
            }
        }
        if forall|i: int| 0 <= i < attributes.len() ==> (#[trigger] attributes[i]).name
            != "model"@ {
            assert(attributes[n].name != "model"@);
            assert forall|i: int| 0 <= i < front.len() implies (#[trigger] front[i]).name
                != "model"@ by {
                assert(attributes[i] == front[i]);
            }
        }
    }
}

/// A record is read attribute by attribute, and then child by child in surroundings of its own: its
/// model, and the model that it is a view for if it is one of `ir.ui.view`. Behind it there is
/// neither.
pub proof fn law_record_is_read(scene: Scene, node: XmlTree, context: Context, inner: Context)
    requires
        is_model_of_record(node.attributes, context.record_model, inner.record_model),
        attr_is(node.attributes, "model"@, "ir.ui.view"@) ==> inner.view_arch_model
            == references::arch_model(scene, node.children),
        !attr_is(node.attributes, "model"@, "ir.ui.view"@) ==> inner.view_arch_model is None,
        inner.field_name == context.field_name,
    ensures
        ({
            let whole = references::record_trace(scene, node, context);
            let body = references::trace_all(scene, node.children, inner);
            &&& exists|own: Seq<Reference>| #[trigger]
                are_references_of("record"@, node.attributes, scene.offset, own)
                    && whole.references == own + body.references
            &&& whole.context.record_model is None
            &&& whole.context.view_arch_model is None
            &&& whole.context.field_name == body.context.field_name
            &&& node.is_element("record"@) ==> references::trace(scene, node, context) == whole
        }),
{
    let used = references::record_body_context(scene, node, context);
    lemma_attr_is(node, "model"@, "ir.ui.view"@);
    lemma_model_of_record(node.attributes, context);
    lemma_record_keeps_field(node.attributes, context);
    lemma_model_is_one(node.attributes, context.record_model, inner.record_model, used.record_model);
    assert(used == inner);
    references::lemma_tags_differ();
    reveal_strlit("model");
    reveal_strlit("id");
    assert("model"@.len() == 5 && "id"@.len() == 2);
    let f = |a: XmlAttr| references::record_reference(a, scene.offset);
    lemma_references_of("record"@, node.attributes, scene.offset, f);
}

/// A record has one model.
proof fn lemma_model_is_one(
    attributes: Seq<XmlAttr>,
    around: Option<Seq<char>>,
    a: Option<Seq<char>>,
    b: Option<Seq<char>>,
)
    requires
        is_model_of_record(attributes, around, a),
        is_model_of_record(attributes, around, b),
    ensures
        a == b,
{
    if exists|i: int| 0 <= i < attributes.len() && (#[trigger] attributes[i]).name == "model"@ {
        let i = choose|i: int|
            0 <= i < attributes.len() && (#[trigger] attributes[i]).name == "model"@;
        let last = lemma_last_model(attributes, i);
        assert(attributes[last].name == "model"@);
    }
}

proof fn lemma_last_model(attributes: Seq<XmlAttr>, i: int) -> (last: int)
    requires
        0 <= i < attributes.len(),
        attributes[i].name == "model"@,
    ensures
        i <= last < attributes.len(),
        attributes[last].name == "model"@,
        forall|j: int| last < j < attributes.len() ==> (#[trigger] attributes[j]).name != "model"@,
    decreases attributes.len() - i,
{
    if exists|j: int| i < j < attributes.len() && (#[trigger] attributes[j]).name == "model"@ {
        let j = choose|j: int|
            i < j < attributes.len() && (#[trigger] attributes[j]).name == "model"@;
        lemma_last_model(attributes, j)
    } else {
        i
    }
}

/// A menu item is read attribute by attribute, and then child by child in the surroundings that it
/// stands in.
pub proof fn law_menu_item_is_read(scene: Scene, node: XmlTree, context: Context)
    ensures
        ({
            let whole = references::menu_item_trace(scene, node, context);
            let body = references::trace_all(scene, node.children, context);
            &&& exists|own: Seq<Reference>| #[trigger]
                are_references_of("menuitem"@, node.attributes, scene.offset, own)
                    && whole.references == own + body.references
            &&& whole.context == body.context
            &&& node.is_element("menuitem"@) ==> references::trace(scene, node, context) == whole
        }),
{
    references::lemma_tags_differ();
    let f = |a: XmlAttr| references::menu_item_reference(a, scene.offset);
    lemma_references_of("menuitem"@, node.attributes, scene.offset, f);
}

/// A template is read attribute by attribute, and then child by child in the surroundings that it
/// stands in.
pub proof fn law_template_is_read(scene: Scene, node: XmlTree, context: Context)
    ensures
        ({
            let whole = references::template_trace(scene, node, context);
            let body = references::trace_all(scene, node.children, context);
            &&& exists|own: Seq<Reference>| #[trigger]
                are_references_of("template"@, node.attributes, scene.offset, own)
                    && whole.references == own + body.references
            &&& whole.context == body.context
            &&& node.is_element("template"@) ==> references::trace(scene, node, context) == whole
        }),
{
    references::lemma_tags_differ();
    let f = |a: XmlAttr| references::template_reference(a, scene.offset);
    lemma_references_of("template"@, node.attributes, scene.offset, f);
}

/// Whether one of the first `n` attributes says that the field is called `arch`.
pub open spec fn called_arch(attributes: Seq<XmlAttr>, n: int) -> bool {
    exists|i: int|
        0 <= i < n && i < attributes.len() && (#[trigger] attributes[i]).name == "name"@
            && attributes[i].value == "arch"@
}

/// The model that a field with the first `n` of some attributes is looked up in: in a view, once it
/// is called `arch`, that of the view, and else that of the record around.
pub open spec fn model_for_field(attributes: Seq<XmlAttr>, n: int, context: Context) -> Option<
    Seq<char>,
> {
    if called_arch(attributes, n) && context.view_arch_model is Some {
        context.view_arch_model
    } else {
        context.record_model
    }
}

/// Whether `option` is what the attribute `k` of a field refers to, if the cursor is on it: its
/// `name` is a field of the model that it is looked up in, and its `ref` an XML id.
pub open spec fn is_reference_of_field(
    attributes: Seq<XmlAttr>,
    k: int,
    offset: usize,
    context: Context,
    option: Option<Reference>,
) -> bool {
    let attr = attributes[k];
    if attr.name == "name"@ {
        match model_for_field(attributes, k + 1, context) {
            Some(model) => if model.len() > 0 && touches(attr.range_value, offset) {
                option == Some(
                    Reference::Field { model, name: attr.value, range: attr.range_value },
                )
            } else {
                option is None
            },
            None => option is None,
        }
    } else if attr.name == "ref"@ {
        is_xml_id_of(attr, offset, option)
    } else {
        option is None
    }
}

/// Whether `own` are the references of the attributes of a field, in order.
pub open spec fn are_references_of_field(
    attributes: Seq<XmlAttr>,
    offset: usize,
    context: Context,
    own: Seq<Reference>,
) -> bool {
    exists|options: Seq<Option<Reference>>|
        options.len() == attributes.len() && #[trigger] seqs::is_selection(options, own)
            && forall|k: int|
            0 <= k < options.len() ==> is_reference_of_field(
                attributes,
                k,
                offset,
                context,
                #[trigger] options[k],
            )
}

/// Whether `name` is the name of the field around: that of the last attribute `name`, or else the
/// one from before.
pub open spec fn is_name_of_field(
    attributes: Seq<XmlAttr>,
    around: Option<Seq<char>>,
    name: Option<Seq<char>>,
) -> bool {
    &&& forall|i: int|
        0 <= i < attributes.len() && (#[trigger] attributes[i]).name == "name"@ && (forall|j: int|
            i < j < attributes.len() ==> (#[trigger] attributes[j]).name != "name"@) ==> name
            == Some(attributes[i].value)
    &&& (forall|i: int| 0 <= i < attributes.len() ==> (#[trigger] attributes[i]).name != "name"@)
        ==> name == around
}

/// Whether a field is an architecture, and the model of what it holds.
proof fn lemma_field_model(attributes: Seq<XmlAttr>, offset: usize, context: Context)
    ensures
        ({
            let head = references::field_trace(attributes, offset, context);
            let n = attributes.len() as int;
            &&& head.arch == (called_arch(attributes, n) && context.view_arch_model is Some)
            &&& head.context.record_model == model_for_field(attributes, n, context)
            &&& head.context.view_arch_model == context.view_arch_model
        }),
{
    law_arch_fields_of_view_model(attributes, offset, context);
    if called_arch(attributes, attributes.len() as int) {
        let i = choose|i: int|
            0 <= i < attributes.len() && (#[trigger] attributes[i]).name == "name"@
                && attributes[i].value == "arch"@;
        assert(attributes[i].name == "name"@);
    }
}

proof fn lemma_field_references(attributes: Seq<XmlAttr>, offset: usize, context: Context)
    ensures
        are_references_of_field(
            attributes,
            offset,
            context,
            references::field_trace(attributes, offset, context).references,
        ),
    decreases attributes.len(),
{
    let head = references::field_trace(attributes, offset, context);
    if attributes.len() == 0 {
        let none = Seq::<Option<Reference>>::empty();
        assert(seqs::selects(none, head.references, Seq::<int>::empty()));
        assert(seqs::is_selection(none, head.references));
    } else {
        let n = attributes.len() - 1;
        let front = attributes.drop_last();
        let attr = attributes.last();
        lemma_field_references(front, offset, context);
        lemma_field_model(attributes, offset, context);
        let before = references::field_trace(front, offset, context);
        let after = references::field_attr_context(attr, before.context);
        let option = references::field_reference(attr, offset, after);
        let options = choose|options: Seq<Option<Reference>>|
            options.len() == front.len() && #[trigger] seqs::is_selection(
                options,
                before.references,
            ) && forall|k: int|
                0 <= k < options.len() ==> is_reference_of_field(
                    front,
                    k,
                    offset,
                    context,
                    #[trigger] options[k],
                );
        seqs::lemma_selection_push(options, before.references, option);
        let all = options.push(option);
        if let Some(r) = option {
            assert(head.references =~= before.references.push(r));
        } else {
            assert(head.references =~= before.references);
        }
        assert forall|k: int| 0 <= k < all.len() implies is_reference_of_field(
            attributes,
            k,
            offset,
            context,
            #[trigger] all[k],
        ) by {
            if k < n {
                assert(is_reference_of_field(front, k, offset, context, options[k]));
                assert(front[k] == attributes[k]);
                lemma_called_arch_front(attributes, k + 1);
            } else {
                assert(attributes[k] == attr);
                assert(after.record_model == model_for_field(attributes, n + 1, context));
            }
        }
        assert(seqs::is_selection(all, head.references));
    }
}

/// An attribute at the end does not bear on those before it.
proof fn lemma_called_arch_front(attributes: Seq<XmlAttr>, m: int)
    requires
        0 <= m < attributes.len(),
    ensures
        called_arch(attributes, m) == called_arch(attributes.drop_last(), m),
{
    let front = attributes.drop_last();
    if called_arch(attributes, m) {
        let i = choose|i: int|
            0 <= i < m && i < attributes.len() && (#[trigger] attributes[i]).name == "name"@
                && attributes[i].value == "arch"@;
        assert(front[i] == attributes[i]);
    }
    if called_arch(front, m) {
        let i = choose|i: int|
            0 <= i < m && i < front.len() && (#[trigger] front[i]).name == "name"@
                && front[i].value == "arch"@;
        assert(front[i] == attributes[i]);
    }
}

proof fn lemma_field_head(attributes: Seq<XmlAttr>, offset: usize, context: Context)
    ensures
        ({
            let head = references::field_trace(attributes, offset, context);
            let n = attributes.len() as int;
            &&& are_references_of_field(attributes, offset, context, head.references)
            &&& head.arch == (called_arch(attributes, n) && context.view_arch_model is Some)
            &&& head.context.record_model == model_for_field(attributes, n, context)
            &&& head.context.view_arch_model == context.view_arch_model
            &&& is_name_of_field(attributes, context.field_name, head.context.field_name)
        }),
{
    lemma_field_references(attributes, offset, context);
    lemma_field_model(attributes, offset, context);
    lemma_field_name(attributes, offset, context);
}

/// The field around is called as the last attribute `name` says.
proof fn lemma_field_name(attributes: Seq<XmlAttr>, offset: usize, context: Context)
    ensures
        is_name_of_field(
            attributes,
            context.field_name,
            references::field_trace(attributes, offset, context).context.field_name,
        ),
    decreases attributes.len(),
{
    let head = references::field_trace(attributes, offset, context);
    if attributes.len() > 0 {
        let n = attributes.len() - 1;
        let front = attributes.drop_last();
        lemma_field_name(front, offset, context);
        let name = head.context.field_name;
        assert forall|i: int|
            0 <= i < attributes.len() && (#[trigger] attributes[i]).name == "name"@ && (forall|
                j: int,
            | i < j < attributes.len() ==> (#[trigger] attributes[j]).name != "name"@) implies name
            == Some(attributes[i].value) by {
            if i < n {
                assert(attributes[n].name != "name"@);
                assert(front[i] == attributes[i]);
                assert forall|j: int| i < j < front.len() implies (#[trigger] front[j]).name
                    != "name"@ by {
                    assert(attributes[j] == front[j]);
                }
            }
        }
        if forall|i: int| 0 <= i < attributes.len() ==> (#[trigger] attributes[i]).name != "name"@ {
            assert(attributes[n].name != "name"@);
            assert forall|i: int| 0 <= i < front.len() implies (#[trigger] front[i]).name
                != "name"@ by {
                assert(attributes[i] == front[i]);
            }
        }
    }
}

/// A field is read attribute by attribute, and then child by child. What it holds is in the field
/// of that name, and in the view's model if the field is the architecture of a view. Behind it no
/// field is around, and the model is what it was before: behind an architecture `ir.ui.view`,
/// unless the field stands in an architecture itself.
pub proof fn law_field_is_read(scene: Scene, node: XmlTree, context: Context)
    ensures
        ({
            let attrs = node.attributes;
            let whole = references::field_node_trace(scene, node, context);
            let arch = called_arch(attrs, attrs.len() as int) && context.view_arch_model is Some;
            exists|own: Seq<Reference>, inner: Context|
                #![trigger are_references_of_field(attrs, scene.offset, context, own), references::trace_all(
                    scene,
                    node.children,
                    inner,
                )]
                {
                    let body = references::trace_all(scene, node.children, inner);
                    &&& are_references_of_field(attrs, scene.offset, context, own)
                    &&& inner.record_model == model_for_field(attrs, attrs.len() as int, context)
                    &&& inner.view_arch_model == context.view_arch_model
                    &&& is_name_of_field(attrs, context.field_name, inner.field_name)
                    &&& whole.references == own + body.references
                    &&& whole.context.field_name is None
                    &&& whole.context.view_arch_model == body.context.view_arch_model
                    &&& !arch ==> whole.context.record_model == body.context.record_model
                    &&& arch && context.record_model == context.view_arch_model
                        ==> whole.context.record_model == context.record_model
                    &&& arch && context.record_model != context.view_arch_model
                        ==> whole.context.record_model == Some("ir.ui.view"@)
                    &&& node.is_element("field"@) ==> references::trace(scene, node, context)
                        == whole
                }
        }),
{
    references::lemma_tags_differ();
    lemma_field_head(node.attributes, scene.offset, context);
    let head = references::field_trace(node.attributes, scene.offset, context);
    let body = references::trace_all(scene, node.children, head.context);
    assert(are_references_of_field(node.attributes, scene.offset, context, head.references));
    assert(references::field_node_trace(scene, node, context).references == head.references
        + body.references);
}

/// A text is the name of a model exactly where the cursor is on it, a field `model` or `res_model`
/// is around, and the record around has a model, whichever it is. It changes nothing of the
/// surroundings; nor does what is neither element nor text, which refers to nothing.
pub proof fn law_text_is_read(scene: Scene, node: XmlTree, context: Context)
    ensures
        node.kind matches XmlKind::Text(t) ==> ({
            let whole = references::trace(scene, node, context);
            let names = touches(node.range, scene.offset) && (context.field_name == Some("model"@)
                || context.field_name == Some("res_model"@)) && context.record_model is Some
                && context.record_model.unwrap().len() > 0;
            &&& whole.context == context
            &&& names ==> whole.references == seq![Reference::Model { name: t, range: node.range }]
            &&& !names ==> whole.references.len() == 0
        }),
        node.kind is Other ==> references::trace(scene, node, context).references.len() == 0
            && references::trace(scene, node, context).context == context,
{
}

/// Some nodes are read as the first of them, and then the others in the surroundings that it
/// leaves; a file is read from surroundings in which nothing is around.
pub proof fn law_first_node_is_read_first(
    scene: Scene,
    nodes: Seq<XmlTree>,
    context: Context,
    root: XmlTree,
)
    ensures
        nodes.len() == 0 ==> references::trace_all(scene, nodes, context).references.len() == 0
            && references::trace_all(scene, nodes, context).context == context,
        nodes.len() > 0 ==> ({
            let first = references::trace(scene, nodes[0], context);
            let rest = references::trace_all(scene, nodes.drop_first(), first.context);
            let whole = references::trace_all(scene, nodes, context);
            whole.references == first.references + rest.references && whole.context == rest.context
        }),
        references::references(scene, root) == references::trace_all(
            scene,
            root.children,
            (Context { record_model: None, view_arch_model: None, field_name: None }),
        ).references,
{
    if nodes.len() > 0 {
        let one = seq![nodes[0]];
        assert(one + nodes.drop_first() =~= nodes);
        law_reading_in_order(scene, one, nodes.drop_first(), context);
        assert(one.drop_last() =~= Seq::<XmlTree>::empty());
        let first = references::trace(scene, nodes[0], context);
        assert(references::trace_all(scene, one.drop_last(), context).references + first.references
            =~= first.references);
    }
}

/// Whether `sub` is a node or stands somewhere in its elements.
pub open spec fn is_below(node: XmlTree, sub: XmlTree) -> bool
    decreases node,
{
    ||| sub == node
    ||| node.kind is Element && exists|i: int|
        0 <= i < node.children.len() && is_below(#[trigger] node.children[i], sub)
}

/// Whether `sub` stands somewhere in a file.
pub open spec fn is_in_file(root: XmlTree, sub: XmlTree) -> bool {
    exists|i: int| 0 <= i < root.children.len() && is_below(#[trigger] root.children[i], sub)
}

/// Whether every one of `part` is among `refs`.
pub open spec fn holds_all(refs: Seq<Reference>, part: Seq<Reference>) -> bool {
    forall|i: int| 0 <= i < part.len() ==> refs.contains(#[trigger] part[i])
}

proof fn lemma_holds_all(a: Seq<Reference>, b: Seq<Reference>, c: Seq<Reference>)
    requires
        holds_all(a, b),
        holds_all(b, c),
    ensures
        holds_all(a, c),
{
    assert forall|i: int| 0 <= i < c.len() implies a.contains(#[trigger] c[i]) by {
        assert(b.contains(c[i]));
        let j = choose|j: int| 0 <= j < b.len() && b[j] == c[i];
        assert(a.contains(b[j]));
    }
}

/// What is read of one of some nodes is among what is read of all of them.
proof fn lemma_child_is_read(scene: Scene, nodes: Seq<XmlTree>, context: Context, i: int)
    requires
        0 <= i < nodes.len(),
    ensures
        holds_all(
            references::trace_all(scene, nodes, context).references,
            references::trace(
                scene,
                nodes[i],
                references::trace_all(scene, nodes.take(i), context).context,
            ).references,
        ),
{
    let front = references::trace_all(scene, nodes.take(i), context);
    let here = references::trace(scene, nodes[i], front.context).references;
    let all = references::trace_all(scene, nodes, context).references;
    law_reading_in_order(scene, nodes.take(i + 1), nodes.skip(i + 1), context);
    assert(nodes.take(i + 1) + nodes.skip(i + 1) =~= nodes);
    references::lemma_trace_all_step(scene, nodes, context, i);
    assert forall|k: int| 0 <= k < here.len() implies all.contains(#[trigger] here[k]) by {
        assert(all[front.references.len() + k] == here[k]);
    }
}

/// The surroundings of what an element holds.
spec fn inner_of(scene: Scene, node: XmlTree, context: Context) -> Context {
    if node.is_element("record"@) {
        references::record_body_context(scene, node, context)
    } else if node.is_element("field"@) {
        references::field_trace(node.attributes, scene.offset, context).context
    } else {
        context
    }
}

proof fn lemma_body_is_read(scene: Scene, node: XmlTree, context: Context)
    requires
        node.kind is Element,
    ensures
        holds_all(
            references::trace(scene, node, context).references,
            references::trace_all(
                scene,
                node.children,
                inner_of(scene, node, context),
            ).references,
        ),
{
    references::lemma_tags_differ();
    let all = references::trace(scene, node, context).references;
    let body = references::trace_all(
        scene,
        node.children,
        inner_of(scene, node, context),
    ).references;
    assert forall|k: int| 0 <= k < body.len() implies all.contains(#[trigger] body[k]) by {
        assert(all[all.len() - body.len() + k] == body[k]);
    }
}

/// Everything that stands in a node is read, in the surroundings that it stands in: whatever is
/// read of it there is read of the node.
pub proof fn law_everything_is_read(
    scene: Scene,
    node: XmlTree,
    context: Context,
    sub: XmlTree,
)
    requires
        is_below(node, sub),
    ensures
        exists|there: Context|
            holds_all(
                references::trace(scene, node, context).references,
                (#[trigger] references::trace(scene, sub, there)).references,
            ),
    decreases node,
{
    let all = references::trace(scene, node, context).references;
    if sub == node {
        assert forall|k: int| 0 <= k < all.len() implies all.contains(#[trigger] all[k]) by {}
        assert(holds_all(all, references::trace(scene, sub, context).references));
    } else {
        let i = choose|i: int|
            0 <= i < node.children.len() && is_below(#[trigger] node.children[i], sub);
        let inner = inner_of(scene, node, context);
        let here = references::trace_all(scene, node.children.take(i), inner).context;
        law_everything_is_read(scene, node.children[i], here, sub);
        let there = choose|there: Context|
            holds_all(
                references::trace(scene, node.children[i], here).references,
                (#[trigger] references::trace(scene, sub, there)).references,
            );
        lemma_body_is_read(scene, node, context);
        lemma_child_is_read(scene, node.children, inner, i);
        let body = references::trace_all(scene, node.children, inner).references;
        let child = references::trace(scene, node.children[i], here).references;
        let part = references::trace(scene, sub, there).references;
        lemma_holds_all(body, child, part);
        lemma_holds_all(all, body, part);
    }
}

/// Everything that stands in a file is read, in some surroundings.
pub proof fn law_whole_file_is_read(scene: Scene, root: XmlTree, sub: XmlTree)
    requires
        is_in_file(root, sub),
    ensures
        exists|there: Context|
            holds_all(
                references::references(scene, root),
                (#[trigger] references::trace(scene, sub, there)).references,
            ),
{
    let i = choose|i: int|
        0 <= i < root.children.len() && is_below(#[trigger] root.children[i], sub);
    let here = references::trace_all(scene, root.children.take(i), Context::top()).context;
    law_everything_is_read(scene, root.children[i], here, sub);
    let there = choose|there: Context|
        holds_all(
            references::trace(scene, root.children[i], here).references,
            (#[trigger] references::trace(scene, sub, there)).references,
        );
    lemma_child_is_read(scene, root.children, Context::top(), i);
    lemma_holds_all(
        references::references(scene, root),
        references::trace(scene, root.children[i], here).references,
        references::trace(scene, sub, there).references,
    );
}

/// Every XML id and every model of a record that the cursor is on is followed, wherever in the file
/// its element stands.
pub proof fn law_every_attribute_is_followed(
    scene: Scene,
    root: XmlTree,
    node: XmlTree,
    tag: Seq<char>,
    k: int,
    r: Reference,
)
    requires
        is_in_file(root, node),
        node.kind == XmlKind::Element(tag),
        0 <= k < node.attributes.len(),
        is_reference_of(tag, node.attributes[k], scene.offset, Some(r)) || (tag == "field"@
            && node.attributes[k].name == "ref"@ && is_xml_id_of(
            node.attributes[k],
            scene.offset,
            Some(r),
        )),
    ensures
        references::references(scene, root).contains(r),
{
    law_whole_file_is_read(scene, root, node);
    let there = choose|there: Context|
        holds_all(
            references::references(scene, root),
            (#[trigger] references::trace(scene, node, there)).references,
        );
    references::lemma_tags_differ();
    reveal_strlit("model");
    reveal_strlit("id");
    assert("model"@.len() == 5 && "id"@.len() == 2);
    let attrs = node.attributes;
    let whole = references::trace(scene, node, there).references;
    let f = if tag == "record"@ {
        |a: XmlAttr| references::record_reference(a, scene.offset)
    } else if tag == "menuitem"@ {
        |a: XmlAttr| references::menu_item_reference(a, scene.offset)
    } else {
        |a: XmlAttr| references::template_reference(a, scene.offset)
    };
    let own = if tag == "field"@ {
        references::field_trace(attrs, scene.offset, there).references
    } else {
        attrs.filter_map(f)
    };
    if tag == "field"@ {
        reveal_strlit("name");
        reveal_strlit("ref");
        assert("name"@.len() == 4 && "ref"@.len() == 3);
        lemma_field_head(attrs, scene.offset, there);
        let options = choose|options: Seq<Option<Reference>>|
            options.len() == attrs.len() && #[trigger] seqs::is_selection(options, own) && forall|
                j: int,
            |
                0 <= j < options.len() ==> is_reference_of_field(
                    attrs,
                    j,
                    scene.offset,
                    there,
                    #[trigger] options[j],
                );
        let places = choose|places: Seq<int>| #[trigger] seqs::selects(options, own, places);
        assert(is_reference_of_field(attrs, k, scene.offset, there, options[k]));
        assert(options[k] == Some(r));
        let n = choose|n: int| 0 <= n < places.len() && places[n] == k;
        assert(options[places[n]] == Some(own[n]));
        assert(own[n] == r);
    } else {
        assert(f(attrs[k]) == Some(r));
        seqs::lemma_filter_map_keeps(attrs, f, k);
    }
    let n = choose|n: int| 0 <= n < own.len() && own[n] == r;
    assert(whole[n] == r);
    assert(references::references(scene, root).contains(whole[n]));
}

/// Whether fields are those of `model`: in the architecture of a view for it, or in a record of it
/// that is no view.
spec fn fields_are_of(context: Context, model: Seq<char>) -> bool {
    context.record_model == Some(model) && (context.view_arch_model is None
        || context.view_arch_model == Some(model))
}

proof fn lemma_node_keeps_fields(
    scene: Scene,
    node: XmlTree,
    context: Context,
    model: Seq<char>,
)
    requires
        record_free(node),
        fields_are_of(context, model),
    ensures
        fields_are_of(references::trace(scene, node, context).context, model),
{
    if context.view_arch_model is None {
        lemma_no_view_node(scene, node, context, model);
    } else {
        law_architecture_keeps_model(scene, node, context, model);
    }
}

proof fn lemma_nodes_keep_fields(
    scene: Scene,
    nodes: Seq<XmlTree>,
    context: Context,
    model: Seq<char>,
)
    requires
        forall|i: int| 0 <= i < nodes.len() ==> record_free(#[trigger] nodes[i]),
        fields_are_of(context, model),
    ensures
        fields_are_of(references::trace_all(scene, nodes, context).context, model),
    decreases nodes.len(),
{
    if nodes.len() > 0 {
        let front = nodes.drop_last();
        assert forall|i: int| 0 <= i < front.len() implies record_free(#[trigger] front[i]) by {
            assert(front[i] == nodes[i]);
        }
        lemma_nodes_keep_fields(scene, front, context, model);
        assert(nodes[nodes.len() - 1] == nodes.last());
        lemma_node_keeps_fields(
            scene,
            nodes.last(),
            references::trace_all(scene, front, context).context,
            model,
        );
    }
}

/// A field somewhere in what belongs to a model is looked up in that model.
proof fn lemma_field_below(
    scene: Scene,
    node: XmlTree,
    context: Context,
    model: Seq<char>,
    field: XmlTree,
    k: int,
)
    requires
        record_free(node),
        fields_are_of(context, model),
        model.len() > 0,
        is_below(node, field),
        field.is_element("field"@),
        0 <= k < field.attributes.len(),
        field.attributes[k].name == "name"@,
        touches(field.attributes[k].range_value, scene.offset),
    ensures
        references::trace(scene, node, context).references.contains(
            Reference::Field {
                model,
                name: field.attributes[k].value,
                range: field.attributes[k].range_value,
            },
        ),
    decreases node,
{
    if field == node {
        law_field_name_refers_to_field(scene, node, context, model, k);
    } else {
        let i = choose|i: int|
            0 <= i < node.children.len() && is_below(#[trigger] node.children[i], field);
        let inner = inner_of(scene, node, context);
        law_arch_fields_of_view_model(node.attributes, scene.offset, context);
        assert(fields_are_of(inner, model));
        let front = node.children.take(i);
        assert forall|j: int| 0 <= j < front.len() implies record_free(#[trigger] front[j]) by {
            assert(front[j] == node.children[j]);
        }
        lemma_nodes_keep_fields(scene, front, inner, model);
        let here = references::trace_all(scene, front, inner).context;
        lemma_field_below(scene, node.children[i], here, model, field, k);
        lemma_body_is_read(scene, node, context);
        lemma_child_is_read(scene, node.children, inner, i);
        let child = references::trace(scene, node.children[i], here).references;
        let body = references::trace_all(scene, node.children, inner).references;
        let r = Reference::Field {
            model,
            name: field.attributes[k].value,
            range: field.attributes[k].range_value,
        };
        lemma_holds_all(references::trace(scene, node, context).references, body, child);
        let n = choose|n: int| 0 <= n < child.len() && child[n] == r;
        assert(references::trace(scene, node, context).references.contains(child[n]));
    }
}

/// Whether the last attribute `model` of a record is `model`.
pub open spec fn last_model_is(attributes: Seq<XmlAttr>, model: Seq<char>) -> bool {
    exists|i: int|
        0 <= i < attributes.len() && (#[trigger] attributes[i]).name == "model"@
            && attributes[i].value == model && forall|j: int|
            i < j < attributes.len() ==> (#[trigger] attributes[j]).name != "model"@
}

proof fn lemma_last_model_is(attributes: Seq<XmlAttr>, context: Context, model: Seq<char>)
    requires
        last_model_is(attributes, model),
    ensures
        references::record_context(attributes, context).record_model == Some(model),
{
    lemma_model_of_record(attributes, context);
    let i = choose|i: int|
        0 <= i < attributes.len() && (#[trigger] attributes[i]).name == "model"@
            && attributes[i].value == model && forall|j: int|
            i < j < attributes.len() ==> (#[trigger] attributes[j]).name != "model"@;
    assert(attributes[i].name == "model"@);
}

/// Every field of a record that the cursor is on is looked up in the record's model, wherever the
/// record stands in the file and however deep in it the field is. The record is no view, and holds
/// no other record.
pub proof fn law_every_field_of_a_record_is_followed(
    scene: Scene,
    root: XmlTree,
    record: XmlTree,
    model: Seq<char>,
    i: int,
    field: XmlTree,
    k: int,
)
    requires
        is_in_file(root, record),
        record.kind == XmlKind::Element("record"@),
        last_model_is(record.attributes, model),
        model.len() > 0,
        !attr_is(record.attributes, "model"@, "ir.ui.view"@),
        forall|j: int| 0 <= j < record.children.len() ==> record_free(#[trigger] record.children[j]),
        0 <= i < record.children.len(),
        is_below(record.children[i], field),
        field.kind == XmlKind::Element("field"@),
        0 <= k < field.attributes.len(),
        field.attributes[k].name == "name"@,
        touches(field.attributes[k].range_value, scene.offset),
    ensures
        references::references(scene, root).contains(
            Reference::Field {
                model,
                name: field.attributes[k].value,
                range: field.attributes[k].range_value,
            },
        ),
{
    law_whole_file_is_read(scene, root, record);
    let there = choose|there: Context|
        holds_all(
            references::references(scene, root),
            (#[trigger] references::trace(scene, record, there)).references,
        );
    let inner = inner_of(scene, record, there);
    lemma_last_model_is(record.attributes, there, model);
    lemma_attr_is(record, "model"@, "ir.ui.view"@);
    assert(fields_are_of(inner, model));
    lemma_field_of_children(scene, record.children, inner, model, i, field, k);
    lemma_body_is_read(scene, record, there);
    let r = Reference::Field {
        model,
        name: field.attributes[k].value,
        range: field.attributes[k].range_value,
    };
    let whole = references::trace(scene, record, there).references;
    let body = references::trace_all(scene, record.children, inner).references;
    lemma_holds_all(references::references(scene, root), whole, body);
    let n = choose|n: int| 0 <= n < body.len() && body[n] == r;
    assert(references::references(scene, root).contains(body[n]));
}

proof fn lemma_field_of_children(
    scene: Scene,
    nodes: Seq<XmlTree>,
    context: Context,
    model: Seq<char>,
    i: int,
    field: XmlTree,
    k: int,
)
    requires
        fields_are_of(context, model),
        model.len() > 0,
        forall|j: int| 0 <= j < nodes.len() ==> record_free(#[trigger] nodes[j]),
        0 <= i < nodes.len(),
        is_below(nodes[i], field),
        field.is_element("field"@),
        0 <= k < field.attributes.len(),
        field.attributes[k].name == "name"@,
        touches(field.attributes[k].range_value, scene.offset),
    ensures
        references::trace_all(scene, nodes, context).references.contains(
            Reference::Field {
                model,
                name: field.attributes[k].value,
                range: field.attributes[k].range_value,
            },
        ),
{
    let front = nodes.take(i);
    assert forall|j: int| 0 <= j < front.len() implies record_free(#[trigger] front[j]) by {
        assert(front[j] == nodes[j]);
    }
    lemma_nodes_keep_fields(scene, front, context, model);
    let here = references::trace_all(scene, front, context).context;
    lemma_field_below(scene, nodes[i], here, model, field, k);
    lemma_child_is_read(scene, nodes, context, i);
    let child = references::trace(scene, nodes[i], here).references;
    let r = Reference::Field {
        model,
        name: field.attributes[k].value,
        range: field.attributes[k].range_value,
    };
    let n = choose|n: int| 0 <= n < child.len() && child[n] == r;
    assert(references::trace_all(scene, nodes, context).references.contains(child[n]));
}

/// Every field in the architecture of a view that the cursor is on is looked up in the model that
/// the view is for, wherever the view stands in the file and however deep in its architecture the
/// field is. Neither the architecture nor what stands before it holds a record.
pub proof fn law_every_field_of_an_architecture_is_followed(
    scene: Scene,
    root: XmlTree,
    record: XmlTree,
    model: Seq<char>,
    a: int,
    i: int,
    field: XmlTree,
    k: int,
)
    requires
        is_in_file(root, record),
        record.kind == XmlKind::Element("record"@),
        attr_is(record.attributes, "model"@, "ir.ui.view"@),
        references::arch_model(scene, record.children) == Some(model),
        0 <= a < record.children.len(),
        record.children[a].kind == XmlKind::Element("field"@),
        called_arch(
            record.children[a].attributes,
            record.children[a].attributes.len() as int,
        ),
        forall|j: int| 0 <= j < a ==> record_free(#[trigger] record.children[j]),
        forall|j: int|
            0 <= j < record.children[a].children.len() ==> record_free(
                #[trigger] record.children[a].children[j],
            ),
        0 <= i < record.children[a].children.len(),
        is_below(record.children[a].children[i], field),
        field.kind == XmlKind::Element("field"@),
        0 <= k < field.attributes.len(),
        field.attributes[k].name == "name"@,
        touches(field.attributes[k].range_value, scene.offset),
    ensures
        references::references(scene, root).contains(
            Reference::Field {
                model,
                name: field.attributes[k].value,
                range: field.attributes[k].range_value,
            },
        ),
{
    law_whole_file_is_read(scene, root, record);
    let there = choose|there: Context|
        holds_all(
            references::references(scene, root),
            (#[trigger] references::trace(scene, record, there)).references,
        );
    let inner = inner_of(scene, record, there);
    let arch = record.children[a];
    lemma_attr_is(record, "model"@, "ir.ui.view"@);
    law_arch_model_is_a_name(scene, record.children);
    let front = record.children.take(a);
    assert forall|j: int| 0 <= j < front.len() implies record_free(#[trigger] front[j]) by {
        assert(front[j] == record.children[j]);
    }
    lemma_record_free_nodes(scene, front, inner);
    let here = references::trace_all(scene, front, inner).context;
    lemma_field_head(arch.attributes, scene.offset, here);
    references::lemma_tags_differ();
    let within = inner_of(scene, arch, here);
    assert(fields_are_of(within, model));
    lemma_field_of_children(scene, arch.children, within, model, i, field, k);
    lemma_body_is_read(scene, record, there);
    lemma_child_is_read(scene, record.children, inner, a);
    lemma_body_is_read(scene, arch, here);
    let r = Reference::Field {
        model,
        name: field.attributes[k].value,
        range: field.attributes[k].range_value,
    };
    let whole = references::trace(scene, record, there).references;
    let body = references::trace_all(scene, record.children, inner).references;
    let child = references::trace(scene, arch, here).references;
    let last = references::trace_all(scene, arch.children, within).references;
    lemma_holds_all(references::references(scene, root), whole, body);
    lemma_holds_all(references::references(scene, root), body, child);
    lemma_holds_all(references::references(scene, root), child, last);
    let n = choose|n: int| 0 <= n < last.len() && last[n] == r;
    assert(references::references(scene, root).contains(last[n]));
}

/// Whether the record around has a model, and the view around, if there is one, is for one.
spec fn has_models(context: Context) -> bool {
    context.record_model is Some && context.record_model.unwrap().len() > 0 && (
    context.view_arch_model matches Some(view) ==> view.len() > 0)
}

proof fn lemma_node_keeps_models(scene: Scene, node: XmlTree, context: Context)
    requires
        record_free(node),
        has_models(context),
    ensures
        has_models(references::trace(scene, node, context).context),
    decreases node, 1int,
{
    match node.kind {
        XmlKind::Element(tag) => {
            references::lemma_tags_differ();
            reveal_strlit("ir.ui.view");
            law_arch_fields_of_view_model(node.attributes, scene.offset, context);
            lemma_nodes_keep_models(scene, node.children, inner_of(scene, node, context));
        },
        XmlKind::Text(_) => {},
        XmlKind::Other => {},
    }
}

proof fn lemma_nodes_keep_models(scene: Scene, nodes: Seq<XmlTree>, context: Context)
    requires
        forall|i: int| 0 <= i < nodes.len() ==> record_free(#[trigger] nodes[i]),
        has_models(context),
    ensures
        has_models(references::trace_all(scene, nodes, context).context),
    decreases nodes, 0int,
{
    if nodes.len() > 0 {
        let front = nodes.drop_last();
        assert forall|i: int| 0 <= i < front.len() implies record_free(#[trigger] front[i]) by {
            assert(front[i] == nodes[i]);
        }
        lemma_nodes_keep_models(scene, front, context);
        assert(nodes[nodes.len() - 1] == nodes.last());
        lemma_node_keeps_models(
            scene,
            nodes.last(),
            references::trace_all(scene, front, context).context,
        );
    }
}

/// Whether a field is called `name`: whether that is the value of its last attribute `name`.
pub open spec fn last_name_is(attributes: Seq<XmlAttr>, name: Seq<char>) -> bool {
    exists|i: int|
        0 <= i < attributes.len() && (#[trigger] attributes[i]).name == "name"@
            && attributes[i].value == name && forall|j: int|
            i < j < attributes.len() ==> (#[trigger] attributes[j]).name != "name"@
}

/// Nodes that are no elements leave the surroundings alone.
proof fn lemma_no_elements(scene: Scene, nodes: Seq<XmlTree>, context: Context)
    requires
        forall|j: int| 0 <= j < nodes.len() ==> (#[trigger] nodes[j]).kind !is Element,
    ensures
        references::trace_all(scene, nodes, context).context == context,
    decreases nodes.len(),
{
    if nodes.len() > 0 {
        let front = nodes.drop_last();
        assert forall|j: int| 0 <= j < front.len() implies (#[trigger] front[j]).kind
            !is Element by {
            assert(front[j] == nodes[j]);
        }
        lemma_no_elements(scene, front, context);
        let last = nodes[nodes.len() - 1];
        assert(last.kind !is Element);
        assert(last.kind is Text || last.kind is Other);
        law_text_is_read(scene, last, context);
    }
}

/// The text of a field `model` or `res_model` of a record, with the cursor on it, is followed as the
/// name of a model, whatever the record's own model is and wherever the record stands in the file.
/// What stands before the field in the record holds no other record, and what stands before the
/// text in the field is no element.
pub proof fn law_every_model_text_is_followed(
    scene: Scene,
    root: XmlTree,
    record: XmlTree,
    model: Seq<char>,
    i: int,
    k: int,
    t: Seq<char>,
)
    requires
        is_in_file(root, record),
        record.kind == XmlKind::Element("record"@),
        last_model_is(record.attributes, model),
        model.len() > 0,
        0 <= i < record.children.len(),
        forall|j: int| 0 <= j < i ==> record_free(#[trigger] record.children[j]),
        record.children[i].kind == XmlKind::Element("field"@),
        last_name_is(record.children[i].attributes, "model"@) || last_name_is(
            record.children[i].attributes,
            "res_model"@,
        ),
        0 <= k < record.children[i].children.len(),
        forall|j: int|
            0 <= j < k ==> (#[trigger] record.children[i].children[j]).kind !is Element,
        record.children[i].children[k].kind == XmlKind::Text(t),
        touches(record.children[i].children[k].range, scene.offset),
    ensures
        references::references(scene, root).contains(
            Reference::Model { name: t, range: record.children[i].children[k].range },
        ),
{
    law_whole_file_is_read(scene, root, record);
    let there = choose|there: Context|
        holds_all(
            references::references(scene, root),
            (#[trigger] references::trace(scene, record, there)).references,
        );
    let inner = inner_of(scene, record, there);
    let field = record.children[i];
    let node = field.children[k];
    lemma_last_model_is(record.attributes, there, model);
    law_arch_model_is_a_name(scene, record.children);
    assert(has_models(inner));
    let front = record.children.take(i);
    assert forall|j: int| 0 <= j < front.len() implies record_free(#[trigger] front[j]) by {
        assert(front[j] == record.children[j]);
    }
    lemma_nodes_keep_models(scene, front, inner);
    let here = references::trace_all(scene, front, inner).context;
    lemma_field_head(field.attributes, scene.offset, here);
    references::lemma_tags_differ();
    let within = inner_of(scene, field, here);
    let before = field.children.take(k);
    assert forall|j: int| 0 <= j < before.len() implies (#[trigger] before[j]).kind !is Element by {
        assert(before[j] == field.children[j]);
    }
    lemma_no_elements(scene, before, within);
    let name = if last_name_is(field.attributes, "model"@) {
        "model"@
    } else {
        "res_model"@
    };
    let n = choose|n: int|
        0 <= n < field.attributes.len() && (#[trigger] field.attributes[n]).name == "name"@
            && field.attributes[n].value == name && forall|j: int|
            n < j < field.attributes.len() ==> (#[trigger] field.attributes[j]).name != "name"@;
    assert(within.field_name == Some(field.attributes[n].value));
    let r = Reference::Model { name: t, range: node.range };
    let last = references::trace(scene, node, within).references;
    assert(last[0] == r);
    lemma_body_is_read(scene, record, there);
    lemma_child_is_read(scene, record.children, inner, i);
    lemma_body_is_read(scene, field, here);
    lemma_child_is_read(scene, field.children, within, k);
    let all = references::references(scene, root);
    let whole = references::trace(scene, record, there).references;
    let body = references::trace_all(scene, record.children, inner).references;
    let child = references::trace(scene, field, here).references;
    let texts = references::trace_all(scene, field.children, within).references;
    lemma_holds_all(all, whole, body);
    lemma_holds_all(all, body, child);
    lemma_holds_all(all, child, texts);
    lemma_holds_all(all, texts, last);
}

/// A name of a model or of a field can always be followed, and an XML id not outside of modules.
pub proof fn law_what_needs_no_module(scene: Scene, on_dep_only: bool, r: Reference)
    ensures
        r !is XmlId ==> references::ready(scene, on_dep_only, r),
        r is XmlId && scene.module is None ==> !references::ready(scene, on_dep_only, r),
{
}

/// In a module an XML id can be followed exactly if all that it stands for can be looked at:
/// without a limit, if no record is in a file that is not loaded; with the limit to dependencies,
/// if the module belongs to one or no datum does.
pub proof fn law_what_can_be_followed(
    scene: Scene,
    on_dep_only: bool,
    xml_id: Seq<char>,
    range: Range<usize>,
    module: SymbolId,
)
    requires
        scene.module == Some(module),
    ensures
        references::ready(scene, on_dep_only, Reference::XmlId { xml_id, range })
            == all_can_be_looked_at(
            scene.odoo,
            module,
            on_dep_only,
            scene.odoo.xml_data(module, xml_id),
        ),
{
    let data = scene.odoo.xml_data(module, xml_id);
    assert forall|d: int| 0 <= d < data.len() implies references::datum_ready(
        scene.odoo,
        module,
        on_dep_only,
        #[trigger] data[d],
    ) == can_be_looked_at(scene.odoo, module, on_dep_only, data[d]) by {}
    if references::data_ready(scene.odoo, module, xml_id, on_dep_only) {
        assert(all_can_be_looked_at(scene.odoo, module, on_dep_only, data));
    }
    if all_can_be_looked_at(scene.odoo, module, on_dep_only, data) {
        assert(references::data_ready(scene.odoo, module, xml_id, on_dep_only));
    }
}

/// Whether all of some data can be looked at.
pub open spec fn all_can_be_looked_at(
    odoo: SyncOdoo,
    module: SymbolId,
    on_dep_only: bool,
    data: Seq<OdooData>,
) -> bool {
    forall|d: int|
        0 <= d < data.len() ==> can_be_looked_at(odoo, module, on_dep_only, #[trigger] data[d])
}

/// Whether a datum can be looked at.
pub open spec fn can_be_looked_at(
    odoo: SyncOdoo,
    module: SymbolId,
    on_dep_only: bool,
    datum: OdooData,
) -> bool {
    let file = match datum {
        OdooData::RECORD(record) => record.file_symbol,
        OdooData::OTHER(file) => file,
    };
    if on_dep_only {
        odoo.symbols@[module as int].module is Some || file is None || odoo.symbols@[
            file.unwrap() as int
        ].module is None
    } else {
        datum is OTHER || file is Some
    }
}

/// Some references can be followed if each of them can.
pub proof fn law_all_can_be_followed(scene: Scene, on_dep_only: bool, refs: Seq<Reference>)
    ensures
        references::all_ready(scene, on_dep_only, refs) <==> forall|r: Reference| #[trigger]
            refs.contains(r) ==> references::ready(scene, on_dep_only, r),
{
    if references::all_ready(scene, on_dep_only, refs) {
        assert forall|r: Reference| #[trigger] refs.contains(r) implies references::ready(
            scene,
            on_dep_only,
            r,
        ) by {
            let i = choose|i: int| 0 <= i < refs.len() && refs[i] == r;
            assert(references::ready(scene, on_dep_only, refs[i]));
        }
    }
    if forall|r: Reference| #[trigger]
        refs.contains(r) ==> references::ready(scene, on_dep_only, r) {
        assert forall|i: int| 0 <= i < refs.len() implies references::ready(
            scene,
            on_dep_only,
            #[trigger] refs[i],
        ) by {
            assert(refs.contains(refs[i]));
        }
    }
}

/// By some references a search grows by what they lead to, behind what was found before, and its
/// link becomes the last that they make, if they make one.
pub proof fn law_search_grows(
    scene: Scene,
    on_dep_only: bool,
    refs: Seq<Reference>,
    before: (Seq<XmlAstResult>, Option<Range<usize>>),
    after: (Seq<XmlAstResult>, Option<Range<usize>>),
)
    requires
        references::grown(scene, on_dep_only, refs, before, after),
    ensures
        after.0.len() == before.0.len() + references::all_results(scene, on_dep_only, refs).len(),
        forall|i: int| 0 <= i < before.0.len() ==> after.0[i] == #[trigger] before.0[i],
        forall|i: int|
            0 <= i < references::all_results(scene, on_dep_only, refs).len() ==> after.0[
                before.0.len() + i
            ] == #[trigger] references::all_results(scene, on_dep_only, refs)[i],
        seqs::last_of(references::all_links(scene.odoo, refs)) is None ==> after.1 == before.1,
        seqs::last_of(references::all_links(scene.odoo, refs)) is Some ==> after.1 == seqs::last_of(
            references::all_links(scene.odoo, refs),
        ),
{
}

} // verus!
