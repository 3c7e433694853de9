//! The references of an XML data file that lie under the cursor, and what they refer to.
//!
//! A file is read from top to bottom. What a reference means depends on its surroundings (the
//! model of the record around it, the name of the field around it), which the reading carries
//! along as a [`Context`].

use crate::seqs;
use crate::session::{OdooData, SymbolId, SyncOdoo};
use crate::text;
use crate::view_model;
use crate::xml_ast_utils::XmlAstResult;
use crate::xml_node::{XmlAttr, XmlKind, XmlTree};
use std::ops::Range;
use vstd::prelude::*;

verus! {

/// What the reading of a file knows of the surroundings.
pub struct Context {
    /// The model of the record around.
    pub record_model: Option<Seq<char>>,
    /// The model that the view around is for.
    pub view_arch_model: Option<Seq<char>>,
    /// The name of the field around.
    pub field_name: Option<Seq<char>>,
}

impl Context {
    /// The surroundings at the top of a file.
    pub open spec fn top() -> Context {
        Context { record_model: None, view_arch_model: None, field_name: None }
    }
}

/// A text that refers to something, and the bytes of the file that it covers.
pub enum Reference {
    /// The name of a model.
    Model { name: Seq<char>, range: Range<usize> },
    /// The name of a field of a model.
    Field { model: Seq<char>, name: Seq<char>, range: Range<usize> },
    /// An XML id.
    XmlId { xml_id: Seq<char>, range: Range<usize> },
}

impl Reference {
    pub open spec fn range(self) -> Range<usize> {
        match self {
            Reference::Model { range, .. } => range,
            Reference::Field { range, .. } => range,
            Reference::XmlId { range, .. } => range,
        }
    }
}

/// Where a file is read: in which code base and module, with the cursor at which byte.
pub struct Scene {
    pub odoo: SyncOdoo,
    pub module: Option<SymbolId>,
    pub offset: usize,
}

/// What the reading of a part of a file yields: the references under the cursor, in order, and
/// the surroundings of what follows.
pub struct Trace {
    pub references: Seq<Reference>,
    pub context: Context,
}

/// Whether the cursor is in `range` or at one of its ends.
pub open spec fn under_cursor(range: Range<usize>, offset: usize) -> bool {
    range.start <= offset <= range.end
}

/// An attribute that holds an XML id under the cursor.
pub open spec fn xml_id_at(attr: XmlAttr, offset: usize) -> Option<Reference> {
    if under_cursor(attr.range_value, offset) {
        Some(Reference::XmlId { xml_id: attr.value, range: attr.range_value })
    } else {
        None
    }
}

/// The reference of an attribute of a `record`.
pub open spec fn record_reference(attr: XmlAttr, offset: usize) -> Option<Reference> {
    if attr.name == "model"@ {
        if under_cursor(attr.range_value, offset) {
            Some(Reference::Model { name: attr.value, range: attr.range_value })
        } else {
            None
        }
    } else if attr.name == "id"@ {
        xml_id_at(attr, offset)
    } else {
        None
    }
}

/// The reference of an attribute of a `menuitem`.
pub open spec fn menu_item_reference(attr: XmlAttr, offset: usize) -> Option<Reference> {
    if attr.name == "action"@ || attr.name == "groups"@ {
        xml_id_at(attr, offset)
    } else {
        None
    }
}

/// The reference of an attribute of a `template`.
pub open spec fn template_reference(attr: XmlAttr, offset: usize) -> Option<Reference> {
    if attr.name == "inherit_id"@ || attr.name == "groups"@ {
        xml_id_at(attr, offset)
    } else {
        None
    }
}

/// The model of a record is the value of its last `model` attribute.
pub open spec fn record_context(attributes: Seq<XmlAttr>, context: Context) -> Context
    decreases attributes.len(),
{
    if attributes.len() == 0 {
        context
    } else if attributes.last().name == "model"@ {
        Context { record_model: Some(attributes.last().value), ..context }
    } else {
        record_context(attributes.drop_last(), context)
    }
}

/// Whether a node is a `field` with the given `name` attribute.
pub open spec fn is_field_named(node: XmlTree, name: Seq<char>) -> bool {
    node.is_element("field"@) && node.attribute("name"@) == Some(name)
}

/// The model that a field of a view's record declares the view to be for.
pub open spec fn declared_model(field: XmlTree) -> Option<Seq<char>> {
    if is_field_named(field, "model"@) {
        match field.first_text() {
            Some(t) => if text::trimmed(t).len() > 0 {
                Some(text::trimmed(t))
            } else {
                None
            },
            None => None,
        }
    } else {
        None
    }
}

/// The XML id of the view that a view's record inherits from.
pub open spec fn inherited_view(children: Seq<XmlTree>) -> Option<Seq<char>> {
    match seqs::find_first(children, |c: XmlTree| is_field_named(c, "inherit_id"@)) {
        Some(field) => field.attribute("ref"@),
        None => None,
    }
}

/// The model that a view is for: the last that its record declares, or else that of the view
/// that it inherits from.
pub open spec fn arch_model(scene: Scene, children: Seq<XmlTree>) -> Option<Seq<char>> {
    let declared = children.filter_map(|c: XmlTree| declared_model(c));
    if declared.len() > 0 {
        Some(declared.last())
    } else {
        match (inherited_view(children), scene.module) {
            (Some(xml_id), Some(module)) => view_model::view_model(scene.odoo, module, xml_id),
            _ => None,
        }
    }
}

/// The surroundings of what a record holds. Only a record of `ir.ui.view` is a view: any other has
/// no architecture, wherever it stands.
pub open spec fn record_body_context(scene: Scene, node: XmlTree, context: Context) -> Context {
    Context {
        view_arch_model: if node.attribute("model"@) == Some("ir.ui.view"@) {
            arch_model(scene, node.children)
        } else {
            None
        },
        ..record_context(node.attributes, context)
    }
}

/// The reading of the attributes of a `field`. `arch` tells whether the field holds the
/// architecture of a view, in which fields are those of the view's model.
pub struct FieldTrace {
    pub references: Seq<Reference>,
    pub context: Context,
    pub arch: bool,
}

/// Whether an attribute opens the architecture of a view.
pub open spec fn opens_arch(attr: XmlAttr, context: Context) -> bool {
    attr.name == "name"@ && attr.value == "arch"@ && context.view_arch_model is Some
}

/// Whether the surroundings lie in the architecture of a view: there, fields are those of the
/// view's model.
pub open spec fn in_arch(context: Context) -> bool {
    context.view_arch_model is Some && context.record_model == context.view_arch_model
}

/// The model around what follows a field that holds an architecture: the architecture around
/// goes on behind a field in it that is called `arch` too, and the view's record behind its
/// outermost one.
pub open spec fn model_after_arch(context: Context) -> Option<Seq<char>> {
    if in_arch(context) {
        context.record_model
    } else {
        Some("ir.ui.view"@)
    }
}

/// The surroundings after an attribute of a `field`.
pub open spec fn field_attr_context(attr: XmlAttr, context: Context) -> Context {
    if attr.name == "name"@ {
        Context {
            record_model: if opens_arch(attr, context) {
                context.view_arch_model
            } else {
                context.record_model
            },
            field_name: Some(attr.value),
            ..context
        }
    } else {
        context
    }
}

/// The reference of an attribute of a `field`; `context` is what holds after the attribute.
pub open spec fn field_reference(attr: XmlAttr, offset: usize, context: Context) -> Option<
    Reference,
> {
    if attr.name == "name"@ {
        match context.record_model {
            Some(model) => if under_cursor(attr.range_value, offset) && model.len() > 0 {
                Some(Reference::Field { model, name: attr.value, range: attr.range_value })
            } else {
                None
            },
            None => None,
        }
    } else if attr.name == "ref"@ {
        xml_id_at(attr, offset)
    } else {
        None
    }
}

pub open spec fn optional(reference: Option<Reference>) -> Seq<Reference> {
    match reference {
        Some(r) => seq![r],
        None => Seq::empty(),
    }
}

/// The reading of the attributes of a `field`, one after the other.
pub open spec fn field_trace(attributes: Seq<XmlAttr>, offset: usize, context: Context) -> FieldTrace
    decreases attributes.len(),
{
    if attributes.len() == 0 {
        FieldTrace { references: Seq::empty(), context, arch: false }
    } else {
        let before = field_trace(attributes.drop_last(), offset, context);
        let attr = attributes.last();
        let after = field_attr_context(attr, before.context);
        FieldTrace {
            references: before.references + optional(field_reference(attr, offset, after)),
            context: after,
            arch: before.arch || opens_arch(attr, before.context),
        }
    }
}

/// The reference of a text: in a field `model` or `res_model` of a record, the name of a model.
pub open spec fn text_reference(
    t: Seq<char>,
    range: Range<usize>,
    offset: usize,
    context: Context,
) -> Option<Reference> {
    match (context.record_model, context.field_name) {
        (Some(model), Some(field)) => if under_cursor(range, offset) && model.len() > 0 && (field
            == "model"@ || field == "res_model"@) {
            Some(Reference::Model { name: t, range })
        } else {
            None
        },
        _ => None,
    }
}

/// The reading of a `record`, given that of what it holds.
pub open spec fn around_record(offset: usize, node: XmlTree, body: Trace) -> Trace {
    Trace {
        references: node.attributes.filter_map(|a: XmlAttr| record_reference(a, offset))
            + body.references,
        context: Context { record_model: None, view_arch_model: None, ..body.context },
    }
}

/// The reading of a `field` in the surroundings `context`, given that of its attributes and that
/// of what it holds.
pub open spec fn around_field(context: Context, head: FieldTrace, body: Trace) -> Trace {
    Trace {
        references: head.references + body.references,
        context: Context {
            record_model: if head.arch {
                model_after_arch(context)
            } else {
                body.context.record_model
            },
            field_name: None,
            ..body.context
        },
    }
}

/// The reading of a `menuitem`, given that of what it holds.
pub open spec fn around_menu_item(offset: usize, node: XmlTree, body: Trace) -> Trace {
    Trace {
        references: node.attributes.filter_map(|a: XmlAttr| menu_item_reference(a, offset))
            + body.references,
        context: body.context,
    }
}

/// The reading of a `template`, given that of what it holds.
pub open spec fn around_template(offset: usize, node: XmlTree, body: Trace) -> Trace {
    Trace {
        references: node.attributes.filter_map(|a: XmlAttr| template_reference(a, offset))
            + body.references,
        context: body.context,
    }
}

/// The reading of a node with everything below it.
pub open spec fn trace(scene: Scene, node: XmlTree, context: Context) -> Trace
    decreases node, 1int,
{
    match node.kind {
        XmlKind::Element(tag) => if tag == "record"@ {
            around_record(
                scene.offset,
                node,
                trace_all(scene, node.children, record_body_context(scene, node, context)),
            )
        } else if tag == "field"@ {
            let head = field_trace(node.attributes, scene.offset, context);
            around_field(context, head, trace_all(scene, node.children, head.context))
        } else if tag == "menuitem"@ {
            around_menu_item(scene.offset, node, trace_all(scene, node.children, context))
        } else if tag == "template"@ {
            around_template(scene.offset, node, trace_all(scene, node.children, context))
        } else {
            trace_all(scene, node.children, context)
        },
        XmlKind::Text(t) => Trace {
            references: optional(text_reference(t, node.range, scene.offset, context)),
            context,
        },
        XmlKind::Other => Trace { references: Seq::empty(), context },
    }
}

/// The reading of some nodes, one after the other.
pub open spec fn trace_all(scene: Scene, nodes: Seq<XmlTree>, context: Context) -> Trace
    decreases nodes, 0int,
{
    if nodes.len() == 0 {
        Trace { references: Seq::empty(), context }
    } else {
        let before = trace_all(scene, nodes.drop_last(), context);
        let last = trace(scene, nodes.last(), before.context);
        Trace { references: before.references + last.references, context: last.context }
    }
}

/// The reading of a node as a `record`, whatever its tag.
pub open spec fn record_trace(scene: Scene, node: XmlTree, context: Context) -> Trace {
    around_record(
        scene.offset,
        node,
        trace_all(scene, node.children, record_body_context(scene, node, context)),
    )
}

/// The reading of a node as a `field`, whatever its tag.
pub open spec fn field_node_trace(scene: Scene, node: XmlTree, context: Context) -> Trace {
    let head = field_trace(node.attributes, scene.offset, context);
    around_field(context, head, trace_all(scene, node.children, head.context))
}

/// The reading of a node as a `menuitem`, whatever its tag.
pub open spec fn menu_item_trace(scene: Scene, node: XmlTree, context: Context) -> Trace {
    around_menu_item(scene.offset, node, trace_all(scene, node.children, context))
}

/// The reading of a node as a `template`, whatever its tag.
pub open spec fn template_trace(scene: Scene, node: XmlTree, context: Context) -> Trace {
    around_template(scene.offset, node, trace_all(scene, node.children, context))
}

/// The references under the cursor in what a document's root node holds.
pub open spec fn references(scene: Scene, root: XmlTree) -> Seq<Reference> {
    trace_all(scene, root.children, Context::top()).references
}

/// The module whose dependencies limit what is found, if they do.
pub open spec fn scope(module: Option<SymbolId>, on_dep_only: bool) -> Option<SymbolId> {
    if on_dep_only {
        module
    } else {
        None
    }
}

pub open spec fn as_results(symbols: Seq<SymbolId>) -> Seq<XmlAstResult> {
    symbols.map_values(|s: SymbolId| XmlAstResult::SYMBOL(s))
}

/// Whether a datum belongs to a module that the module of `module` depends on.
pub open spec fn in_scope(odoo: SyncOdoo, module: SymbolId, datum: OdooData) -> bool {
    match datum.file_symbol() {
        Some(file) => match odoo.symbol(file).module {
            Some(theirs) => match odoo.symbol(module).module {
                Some(own) => odoo.is_in_deps(own, odoo.symbol(theirs).name@),
                None => false,
            },
            None => false,
        },
        None => false,
    }
}

/// What a datum adds to the results: a record its place, any other datum nothing.
pub open spec fn datum_result(
    odoo: SyncOdoo,
    module: SymbolId,
    on_dep_only: bool,
    datum: OdooData,
) -> Option<XmlAstResult> {
    if on_dep_only && !in_scope(odoo, module, datum) {
        None
    } else {
        match datum {
            OdooData::RECORD(r) => match r.file_symbol {
                Some(file) => Some(XmlAstResult::XML_DATA(file, r.range)),
                None => None,
            },
            OdooData::OTHER(_) => None,
        }
    }
}

/// The records that an XML id stands for.
pub open spec fn xml_id_results(
    odoo: SyncOdoo,
    module: SymbolId,
    xml_id: Seq<char>,
    on_dep_only: bool,
) -> Seq<XmlAstResult> {
    odoo.xml_data(module, xml_id).filter_map(
        |d: OdooData| datum_result(odoo, module, on_dep_only, d),
    )
}

/// The classes of a model.
pub open spec fn model_results(
    odoo: SyncOdoo,
    module: Option<SymbolId>,
    name: Seq<char>,
    on_dep_only: bool,
) -> Seq<XmlAstResult> {
    match odoo.model_named(name) {
        Some(model) => as_results(model.reachable_symbols(scope(module, on_dep_only), false)),
        None => Seq::empty(),
    }
}

/// The definitions of a field of a model, in the model's own classes and in those that it
/// inherits from.
pub open spec fn field_results(
    odoo: SyncOdoo,
    module: Option<SymbolId>,
    model: Seq<char>,
    name: Seq<char>,
    on_dep_only: bool,
) -> Seq<XmlAstResult> {
    match odoo.model_named(model) {
        Some(m) => m.reachable_symbols(scope(module, on_dep_only), true).flat_map(
            |s: SymbolId| as_results(odoo.symbol(s).content_of(name)),
        ),
        None => Seq::empty(),
    }
}

/// What a reference refers to.
pub open spec fn results_of(scene: Scene, on_dep_only: bool, reference: Reference) -> Seq<
    XmlAstResult,
> {
    match reference {
        Reference::Model { name, .. } => model_results(
            scene.odoo,
            scene.module,
            name,
            on_dep_only,
        ),
        Reference::Field { model, name, .. } => field_results(
            scene.odoo,
            scene.module,
            model,
            name,
            on_dep_only,
        ),
        Reference::XmlId { xml_id, .. } => match scene.module {
            Some(module) => xml_id_results(scene.odoo, module, xml_id, on_dep_only),
            None => Seq::empty(),
        },
    }
}

/// The part of the file that a reference makes a link of. The name of an unknown model, or of a
/// field of one, is no link.
pub open spec fn link_of(odoo: SyncOdoo, reference: Reference) -> Option<Range<usize>> {
    match reference {
        Reference::Model { name, range } => if odoo.model_named(name) is Some {
            Some(range)
        } else {
            None
        },
        Reference::Field { model, range, .. } => if odoo.model_named(model) is Some {
            Some(range)
        } else {
            None
        },
        Reference::XmlId { range, .. } => Some(range),
    }
}

/// What some references refer to, all together.
pub open spec fn all_results(scene: Scene, on_dep_only: bool, refs: Seq<Reference>) -> Seq<
    XmlAstResult,
> {
    refs.flat_map(|r: Reference| results_of(scene, on_dep_only, r))
}

/// The links that some references make.
pub open spec fn all_links(odoo: SyncOdoo, refs: Seq<Reference>) -> Seq<Range<usize>> {
    refs.filter_map(|r: Reference| link_of(odoo, r))
}

/// The last link that some references make, or else the one from before.
pub open spec fn link_after(
    odoo: SyncOdoo,
    before: Option<Range<usize>>,
    refs: Seq<Reference>,
) -> Option<Range<usize>> {
    if all_links(odoo, refs).len() > 0 {
        Some(all_links(odoo, refs).last())
    } else {
        before
    }
}

/// Whether a datum can be looked at: whether its module is in scope can only be asked of a
/// module that belongs to one, and a record that is in scope has to be in a loaded file.
pub open spec fn datum_ready(
    odoo: SyncOdoo,
    module: SymbolId,
    on_dep_only: bool,
    datum: OdooData,
) -> bool {
    if on_dep_only {
        (datum.file_symbol() matches Some(file) && odoo.symbol(file).module is Some) ==> odoo.symbol(
            module,
        ).module is Some
    } else {
        datum is RECORD ==> datum.file_symbol() is Some
    }
}

/// Whether a reference can be followed: an XML id only from within a module, and if what it
/// stands for can be looked at.
pub open spec fn ready(scene: Scene, on_dep_only: bool, reference: Reference) -> bool {
    reference matches Reference::XmlId { xml_id, .. } ==> (scene.module matches Some(module)
        && data_ready(scene.odoo, module, xml_id, on_dep_only))
}

pub open spec fn data_ready(
    odoo: SyncOdoo,
    module: SymbolId,
    xml_id: Seq<char>,
    on_dep_only: bool,
) -> bool {
    let data = odoo.xml_data(module, xml_id);
    forall|i: int| 0 <= i < data.len() ==> datum_ready(odoo, module, on_dep_only, #[trigger] data[i])
}

pub open spec fn all_ready(scene: Scene, on_dep_only: bool, refs: Seq<Reference>) -> bool {
    forall|i: int| 0 <= i < refs.len() ==> ready(scene, on_dep_only, #[trigger] refs[i])
}

/// How the results of a search grow by what `refs` refer to.
pub open spec fn grown(
    scene: Scene,
    on_dep_only: bool,
    refs: Seq<Reference>,
    before: (Seq<XmlAstResult>, Option<Range<usize>>),
    after: (Seq<XmlAstResult>, Option<Range<usize>>),
) -> bool {
    &&& after.0 == before.0 + all_results(scene, on_dep_only, refs)
    &&& after.1 == link_after(scene.odoo, before.1, refs)
}

pub proof fn lemma_grown_nothing(
    scene: Scene,
    on_dep_only: bool,
    before: (Seq<XmlAstResult>, Option<Range<usize>>),
)
    ensures
        grown(scene, on_dep_only, Seq::empty(), before, before),
{
    let f = |r: Reference| results_of(scene, on_dep_only, r);
    seqs::lemma_flat_map_empty::<Reference, XmlAstResult>(f);
    assert(before.0 + Seq::<XmlAstResult>::empty() =~= before.0);
}

pub proof fn lemma_grown_by_one(
    scene: Scene,
    on_dep_only: bool,
    reference: Reference,
    before: (Seq<XmlAstResult>, Option<Range<usize>>),
    after: (Seq<XmlAstResult>, Option<Range<usize>>),
)
    requires
        after.0 == before.0 + results_of(scene, on_dep_only, reference),
        after.1 == (match link_of(scene.odoo, reference) {
            Some(link) => Some(link),
            None => before.1,
        }),
    ensures
        grown(scene, on_dep_only, seq![reference], before, after),
{
    let f = |r: Reference| results_of(scene, on_dep_only, r);
    let l = |r: Reference| link_of(scene.odoo, r);
    seqs::lemma_flat_map_one(reference, f);
    Seq::lemma_filter_map_singleton(reference, l);
}

pub proof fn lemma_grown_twice(
    scene: Scene,
    on_dep_only: bool,
    refs: Seq<Reference>,
    more: Seq<Reference>,
    before: (Seq<XmlAstResult>, Option<Range<usize>>),
    between: (Seq<XmlAstResult>, Option<Range<usize>>),
    after: (Seq<XmlAstResult>, Option<Range<usize>>),
)
    requires
        grown(scene, on_dep_only, refs, before, between),
        grown(scene, on_dep_only, more, between, after),
    ensures
        grown(scene, on_dep_only, refs + more, before, after),
{
    let f = |r: Reference| results_of(scene, on_dep_only, r);
    let l = |r: Reference| link_of(scene.odoo, r);
    seqs::lemma_flat_map_concat(refs, more, f);
    seqs::lemma_filter_map_concat(refs, more, l);
    assert(after.0 =~= before.0 + all_results(scene, on_dep_only, refs + more));
}

pub proof fn lemma_ready_parts(
    scene: Scene,
    on_dep_only: bool,
    refs: Seq<Reference>,
    more: Seq<Reference>,
)
    requires
        all_ready(scene, on_dep_only, refs + more),
    ensures
        all_ready(scene, on_dep_only, refs),
        all_ready(scene, on_dep_only, more),
{
    let all = refs + more;
    assert forall|i: int| 0 <= i < refs.len() implies ready(
        scene,
        on_dep_only,
        #[trigger] refs[i],
    ) by {
        assert(all[i] == refs[i]);
    }
    assert forall|i: int| 0 <= i < more.len() implies ready(
        scene,
        on_dep_only,
        #[trigger] more[i],
    ) by {
        assert(all[refs.len() + i] == more[i]);
    }
}

/// What can be followed in some nodes can be followed in the first of them.
pub proof fn lemma_ready_prefix(
    scene: Scene,
    on_dep_only: bool,
    nodes: Seq<XmlTree>,
    context: Context,
    n: int,
)
    requires
        0 <= n <= nodes.len(),
        all_ready(scene, on_dep_only, trace_all(scene, nodes, context).references),
    ensures
        all_ready(scene, on_dep_only, trace_all(scene, nodes.take(n), context).references),
    decreases nodes.len(),
{
    if n == nodes.len() {
        assert(nodes.take(n) =~= nodes);
    } else {
        let before = trace_all(scene, nodes.drop_last(), context);
        lemma_ready_parts(
            scene,
            on_dep_only,
            before.references,
            trace(scene, nodes.last(), before.context).references,
        );
        lemma_ready_prefix(scene, on_dep_only, nodes.drop_last(), context, n);
        assert(nodes.drop_last().take(n) =~= nodes.take(n));
    }
}

pub proof fn lemma_trace_all_step(scene: Scene, nodes: Seq<XmlTree>, context: Context, i: int)
    requires
        0 <= i < nodes.len(),
    ensures
        ({
            let before = trace_all(scene, nodes.take(i), context);
            let here = trace(scene, nodes[i], before.context);
            let after = trace_all(scene, nodes.take(i + 1), context);
            &&& after.references == before.references + here.references
            &&& after.context == here.context
        }),
{
    assert(nodes.take(i + 1).drop_last() =~= nodes.take(i));
}

/// What can be followed in the attributes of a field can be followed in the first of them.
pub proof fn lemma_ready_field_prefix(
    scene: Scene,
    on_dep_only: bool,
    attributes: Seq<XmlAttr>,
    context: Context,
    n: int,
)
    requires
        0 <= n <= attributes.len(),
        all_ready(
            scene,
            on_dep_only,
            field_trace(attributes, scene.offset, context).references,
        ),
    ensures
        all_ready(
            scene,
            on_dep_only,
            field_trace(attributes.take(n), scene.offset, context).references,
        ),
    decreases attributes.len(),
{
    if n == attributes.len() {
        assert(attributes.take(n) =~= attributes);
    } else {
        let before = field_trace(attributes.drop_last(), scene.offset, context);
        let attr = attributes.last();
        let after = field_attr_context(attr, before.context);
        lemma_ready_parts(
            scene,
            on_dep_only,
            before.references,
            optional(field_reference(attr, scene.offset, after)),
        );
        lemma_ready_field_prefix(scene, on_dep_only, attributes.drop_last(), context, n);
        assert(attributes.drop_last().take(n) =~= attributes.take(n));
    }
}

pub proof fn lemma_field_trace_step(
    attributes: Seq<XmlAttr>,
    offset: usize,
    context: Context,
    i: int,
)
    requires
        0 <= i < attributes.len(),
    ensures
        ({
            let before = field_trace(attributes.take(i), offset, context);
            let context_after = field_attr_context(attributes[i], before.context);
            let after = field_trace(attributes.take(i + 1), offset, context);
            &&& after.references == before.references + optional(
                field_reference(attributes[i], offset, context_after),
            )
            &&& after.context == context_after
            &&& after.arch == (before.arch || opens_arch(attributes[i], before.context))
        }),
{
    assert(attributes.take(i + 1).drop_last() =~= attributes.take(i));
}

pub proof fn lemma_record_context_step(attributes: Seq<XmlAttr>, context: Context, i: int)
    requires
        0 <= i < attributes.len(),
    ensures
        record_context(attributes.take(i + 1), context) == (if attributes[i].name == "model"@ {
            Context {
                record_model: Some(attributes[i].value),
                ..record_context(attributes.take(i), context)
            }
        } else {
            record_context(attributes.take(i), context)
        }),
{
    assert(attributes.take(i + 1).drop_last() =~= attributes.take(i));
    lemma_record_context_rest(attributes.take(i), context);
}

/// Attributes of a record change nothing but the record's model.
proof fn lemma_record_context_rest(attributes: Seq<XmlAttr>, context: Context)
    ensures
        record_context(attributes, context).view_arch_model == context.view_arch_model,
        record_context(attributes, context).field_name == context.field_name,
    decreases attributes.len(),
{
    if attributes.len() > 0 {
        lemma_record_context_rest(attributes.drop_last(), context);
    }
}

/// The elements that are read in a way of their own are four different ones.
pub proof fn lemma_tags_differ()
    ensures
        "record"@ != "field"@,
        "record"@ != "menuitem"@,
        "record"@ != "template"@,
        "field"@ != "menuitem"@,
        "field"@ != "template"@,
        "menuitem"@ != "template"@,
{
    reveal_strlit("record");
    reveal_strlit("field");
    reveal_strlit("menuitem");
    reveal_strlit("template");
    assert("record"@.len() == 6);
    assert("field"@.len() == 5);
    assert("menuitem"@.len() == 8);
    assert("template"@.len() == 8);
    assert("menuitem"@[0] != "template"@[0]);
}

/// Whether an attribute of the element `tag` holds an XML id.
pub open spec fn holds_xml_id(tag: Seq<char>, name: Seq<char>) -> bool {
    if tag == "record"@ {
        name == "id"@
    } else if tag == "field"@ {
        name == "ref"@
    } else if tag == "menuitem"@ {
        name == "action"@ || name == "groups"@
    } else if tag == "template"@ {
        name == "inherit_id"@ || name == "groups"@
    } else {
        false
    }
}

/// Whether what an attribute refers to can be followed, if the cursor is on it.
pub open spec fn attr_ready(scene: Scene, on_dep_only: bool, tag: Seq<char>, attr: XmlAttr) -> bool {
    holds_xml_id(tag, attr.name) && under_cursor(attr.range_value, scene.offset) ==> ready(
        scene,
        on_dep_only,
        Reference::XmlId { xml_id: attr.value, range: attr.range_value },
    )
}

/// Whether every reference under the cursor in a node can be followed. Only XML ids can fail to
/// be, and where those stand does not depend on the surroundings.
pub open spec fn node_ready(scene: Scene, on_dep_only: bool, node: XmlTree) -> bool
    decreases node,
{
    node.kind matches XmlKind::Element(tag) ==> {
        &&& forall|i: int|
            0 <= i < node.attributes.len() ==> attr_ready(
                scene,
                on_dep_only,
                tag,
                #[trigger] node.attributes[i],
            )
        &&& forall|i: int|
            0 <= i < node.children.len() ==> node_ready(
                scene,
                on_dep_only,
                #[trigger] node.children[i],
            )
    }
}

pub open spec fn nodes_ready(scene: Scene, on_dep_only: bool, nodes: Seq<XmlTree>) -> bool {
    forall|i: int| 0 <= i < nodes.len() ==> node_ready(scene, on_dep_only, #[trigger] nodes[i])
}

proof fn lemma_ready_concat(
    scene: Scene,
    on_dep_only: bool,
    refs: Seq<Reference>,
    more: Seq<Reference>,
)
    ensures
        all_ready(scene, on_dep_only, refs + more) <==> (all_ready(scene, on_dep_only, refs)
            && all_ready(scene, on_dep_only, more)),
{
    if all_ready(scene, on_dep_only, refs + more) {
        lemma_ready_parts(scene, on_dep_only, refs, more);
    }
}

/// The references of attributes can be followed exactly when each of them can.
proof fn lemma_ready_filter_map(
    scene: Scene,
    on_dep_only: bool,
    attributes: Seq<XmlAttr>,
    f: spec_fn(XmlAttr) -> Option<Reference>,
)
    ensures
        all_ready(scene, on_dep_only, attributes.filter_map(f)) <==> forall|i: int|
            0 <= i < attributes.len() ==> (f(#[trigger] attributes[i]) matches Some(r) ==> ready(
                scene,
                on_dep_only,
                r,
            )),
    decreases attributes.len(),
{
    if attributes.len() > 0 {
        let n = attributes.len() - 1;
        let front = attributes.take(n);
        assert(attributes.take(n + 1) =~= attributes);
        assert(attributes.drop_last() =~= front);
        lemma_ready_filter_map(scene, on_dep_only, front, f);
        lemma_ready_concat(
            scene,
            on_dep_only,
            front.filter_map(f),
            optional(f(attributes[n])),
        );
        match f(attributes[n]) {
            Some(r) => {
                assert(optional(f(attributes[n]))[0] == r);
                assert(attributes.filter_map(f) =~= front.filter_map(f) + optional(Some(r)));
            },
            None => {
                assert(attributes.filter_map(f) =~= front.filter_map(f) + optional(None));
            },
        }
        assert forall|i: int| 0 <= i < front.len() implies front[i] == #[trigger] attributes[i] by {
        }
        assert((forall|i: int|
            0 <= i < front.len() ==> (f(#[trigger] front[i]) matches Some(r) ==> ready(
                scene,
                on_dep_only,
                r,
            ))) <==> (forall|i: int|
            0 <= i < n ==> (f(#[trigger] attributes[i]) matches Some(r) ==> ready(
                scene,
                on_dep_only,
                r,
            )))) by {
            if forall|i: int|
                0 <= i < n ==> (f(#[trigger] attributes[i]) matches Some(r) ==> ready(
                    scene,
                    on_dep_only,
                    r,
                )) {
                assert forall|i: int| 0 <= i < front.len() implies (f(
                    #[trigger] front[i],
                ) matches Some(r) ==> ready(scene, on_dep_only, r)) by {
                    assert(front[i] == attributes[i]);
                }
            }
        }
    }
}

/// The references of the attributes of a field can be followed exactly when each of them can.
proof fn lemma_ready_field(
    scene: Scene,
    on_dep_only: bool,
    attributes: Seq<XmlAttr>,
    context: Context,
)
    ensures
        all_ready(scene, on_dep_only, field_trace(attributes, scene.offset, context).references)
            <==> forall|i: int|
            0 <= i < attributes.len() ==> attr_ready(
                scene,
                on_dep_only,
                "field"@,
                #[trigger] attributes[i],
            ),
    decreases attributes.len(),
{
    lemma_tags_differ();
    reveal_strlit("name");
    reveal_strlit("ref");
    assert("name"@.len() == 4);
    assert("ref"@.len() == 3);
    if attributes.len() > 0 {
        let n = attributes.len() - 1;
        let front = attributes.drop_last();
        lemma_ready_field(scene, on_dep_only, front, context);
        let before = field_trace(front, scene.offset, context);
        let attr = attributes.last();
        let after = field_attr_context(attr, before.context);
        let here = field_reference(attr, scene.offset, after);
        lemma_ready_concat(scene, on_dep_only, before.references, optional(here));
        if let Some(r) = here {
            assert(optional(here)[0] == r);
        }
        assert(all_ready(scene, on_dep_only, optional(here)) <==> attr_ready(
            scene,
            on_dep_only,
            "field"@,
            attr,
        ));
        if forall|i: int|
            0 <= i < attributes.len() ==> attr_ready(
                scene,
                on_dep_only,
                "field"@,
                #[trigger] attributes[i],
            ) {
            assert forall|i: int| 0 <= i < front.len() implies attr_ready(
                scene,
                on_dep_only,
                "field"@,
                #[trigger] front[i],
            ) by {
                assert(front[i] == attributes[i]);
            }
            assert(attributes[n] == attr);
        } else {
            let j = choose|j: int|
                0 <= j < attributes.len() && !attr_ready(
                    scene,
                    on_dep_only,
                    "field"@,
                    #[trigger] attributes[j],
                );
            if j < n {
                assert(front[j] == attributes[j]);
            }
        }
    }
}

/// The references of the attributes of an element can be followed exactly when each of them
/// can.
proof fn lemma_ready_attrs(
    scene: Scene,
    on_dep_only: bool,
    tag: Seq<char>,
    attributes: Seq<XmlAttr>,
    f: spec_fn(XmlAttr) -> Option<Reference>,
)
    requires
        forall|a: XmlAttr|
            (#[trigger] f(a) matches Some(r) ==> ready(scene, on_dep_only, r)) <==> attr_ready(
                scene,
                on_dep_only,
                tag,
                a,
            ),
    ensures
        all_ready(scene, on_dep_only, attributes.filter_map(f)) <==> forall|i: int|
            0 <= i < attributes.len() ==> attr_ready(
                scene,
                on_dep_only,
                tag,
                #[trigger] attributes[i],
            ),
{
    lemma_ready_filter_map(scene, on_dep_only, attributes, f);
    assert forall|i: int| 0 <= i < attributes.len() implies (f(
        #[trigger] attributes[i],
    ) matches Some(r) ==> ready(scene, on_dep_only, r)) <==> attr_ready(
        scene,
        on_dep_only,
        tag,
        attributes[i],
    ) by {
        let a = attributes[i];
        assert((f(a) matches Some(r) ==> ready(scene, on_dep_only, r)) <==> attr_ready(
            scene,
            on_dep_only,
            tag,
            a,
        ));
    }
}

/// The references under the cursor in a node can be followed in any surroundings or in none.
pub proof fn lemma_node_ready(scene: Scene, on_dep_only: bool, node: XmlTree, context: Context)
    ensures
        all_ready(scene, on_dep_only, trace(scene, node, context).references) <==> node_ready(
            scene,
            on_dep_only,
            node,
        ),
    decreases node, 1int,
{
    match node.kind {
        XmlKind::Element(tag) => {
            lemma_tags_differ();
            let inner = if tag == "record"@ {
                record_body_context(scene, node, context)
            } else if tag == "field"@ {
                field_trace(node.attributes, scene.offset, context).context
            } else {
                context
            };
            let body = trace_all(scene, node.children, inner);
            lemma_nodes_ready(scene, on_dep_only, node.children, inner);
            if tag == "record"@ {
                reveal_strlit("model");
                reveal_strlit("id");
                assert("model"@.len() == 5);
                assert("id"@.len() == 2);
                let f = |a: XmlAttr| record_reference(a, scene.offset);
                lemma_ready_attrs(scene, on_dep_only, tag, node.attributes, f);
                lemma_ready_concat(
                    scene,
                    on_dep_only,
                    node.attributes.filter_map(f),
                    body.references,
                );
            } else if tag == "field"@ {
                lemma_ready_field(scene, on_dep_only, node.attributes, context);
                lemma_ready_concat(
                    scene,
                    on_dep_only,
                    field_trace(node.attributes, scene.offset, context).references,
                    body.references,
                );
            } else if tag == "menuitem"@ {
                let f = |a: XmlAttr| menu_item_reference(a, scene.offset);
                lemma_ready_attrs(scene, on_dep_only, tag, node.attributes, f);
                lemma_ready_concat(
                    scene,
                    on_dep_only,
                    node.attributes.filter_map(f),
                    body.references,
                );
            } else if tag == "template"@ {
                let f = |a: XmlAttr| template_reference(a, scene.offset);
                lemma_ready_attrs(scene, on_dep_only, tag, node.attributes, f);
                lemma_ready_concat(
                    scene,
                    on_dep_only,
                    node.attributes.filter_map(f),
                    body.references,
                );
            }
        },
        XmlKind::Text(t) => {
            let here = text_reference(t, node.range, scene.offset, context);
            if let Some(r) = here {
                assert(optional(here)[0] == r);
            }
        },
        XmlKind::Other => {},
    }
}

/// The references under the cursor in some nodes can be followed in any surroundings or in
/// none.
pub proof fn lemma_nodes_ready(
    scene: Scene,
    on_dep_only: bool,
    nodes: Seq<XmlTree>,
    context: Context,
)
    ensures
        all_ready(scene, on_dep_only, trace_all(scene, nodes, context).references)
            <==> nodes_ready(scene, on_dep_only, nodes),
    decreases nodes, 0int,
{
    if nodes.len() > 0 {
        let n = nodes.len() - 1;
        let front = nodes.drop_last();
        let before = trace_all(scene, front, context);
        lemma_nodes_ready(scene, on_dep_only, front, context);
        lemma_node_ready(scene, on_dep_only, nodes.last(), before.context);
        lemma_ready_concat(
            scene,
            on_dep_only,
            before.references,
            trace(scene, nodes.last(), before.context).references,
        );
        if nodes_ready(scene, on_dep_only, nodes) {
            assert forall|i: int| 0 <= i < front.len() implies node_ready(
                scene,
                on_dep_only,
                #[trigger] front[i],
            ) by {
                assert(front[i] == nodes[i]);
            }
            assert(node_ready(scene, on_dep_only, nodes[n]));
        } else {
            let j = choose|j: int|
                0 <= j < nodes.len() && !node_ready(scene, on_dep_only, #[trigger] nodes[j]);
            if j < n {
                assert(front[j] == nodes[j]);
            }
        }
    }
}

} // verus!
