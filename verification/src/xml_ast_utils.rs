//! The symbols that the cursor points at in an XML data file.

use crate::references;
use crate::references::{Context, Reference, Scene};
use crate::search_laws;
use crate::seqs;
use crate::session::{OdooData, SessionInfo, SymbolId, SyncOdoo};
use crate::text;
use crate::xml_node::{XmlAttr, XmlAttribute, XmlNode, XmlNodeKind, XmlTree};
use std::ops::Range;
use vstd::prelude::*;

verus! {

/// Something that the cursor points at: a symbol, or a part of an XML file.
#[derive(Debug)]
pub enum XmlAstResult {
    SYMBOL(SymbolId),
    #[allow(non_camel_case_types)]
    XML_DATA(SymbolId, Range<usize>),
}

impl XmlAstResult {
    /// The symbol that this is.
    pub fn as_symbol(&self) -> (res: SymbolId)
        requires
            self is SYMBOL,
        ensures
            *self == XmlAstResult::SYMBOL(res),
    {
        match self {
            XmlAstResult::SYMBOL(sym) => *sym,
            XmlAstResult::XML_DATA(_, _) => vstd::pervasive::unreached(),
        }
    }

    /// The XML file and the bytes of it that this is.
    pub fn as_xml_data(&self) -> (res: (SymbolId, Range<usize>))
        requires
            self is XML_DATA,
        ensures
            *self == XmlAstResult::XML_DATA(res.0, res.1),
    {
        match self {
            XmlAstResult::SYMBOL(_) => vstd::pervasive::unreached(),
            XmlAstResult::XML_DATA(sym, range) => (*sym, range.start..range.end),
        }
    }
}

/// The surroundings of the node that is being visited.
#[derive(Debug)]
pub struct XmlContext {
    /// The model of the record around.
    pub record_model: Option<String>,
    /// The model that the view around is for.
    pub view_arch_model: Option<String>,
    /// The name of the field around.
    pub field_name: Option<String>,
}

pub open spec fn text_view(t: Option<String>) -> Option<Seq<char>> {
    match t {
        Some(s) => Some(s@),
        None => None,
    }
}

impl View for XmlContext {
    type V = Context;

    open spec fn view(&self) -> Context {
        Context {
            record_model: text_view(self.record_model),
            view_arch_model: text_view(self.view_arch_model),
            field_name: text_view(self.field_name),
        }
    }
}

/// What a search has found so far, and the link to it.
pub open spec fn found(results: (Vec<XmlAstResult>, Option<Range<usize>>)) -> (
    Seq<XmlAstResult>,
    Option<Range<usize>>,
) {
    (results.0@, results.1)
}

/// Where a file of `session` is read.
pub open spec fn scene(session: SessionInfo, module: Option<SymbolId>, offset: usize) -> Scene {
    Scene { odoo: session.sync_odoo, module, offset }
}

/// Whether the module that a file is read in is a symbol of the session.
pub open spec fn module_valid(session: SessionInfo, module: Option<SymbolId>) -> bool {
    module matches Some(m) ==> session.sync_odoo.valid(m)
}

fn copy_range(range: &Range<usize>) -> (res: Range<usize>)
    ensures
        res == *range,
{
    range.start..range.end
}

/// Whether the cursor is in `range` or at one of its ends.
fn is_under_cursor(range: &Range<usize>, offset: usize) -> (res: bool)
    ensures
        res == references::under_cursor(*range, offset),
{
    range.start <= offset && range.end >= offset
}

/// Appends symbols to results.
fn push_symbols(symbols: &Vec<SymbolId>, results: &mut Vec<XmlAstResult>)
    ensures
        final(results)@ == old(results)@ + references::as_results(symbols@),
{
    let ghost before = results@;
    let mut i: usize = 0;
    assert(before + references::as_results(symbols@).take(0) =~= before);
    while i < symbols.len()
        invariant
            i <= symbols.len(),
            results@ == before + references::as_results(symbols@).take(i as int),
        decreases symbols.len() - i,
    {
        results.push(XmlAstResult::SYMBOL(symbols[i]));
        assert(results@ =~= before + references::as_results(symbols@).take(i + 1));
        i += 1;
    }
    assert(references::as_results(symbols@).take(symbols@.len() as int)
        =~= references::as_results(symbols@));
}

/// The search for what the cursor points at.
pub struct XmlAstUtils {}

impl XmlAstUtils {
    /// Appends the records that an XML id stands for; with `on_dep_only` those in modules that
    /// the module of `file_symbol` depends on.
    pub fn add_xml_id_result(
        session: &SessionInfo,
        xml_id: &str,
        file_symbol: SymbolId,
        results: &mut (Vec<XmlAstResult>, Option<Range<usize>>),
        on_dep_only: bool,
    )
        requires
            session.sync_odoo.wf(),
            session.sync_odoo.valid(file_symbol),
            references::data_ready(session.sync_odoo, file_symbol, xml_id@, on_dep_only),
        ensures
            final(results).0@ == old(results).0@ + references::xml_id_results(
                session.sync_odoo,
                file_symbol,
                xml_id@,
                on_dep_only,
            ),
            final(results).1 == old(results).1,
    {
        let odoo = &session.sync_odoo;
        let ghost before = results.0@;
        let ghost f = |d: OdooData| references::datum_result(*odoo, file_symbol, on_dep_only, d);
        let ghost all = odoo.xml_data(file_symbol, xml_id@);
        let xml_ids = match odoo.get_xml_ids(file_symbol, xml_id) {
            Some(xml_ids) => xml_ids,
            None => {
                assert(before + all.filter_map(f) =~= before);
                return;
            },
        };
        let mut i: usize = 0;
        proof {
            assert(all.take(0) =~= Seq::<OdooData>::empty());
            assert(before + all.take(0).filter_map(f) =~= before);
        }
        while i < xml_ids.len()
            invariant
                i <= xml_ids.len(),
                odoo == session.sync_odoo,
                odoo.wf(),
                odoo.valid(file_symbol),
                all == xml_ids@,
                all == odoo.xml_data(file_symbol, xml_id@),
                references::data_ready(*odoo, file_symbol, xml_id@, on_dep_only),
                f == (|d: OdooData|
                    references::datum_result(*odoo, file_symbol, on_dep_only, d)),
                results.0@ == before + all.take(i as int).filter_map(f),
                results.1 == old(results).1,
            decreases xml_ids.len() - i,
        {
            proof {
                assert(references::datum_ready(*odoo, file_symbol, on_dep_only, all[i as int]));
                Self::lemma_data_wf(*odoo, file_symbol, xml_id@, i as int);
                seqs::lemma_filter_map_take(all, f, i as int);
            }
            if !on_dep_only || Self::is_in_scope(odoo, file_symbol, &xml_ids[i]) {
                if let OdooData::RECORD(r) = &xml_ids[i] {
                    if let Some(file) = r.file_symbol {
                        results.0.push(XmlAstResult::XML_DATA(file, copy_range(&r.range)));
                        assert(results.0@ =~= before + all.take(i as int).filter_map(f).push(
                            XmlAstResult::XML_DATA(file, r.range),
                        ));
                    }
                }
            }
            i += 1;
        }
        assert(all.take(all.len() as int) =~= all);
    }

    /// The files of the data that an XML id stands for are symbols.
    proof fn lemma_data_wf(odoo: SyncOdoo, from_file: SymbolId, xml_id: Seq<char>, i: int)
        requires
            odoo.wf(),
            0 <= i < odoo.xml_data(from_file, xml_id).len(),
        ensures
            odoo.file_wf(odoo.xml_data(from_file, xml_id)[i].file_symbol()),
    {
        let p = |e: crate::session::XmlIdEntry| e.is_for(from_file, xml_id);
        seqs::lemma_find_first_holds(odoo.xml_ids@, p);
        if let Some(e) = seqs::find_first(odoo.xml_ids@, p) {
            let k = choose|k: int| 0 <= k < odoo.xml_ids@.len() && odoo.xml_ids@[k] == e;
            assert(odoo.entry_wf(odoo.xml_ids@[k]));
        }
    }

    /// Whether a datum belongs to a module that the module of `module` depends on.
    fn is_in_scope(odoo: &SyncOdoo, module: SymbolId, datum: &OdooData) -> (res: bool)
        requires
            odoo.wf(),
            odoo.valid(module),
            odoo.file_wf(datum.file_symbol()),
            references::datum_ready(*odoo, module, true, *datum),
        ensures
            res == references::in_scope(*odoo, module, *datum),
    {
        assert(odoo.symbol_wf(odoo.symbols@[module as int]));
        let file = match datum {
            OdooData::RECORD(r) => r.file_symbol,
            OdooData::OTHER(file) => *file,
        };
        if let Some(file) = file {
            assert(odoo.symbol_wf(odoo.symbols@[file as int]));
            if let Some(theirs) = odoo.symbols[file].module {
                return odoo.depends_on(
                    odoo.symbols[module].module.unwrap(),
                    &odoo.symbols[theirs].name,
                );
            }
        }
        false
    }

    /// Appends the classes of the model called `name`, and makes `range` the link, if there is
    /// such a model.
    fn add_model_result(
        session: &SessionInfo,
        name: &str,
        range: &Range<usize>,
        offset: usize,
        from_module: Option<SymbolId>,
        results: &mut (Vec<XmlAstResult>, Option<Range<usize>>),
        on_dep_only: bool,
    )
        ensures
            references::grown(
                scene(*session, from_module, offset),
                on_dep_only,
                seq![Reference::Model { name: name@, range: *range }],
                found(*old(results)),
                found(*final(results)),
            ),
    {
        let ghost before = found(*results);
        assert(before.0 + Seq::<XmlAstResult>::empty() =~= before.0);
        if let Some(model) = session.sync_odoo.get_model(name) {
            let from = if on_dep_only {
                from_module
            } else {
                None
            };
            let symbols = model.get_reachable_symbols(from, false);
            push_symbols(&symbols, &mut results.0);
            results.1 = Some(copy_range(range));
        }
        proof {
            references::lemma_grown_by_one(
                scene(*session, from_module, offset),
                on_dep_only,
                Reference::Model { name: name@, range: *range },
                before,
                found(*results),
            );
        }
    }

    /// Appends the definitions of a field of the model called `model`, and makes `range` the
    /// link, if there is such a model.
    fn add_field_result(
        session: &SessionInfo,
        model: &str,
        name: &str,
        range: &Range<usize>,
        offset: usize,
        from_module: Option<SymbolId>,
        results: &mut (Vec<XmlAstResult>, Option<Range<usize>>),
        on_dep_only: bool,
    )
        requires
            session.sync_odoo.wf(),
        ensures
            references::grown(
                scene(*session, from_module, offset),
                on_dep_only,
                seq![Reference::Field { model: model@, name: name@, range: *range }],
                found(*old(results)),
                found(*final(results)),
            ),
    {
        let ghost before = found(*results);
        let odoo = &session.sync_odoo;
        assert(before.0 + Seq::<XmlAstResult>::empty() =~= before.0);
        if let Some(m) = odoo.get_model(model) {
            let from = if on_dep_only {
                from_module
            } else {
                None
            };
            let symbols = m.get_reachable_symbols(from, true);
            let ghost f = |s: SymbolId| references::as_results(odoo.symbol(s).content_of(name@));
            let mut i: usize = 0;
            proof {
                assert(symbols@.take(0) =~= Seq::<SymbolId>::empty());
                seqs::lemma_flat_map_empty::<SymbolId, XmlAstResult>(f);
                m.lemma_reachable_valid(*odoo, from, true);
            }
            while i < symbols.len()
                invariant
                    i <= symbols.len(),
                    odoo.ids_wf(symbols@),
                    f == (|s: SymbolId|
                        references::as_results(odoo.symbol(s).content_of(name@))),
                    results.0@ == before.0 + symbols@.take(i as int).flat_map(f),
                    results.1 == before.1,
                decreases symbols.len() - i,
            {
                proof {
                    assert(odoo.valid(symbols@[i as int]));
                    seqs::lemma_flat_map_take(symbols@, f, i as int);
                }
                let content = odoo.symbols[symbols[i]].get_content_symbol(name);
                push_symbols(&content, &mut results.0);
                assert(results.0@ =~= before.0 + (symbols@.take(i as int).flat_map(f) + f(
                    symbols@[i as int],
                )));
                i += 1;
            }
            assert(symbols@.take(symbols@.len() as int) =~= symbols@);
            results.1 = Some(copy_range(range));
        }
        proof {
            references::lemma_grown_by_one(
                scene(*session, from_module, offset),
                on_dep_only,
                Reference::Field { model: model@, name: name@, range: *range },
                before,
                found(*results),
            );
        }
    }

    /// If the cursor is on the XML id that an attribute holds, appends what it stands for and
    /// makes the attribute's value the link.
    fn visit_xml_id(
        session: &SessionInfo,
        attr: &XmlAttribute,
        offset: usize,
        from_module: Option<SymbolId>,
        results: &mut (Vec<XmlAstResult>, Option<Range<usize>>),
        on_dep_only: bool,
    )
        requires
            session.sync_odoo.wf(),
            module_valid(*session, from_module),
            references::all_ready(
                scene(*session, from_module, offset),
                on_dep_only,
                references::optional(references::xml_id_at(attr@, offset)),
            ),
        ensures
            references::grown(
                scene(*session, from_module, offset),
                on_dep_only,
                references::optional(references::xml_id_at(attr@, offset)),
                found(*old(results)),
                found(*final(results)),
            ),
    {
        let ghost at = scene(*session, from_module, offset);
        let ghost before = found(*results);
        if is_under_cursor(&attr.range_value, offset) {
            let ghost r = Reference::XmlId { xml_id: attr@.value, range: attr@.range_value };
            proof {
                let refs = references::optional(references::xml_id_at(attr@, offset));
                assert(refs =~= seq![r]);
                assert(references::ready(at, on_dep_only, refs[0]));
            }
            let module: SymbolId = from_module.unwrap();
            Self::add_xml_id_result(session, &attr.value, module, results, on_dep_only);
            results.1 = Some(copy_range(&attr.range_value));
            proof {
                references::lemma_grown_by_one(at, on_dep_only, r, before, found(*results));
            }
        } else {
            proof {
                references::lemma_grown_nothing(at, on_dep_only, before);
            }
        }
    }

    proof fn lemma_attr_step(
        at: Scene,
        on_dep_only: bool,
        attrs: Seq<XmlAttr>,
        f: spec_fn(XmlAttr) -> Option<Reference>,
        i: int,
    )
        requires
            0 <= i < attrs.len(),
            references::all_ready(at, on_dep_only, attrs.filter_map(f)),
        ensures
            attrs.take(i + 1).filter_map(f) == attrs.take(i).filter_map(f) + references::optional(
                f(attrs[i]),
            ),
            references::all_ready(at, on_dep_only, references::optional(f(attrs[i]))),
    {
        seqs::lemma_filter_map_take(attrs, f, i);
        let prior = attrs.take(i).filter_map(f);
        match f(attrs[i]) {
            Some(r) => {
                assert(prior.push(r) =~= prior + seq![r]);
                seqs::lemma_filter_map_keeps(attrs, f, i);
                let all = attrs.filter_map(f);
                let k = choose|k: int| 0 <= k < all.len() && all[k] == r;
                assert(references::ready(at, on_dep_only, all[k]));
            },
            None => {
                assert(prior + Seq::<Reference>::empty() =~= prior);
            },
        }
    }

    /// The model that the view of a record is for: the last that the record declares, or else
    /// that of the view that it inherits from.
    fn find_arch_model(
        session: &SessionInfo,
        node: &XmlNode,
        offset: usize,
        from_module: Option<SymbolId>,
    ) -> (res: Option<String>)
        ensures
            text_view(res) == references::arch_model(
                scene(*session, from_module, offset),
                node@.children,
            ),
    {
        let ghost trees = node@.children;
        let ghost f = |c: XmlTree| references::declared_model(c);
        let ghost p = |c: XmlTree| references::is_field_named(c, "inherit_id"@);
        let mut declared: Option<String> = None;
        let mut i: usize = 0;
        assert(trees.take(0) =~= Seq::<XmlTree>::empty());
        while i < node.children.len()
            invariant
                i <= node.children.len(),
                trees == node@.children,
                trees.len() == node.children@.len(),
                f == (|c: XmlTree| references::declared_model(c)),
                text_view(declared) == seqs::last_of(trees.take(i as int).filter_map(f)),
            decreases node.children.len() - i,
        {
            let child = &node.children[i];
            proof {
                assert(trees[i as int] == child@);
                seqs::lemma_filter_map_take(trees, f, i as int);
            }
            if Self::is_field_named(child, "model") {
                if let Some(t) = child.first_text() {
                    let trimmed = t.as_str().trim();
                    if !trimmed.is_empty() {
                        declared = Some(trimmed.to_owned());
                    }
                }
            }
            i += 1;
        }
        assert(trees.take(trees.len() as int) =~= trees);
        if declared.is_some() {
            return declared;
        }
        let mut k: usize = 0;
        while k < node.children.len()
            invariant
                k <= node.children.len(),
                trees == node@.children,
                trees.len() == node.children@.len(),
                trees.filter_map(|c: XmlTree| references::declared_model(c)).len() == 0,
                p == (|c: XmlTree| references::is_field_named(c, "inherit_id"@)),
                forall|j: int| 0 <= j < k ==> !p(#[trigger] trees[j]),
            decreases node.children.len() - k,
        {
            let child = &node.children[k];
            assert(trees[k as int] == child@);
            if Self::is_field_named(child, "inherit_id") {
                proof {
                    seqs::lemma_find_first_at(trees, p, k as int);
                }
                return match (child.attribute("ref"), from_module) {
                    (Some(inherit_ref), Some(module)) => Self::resolve_inherited_view_model(
                        session,
                        module,
                        inherit_ref,
                    ),
                    _ => None,
                };
            }
            k += 1;
        }
        proof {
            seqs::lemma_find_first_none(trees, p);
        }
        None
    }

    /// Whether a node is a `field` with the given `name` attribute.
    fn is_field_named(node: &XmlNode, name: &str) -> (res: bool)
        ensures
            res == references::is_field_named(node@, name@),
    {
        if let XmlNodeKind::Element(tag) = &node.kind {
            if text::same_text(tag, "field") {
                if let Some(value) = node.attribute("name") {
                    return text::same_text(value, name);
                }
            }
        }
        false
    }

    /// Visits a node with everything below it.
    pub fn visit_node(
        session: &SessionInfo,
        node: &XmlNode,
        offset: usize,
        from_module: Option<SymbolId>,
        ctxt: &mut XmlContext,
        results: &mut (Vec<XmlAstResult>, Option<Range<usize>>),
        on_dep_only: bool,
    )
        requires
            session.sync_odoo.wf(),
            module_valid(*session, from_module),
            references::all_ready(
                scene(*session, from_module, offset),
                on_dep_only,
                references::trace(
                    scene(*session, from_module, offset),
                    node@,
                    old(ctxt)@,
                ).references,
            ),
        ensures
            final(ctxt)@ == references::trace(
                scene(*session, from_module, offset),
                node@,
                old(ctxt)@,
            ).context,
            references::grown(
                scene(*session, from_module, offset),
                on_dep_only,
                references::trace(
                    scene(*session, from_module, offset),
                    node@,
                    old(ctxt)@,
                ).references,
                found(*old(results)),
                found(*final(results)),
            ),
            old(results).0@.is_prefix_of(final(results).0@),
            final(results).1 == old(results).1 || (final(results).1 matches Some(link)
                && references::under_cursor(link, offset)),
            final(results).0@ != old(results).0@ ==> (final(results).1 matches Some(link)
                && references::under_cursor(link, offset)),
            search_laws::adds_none(old(ctxt)@, final(ctxt)@),
        decreases node@, 3int,
    {
        let ghost at = scene(*session, from_module, offset);
        let ghost before = found(*results);
        let ghost start = ctxt@;
        match &node.kind {
            XmlNodeKind::Element(tag) => {
                if text::same_text(tag, "record") {
                    Self::visit_record(session, node, offset, from_module, ctxt, results, on_dep_only);
                } else if text::same_text(tag, "field") {
                    Self::visit_field(session, node, offset, from_module, ctxt, results, on_dep_only);
                } else if text::same_text(tag, "menuitem") {
                    Self::visit_menu_item(session, node, offset, from_module, ctxt, results, on_dep_only);
                } else if text::same_text(tag, "template") {
                    Self::visit_template(session, node, offset, from_module, ctxt, results, on_dep_only);
                } else {
                    Self::visit_children(session, node, offset, from_module, ctxt, results, on_dep_only);
                }
            },
            XmlNodeKind::Text(_) => {
                Self::visit_text(session, node, offset, from_module, ctxt, results, on_dep_only);
            },
            XmlNodeKind::Other => {
                proof {
                    references::lemma_grown_nothing(at, on_dep_only, before);
                }
            },
        }
        proof {
            search_laws::law_visit_only_adds(
                at,
                on_dep_only,
                node@,
                start,
                before,
                found(*results),
            );
            search_laws::law_visit_leaves_no_surroundings(at, node@, start);
        }
    }

    /// Visits the children of a node, one after the other.
    fn visit_children(
        session: &SessionInfo,
        node: &XmlNode,
        offset: usize,
        from_module: Option<SymbolId>,
        ctxt: &mut XmlContext,
        results: &mut (Vec<XmlAstResult>, Option<Range<usize>>),
        on_dep_only: bool,
    )
        requires
            session.sync_odoo.wf(),
            module_valid(*session, from_module),
            references::all_ready(
                scene(*session, from_module, offset),
                on_dep_only,
                references::trace_all(
                    scene(*session, from_module, offset),
                    node@.children,
                    old(ctxt)@,
                ).references,
            ),
        ensures
            final(ctxt)@ == references::trace_all(
                scene(*session, from_module, offset),
                node@.children,
                old(ctxt)@,
            ).context,
            references::grown(
                scene(*session, from_module, offset),
                on_dep_only,
                references::trace_all(
                    scene(*session, from_module, offset),
                    node@.children,
                    old(ctxt)@,
                ).references,
                found(*old(results)),
                found(*final(results)),
            ),
        decreases node@, 0int,
    {
        let ghost at = scene(*session, from_module, offset);
        let ghost before = found(*results);
        let ghost start = ctxt@;
        let ghost trees = node@.children;
        let mut i: usize = 0;
        proof {
            assert(trees.take(0) =~= Seq::<XmlTree>::empty());
            references::lemma_grown_nothing(at, on_dep_only, before);
        }
        while i < node.children.len()
            invariant
                i <= node.children.len(),
                session.sync_odoo.wf(),
                module_valid(*session, from_module),
                at == scene(*session, from_module, offset),
                trees == node@.children,
                trees.len() == node.children@.len(),
                references::all_ready(
                    at,
                    on_dep_only,
                    references::trace_all(at, trees, start).references,
                ),
                ctxt@ == references::trace_all(at, trees.take(i as int), start).context,
                references::grown(
                    at,
                    on_dep_only,
                    references::trace_all(at, trees.take(i as int), start).references,
                    before,
                    found(*results),
                ),
            decreases node.children.len() - i,
        {
            let ghost prior = references::trace_all(at, trees.take(i as int), start);
            let ghost here = references::trace(at, trees[i as int], prior.context);
            let ghost between = found(*results);
            proof {
                assert(trees[i as int] == node.children@[i as int]@);
                references::lemma_trace_all_step(at, trees, start, i as int);
                references::lemma_ready_prefix(at, on_dep_only, trees, start, i + 1);
                references::lemma_ready_parts(at, on_dep_only, prior.references, here.references);
            }
            Self::visit_node(
                session,
                &node.children[i],
                offset,
                from_module,
                ctxt,
                results,
                on_dep_only,
            );
            proof {
                references::lemma_grown_twice(
                    at,
                    on_dep_only,
                    prior.references,
                    here.references,
                    before,
                    between,
                    found(*results),
                );
            }
            i += 1;
        }
        assert(trees.take(trees.len() as int) =~= trees);
    }

    /// Visits a node as a `record`.
    pub fn visit_record(
        session: &SessionInfo,
        node: &XmlNode,
        offset: usize,
        from_module: Option<SymbolId>,
        ctxt: &mut XmlContext,
        results: &mut (Vec<XmlAstResult>, Option<Range<usize>>),
        on_dep_only: bool,
    )
        requires
            session.sync_odoo.wf(),
            module_valid(*session, from_module),
            references::all_ready(
                scene(*session, from_module, offset),
                on_dep_only,
                references::record_trace(
                    scene(*session, from_module, offset),
                    node@,
                    old(ctxt)@,
                ).references,
            ),
        ensures
            final(ctxt)@ == references::record_trace(
                scene(*session, from_module, offset),
                node@,
                old(ctxt)@,
            ).context,
            references::grown(
                scene(*session, from_module, offset),
                on_dep_only,
                references::record_trace(
                    scene(*session, from_module, offset),
                    node@,
                    old(ctxt)@,
                ).references,
                found(*old(results)),
                found(*final(results)),
            ),
            final(ctxt).record_model is None,
            final(ctxt).view_arch_model is None,
        decreases node@, 2int,
    {
        let ghost at = scene(*session, from_module, offset);
        let ghost before = found(*results);
        let ghost start = ctxt@;
        let ghost attrs = node@.attributes;
        let ghost f = |a: XmlAttr| references::record_reference(a, offset);
        let ghost inner = references::record_body_context(at, node@, start);
        let ghost body = references::trace_all(at, node@.children, inner);
        let mut i: usize = 0;
        proof {
            references::lemma_ready_parts(
                at,
                on_dep_only,
                attrs.filter_map(f),
                body.references,
            );
            assert(attrs.take(0) =~= Seq::<XmlAttr>::empty());
            references::lemma_grown_nothing(at, on_dep_only, before);
        }
        while i < node.attributes.len()
            invariant
                i <= node.attributes.len(),
                session.sync_odoo.wf(),
                module_valid(*session, from_module),
                at == scene(*session, from_module, offset),
                attrs == node@.attributes,
                attrs.len() == node.attributes@.len(),
                f == (|a: XmlAttr| references::record_reference(a, offset)),
                references::all_ready(at, on_dep_only, attrs.filter_map(f)),
                ctxt@ == references::record_context(attrs.take(i as int), start),
                references::grown(
                    at,
                    on_dep_only,
                    attrs.take(i as int).filter_map(f),
                    before,
                    found(*results),
                ),
            decreases node.attributes.len() - i,
        {
            let attr = &node.attributes[i];
            let ghost prior = attrs.take(i as int).filter_map(f);
            let ghost here = references::optional(f(attr@));
            let ghost between = found(*results);
            proof {
                assert(attrs[i as int] == attr@);
                Self::lemma_attr_step(at, on_dep_only, attrs, f, i as int);
                references::lemma_record_context_step(attrs, start, i as int);
                references::lemma_grown_nothing(at, on_dep_only, between);
            }
            if text::same_text(&attr.name, "model") {
                ctxt.record_model = Some(attr.value.clone());
                if is_under_cursor(&attr.range_value, offset) {
                    Self::add_model_result(
                        session,
                        &attr.value,
                        &attr.range_value,
                        offset,
                        from_module,
                        results,
                        on_dep_only,
                    );
                }
            } else if text::same_text(&attr.name, "id") {
                Self::visit_xml_id(session, attr, offset, from_module, results, on_dep_only);
            }
            proof {
                references::lemma_grown_twice(
                    at,
                    on_dep_only,
                    prior,
                    here,
                    before,
                    between,
                    found(*results),
                );
            }
            i += 1;
        }
        assert(attrs.take(attrs.len() as int) =~= attrs);
        ctxt.view_arch_model = None;
        if let Some(model) = node.attribute("model") {
            if text::same_text(model, "ir.ui.view") {
                // The model that the view is for, so that the fields of its architecture are
                // those of that model.
                ctxt.view_arch_model = Self::find_arch_model(session, node, offset, from_module);
            }
        }
        assert(ctxt@ == inner);
        let ghost between = found(*results);
        Self::visit_children(session, node, offset, from_module, ctxt, results, on_dep_only);
        proof {
            references::lemma_grown_twice(
                at,
                on_dep_only,
                attrs.filter_map(f),
                body.references,
                before,
                between,
                found(*results),
            );
        }
        ctxt.record_model = None;
        ctxt.view_arch_model = None;
    }

    /// Visits a node as a `field`.
    pub fn visit_field(
        session: &SessionInfo,
        node: &XmlNode,
        offset: usize,
        from_module: Option<SymbolId>,
        ctxt: &mut XmlContext,
        results: &mut (Vec<XmlAstResult>, Option<Range<usize>>),
        on_dep_only: bool,
    )
        requires
            session.sync_odoo.wf(),
            module_valid(*session, from_module),
            references::all_ready(
                scene(*session, from_module, offset),
                on_dep_only,
                references::field_node_trace(
                    scene(*session, from_module, offset),
                    node@,
                    old(ctxt)@,
                ).references,
            ),
        ensures
            final(ctxt)@ == references::field_node_trace(
                scene(*session, from_module, offset),
                node@,
                old(ctxt)@,
            ).context,
            references::grown(
                scene(*session, from_module, offset),
                on_dep_only,
                references::field_node_trace(
                    scene(*session, from_module, offset),
                    node@,
                    old(ctxt)@,
                ).references,
                found(*old(results)),
                found(*final(results)),
            ),
            final(ctxt).field_name is None,
        decreases node@, 2int,
    {
        let ghost at = scene(*session, from_module, offset);
        let ghost before = found(*results);
        let ghost start = ctxt@;
        let ghost attrs = node@.attributes;
        let ghost head = references::field_trace(attrs, offset, start);
        let ghost body = references::trace_all(at, node@.children, head.context);
        let after_arch = Self::model_after_arch(ctxt);
        let mut is_arch_field = false;
        let mut i: usize = 0;
        proof {
            references::lemma_tags_differ();
            references::lemma_ready_parts(at, on_dep_only, head.references, body.references);
            assert(attrs.take(0) =~= Seq::<XmlAttr>::empty());
            references::lemma_grown_nothing(at, on_dep_only, before);
        }
        while i < node.attributes.len()
            invariant
                i <= node.attributes.len(),
                session.sync_odoo.wf(),
                module_valid(*session, from_module),
                at == scene(*session, from_module, offset),
                attrs == node@.attributes,
                attrs.len() == node.attributes@.len(),
                references::all_ready(
                    at,
                    on_dep_only,
                    references::field_trace(attrs, offset, start).references,
                ),
                ctxt@ == references::field_trace(attrs.take(i as int), offset, start).context,
                is_arch_field == references::field_trace(attrs.take(i as int), offset, start).arch,
                references::grown(
                    at,
                    on_dep_only,
                    references::field_trace(attrs.take(i as int), offset, start).references,
                    before,
                    found(*results),
                ),
            decreases node.attributes.len() - i,
        {
            let attr = &node.attributes[i];
            let ghost prior = references::field_trace(attrs.take(i as int), offset, start);
            let ghost after = references::field_attr_context(attr@, prior.context);
            let ghost here = references::optional(
                references::field_reference(attr@, offset, after),
            );
            let ghost between = found(*results);
            proof {
                assert(attrs[i as int] == attr@);
                references::lemma_field_trace_step(attrs, offset, start, i as int);
                references::lemma_ready_field_prefix(at, on_dep_only, attrs, start, i + 1);
                references::lemma_ready_parts(at, on_dep_only, prior.references, here);
                references::lemma_grown_nothing(at, on_dep_only, between);
            }
            if text::same_text(&attr.name, "name") {
                // In the architecture of a view, fields are those of the view's model.
                if text::same_text(&attr.value, "arch") {
                    if let Some(view_model) = &ctxt.view_arch_model {
                        ctxt.record_model = Some(view_model.clone());
                        is_arch_field = true;
                    }
                }
                ctxt.field_name = Some(attr.value.clone());
                assert(ctxt@ == after);
                if is_under_cursor(&attr.range_value, offset) {
                    if let Some(model) = &ctxt.record_model {
                        if !model.as_str().is_empty() {
                            Self::add_field_result(
                                session,
                                model,
                                &attr.value,
                                &attr.range_value,
                                offset,
                                from_module,
                                results,
                                on_dep_only,
                            );
                        }
                    }
                }
            } else if text::same_text(&attr.name, "ref") {
                Self::visit_xml_id(session, attr, offset, from_module, results, on_dep_only);
            }
            proof {
                references::lemma_grown_twice(
                    at,
                    on_dep_only,
                    prior.references,
                    here,
                    before,
                    between,
                    found(*results),
                );
            }
            i += 1;
        }
        assert(attrs.take(attrs.len() as int) =~= attrs);
        let ghost between = found(*results);
        Self::visit_children(session, node, offset, from_module, ctxt, results, on_dep_only);
        proof {
            references::lemma_grown_twice(
                at,
                on_dep_only,
                head.references,
                body.references,
                before,
                between,
                found(*results),
            );
        }
        if is_arch_field {
            ctxt.record_model = Some(after_arch);
        }
        ctxt.field_name = None;
    }

    /// The model around what follows a field that holds the architecture of a view.
    fn model_after_arch(ctxt: &XmlContext) -> (res: String)
        ensures
            references::model_after_arch(ctxt@) == Some(res@),
    {
        if let Some(model) = &ctxt.record_model {
            if let Some(view_model) = &ctxt.view_arch_model {
                if text::same_text(model, view_model) {
                    return model.clone();
                }
            }
        }
        "ir.ui.view".to_owned()
    }

    /// Visits a text.
    pub fn visit_text(
        session: &SessionInfo,
        node: &XmlNode,
        offset: usize,
        from_module: Option<SymbolId>,
        ctxt: &mut XmlContext,
        results: &mut (Vec<XmlAstResult>, Option<Range<usize>>),
        on_dep_only: bool,
    )
        requires
            session.sync_odoo.wf(),
            module_valid(*session, from_module),
            node@.kind is Text,
            references::all_ready(
                scene(*session, from_module, offset),
                on_dep_only,
                references::trace(
                    scene(*session, from_module, offset),
                    node@,
                    old(ctxt)@,
                ).references,
            ),
        ensures
            final(ctxt)@ == references::trace(
                scene(*session, from_module, offset),
                node@,
                old(ctxt)@,
            ).context,
            references::grown(
                scene(*session, from_module, offset),
                on_dep_only,
                references::trace(
                    scene(*session, from_module, offset),
                    node@,
                    old(ctxt)@,
                ).references,
                found(*old(results)),
                found(*final(results)),
            ),
        decreases node@, 2int,
    {
        let ghost at = scene(*session, from_module, offset);
        let ghost before = found(*results);
        proof {
            references::lemma_grown_nothing(at, on_dep_only, before);
        }
        if let XmlNodeKind::Text(name) = &node.kind {
            if is_under_cursor(&node.range, offset) {
                if let (Some(model), Some(field)) = (&ctxt.record_model, &ctxt.field_name) {
                    if model.as_str().is_empty() || field.as_str().is_empty() {
                        proof {
                            reveal_strlit("model");
                            reveal_strlit("res_model");
                        }
                        return;
                    }
                    // What the field holds is taken to be the name of a model, whatever the
                    // record's own model is.
                    if text::same_text(field, "model") || text::same_text(field, "res_model") {
                        Self::add_model_result(
                            session,
                            name,
                            &node.range,
                            offset,
                            from_module,
                            results,
                            on_dep_only,
                        );
                    }
                }
            }
        }
    }

    /// Visits a node as a `menuitem`.
    pub fn visit_menu_item(
        session: &SessionInfo,
        node: &XmlNode,
        offset: usize,
        from_module: Option<SymbolId>,
        ctxt: &mut XmlContext,
        results: &mut (Vec<XmlAstResult>, Option<Range<usize>>),
        on_dep_only: bool,
    )
        requires
            session.sync_odoo.wf(),
            module_valid(*session, from_module),
            references::all_ready(
                scene(*session, from_module, offset),
                on_dep_only,
                references::menu_item_trace(
                    scene(*session, from_module, offset),
                    node@,
                    old(ctxt)@,
                ).references,
            ),
        ensures
            final(ctxt)@ == references::menu_item_trace(
                scene(*session, from_module, offset),
                node@,
                old(ctxt)@,
            ).context,
            references::grown(
                scene(*session, from_module, offset),
                on_dep_only,
                references::menu_item_trace(
                    scene(*session, from_module, offset),
                    node@,
                    old(ctxt)@,
                ).references,
                found(*old(results)),
                found(*final(results)),
            ),
        decreases node@, 2int,
    {
        let ghost at = scene(*session, from_module, offset);
        let ghost before = found(*results);
        let ghost attrs = node@.attributes;
        let ghost f = |a: XmlAttr| references::menu_item_reference(a, offset);
        let ghost body = references::trace_all(at, node@.children, ctxt@);
        let mut i: usize = 0;
        proof {
            references::lemma_tags_differ();
            references::lemma_ready_parts(
                at,
                on_dep_only,
                attrs.filter_map(f),
                body.references,
            );
            assert(attrs.take(0) =~= Seq::<XmlAttr>::empty());
            references::lemma_grown_nothing(at, on_dep_only, before);
        }
        while i < node.attributes.len()
            invariant
                i <= node.attributes.len(),
                session.sync_odoo.wf(),
                module_valid(*session, from_module),
                at == scene(*session, from_module, offset),
                attrs == node@.attributes,
                attrs.len() == node.attributes@.len(),
                f == (|a: XmlAttr| references::menu_item_reference(a, offset)),
                references::all_ready(at, on_dep_only, attrs.filter_map(f)),
                references::grown(
                    at,
                    on_dep_only,
                    attrs.take(i as int).filter_map(f),
                    before,
                    found(*results),
                ),
            decreases node.attributes.len() - i,
        {
            let attr = &node.attributes[i];
            let ghost prior = attrs.take(i as int).filter_map(f);
            let ghost here = references::optional(f(attr@));
            let ghost between = found(*results);
            proof {
                assert(attrs[i as int] == attr@);
                Self::lemma_attr_step(at, on_dep_only, attrs, f, i as int);
                references::lemma_grown_nothing(at, on_dep_only, between);
            }
            if text::same_text(&attr.name, "action") || text::same_text(&attr.name, "groups") {
                Self::visit_xml_id(session, attr, offset, from_module, results, on_dep_only);
            }
            proof {
                references::lemma_grown_twice(
                    at,
                    on_dep_only,
                    prior,
                    here,
                    before,
                    between,
                    found(*results),
                );
            }
            i += 1;
        }
        assert(attrs.take(attrs.len() as int) =~= attrs);
        let ghost between = found(*results);
        Self::visit_children(session, node, offset, from_module, ctxt, results, on_dep_only);
        proof {
            references::lemma_grown_twice(
                at,
                on_dep_only,
                attrs.filter_map(f),
                body.references,
                before,
                between,
                found(*results),
            );
        }
    }

    /// Visits a node as a `template`.
    pub fn visit_template(
        session: &SessionInfo,
        node: &XmlNode,
        offset: usize,
        from_module: Option<SymbolId>,
        ctxt: &mut XmlContext,
        results: &mut (Vec<XmlAstResult>, Option<Range<usize>>),
        on_dep_only: bool,
    )
        requires
            session.sync_odoo.wf(),
            module_valid(*session, from_module),
            references::all_ready(
                scene(*session, from_module, offset),
                on_dep_only,
                references::template_trace(
                    scene(*session, from_module, offset),
                    node@,
                    old(ctxt)@,
                ).references,
            ),
        ensures
            final(ctxt)@ == references::template_trace(
                scene(*session, from_module, offset),
                node@,
                old(ctxt)@,
            ).context,
            references::grown(
                scene(*session, from_module, offset),
                on_dep_only,
                references::template_trace(
                    scene(*session, from_module, offset),
                    node@,
                    old(ctxt)@,
                ).references,
                found(*old(results)),
                found(*final(results)),
            ),
        decreases node@, 2int,
    {
        let ghost at = scene(*session, from_module, offset);
        let ghost before = found(*results);
        let ghost attrs = node@.attributes;
        let ghost f = |a: XmlAttr| references::template_reference(a, offset);
        let ghost body = references::trace_all(at, node@.children, ctxt@);
        let mut i: usize = 0;
        proof {
            references::lemma_tags_differ();
            references::lemma_ready_parts(
                at,
                on_dep_only,
                attrs.filter_map(f),
                body.references,
            );
            assert(attrs.take(0) =~= Seq::<XmlAttr>::empty());
            references::lemma_grown_nothing(at, on_dep_only, before);
        }
        while i < node.attributes.len()
            invariant
                i <= node.attributes.len(),
                session.sync_odoo.wf(),
                module_valid(*session, from_module),
                at == scene(*session, from_module, offset),
                attrs == node@.attributes,
                attrs.len() == node.attributes@.len(),
                f == (|a: XmlAttr| references::template_reference(a, offset)),
                references::all_ready(at, on_dep_only, attrs.filter_map(f)),
                references::grown(
                    at,
                    on_dep_only,
                    attrs.take(i as int).filter_map(f),
                    before,
                    found(*results),
                ),
            decreases node.attributes.len() - i,
        {
            let attr = &node.attributes[i];
            let ghost prior = attrs.take(i as int).filter_map(f);
            let ghost here = references::optional(f(attr@));
            let ghost between = found(*results);
            proof {
                assert(attrs[i as int] == attr@);
                Self::lemma_attr_step(at, on_dep_only, attrs, f, i as int);
                references::lemma_grown_nothing(at, on_dep_only, between);
            }
            if text::same_text(&attr.name, "inherit_id") || text::same_text(&attr.name, "groups") {
                Self::visit_xml_id(session, attr, offset, from_module, results, on_dep_only);
            }
            proof {
                references::lemma_grown_twice(
                    at,
                    on_dep_only,
                    prior,
                    here,
                    before,
                    between,
                    found(*results),
                );
            }
            i += 1;
        }
        assert(attrs.take(attrs.len() as int) =~= attrs);
        let ghost between = found(*results);
        Self::visit_children(session, node, offset, from_module, ctxt, results, on_dep_only);
        proof {
            references::lemma_grown_twice(
                at,
                on_dep_only,
                attrs.filter_map(f),
                body.references,
                before,
                between,
                found(*results),
            );
        }
    }

    /// Whether what an XML id stands for can be looked at.
    fn is_data_ready(
        session: &SessionInfo,
        xml_id: &str,
        from_module: Option<SymbolId>,
        on_dep_only: bool,
    ) -> (res: bool)
        requires
            session.sync_odoo.wf(),
            module_valid(*session, from_module),
        ensures
            res == (from_module matches Some(module) && references::data_ready(
                session.sync_odoo,
                module,
                xml_id@,
                on_dep_only,
            )),
    {
        let odoo = &session.sync_odoo;
        let module: SymbolId = match from_module {
            Some(module) => module,
            None => return false,
        };
        let data = match odoo.get_xml_ids(module, xml_id) {
            Some(data) => data,
            None => return true,
        };
        let mut i: usize = 0;
        while i < data.len()
            invariant
                i <= data.len(),
                odoo == session.sync_odoo,
                odoo.wf(),
                odoo.valid(module),
                from_module == Some(module),
                data@ == odoo.xml_data(module, xml_id@),
                forall|j: int|
                    0 <= j < i ==> references::datum_ready(
                        *odoo,
                        module,
                        on_dep_only,
                        #[trigger] data@[j],
                    ),
            decreases data.len() - i,
        {
            proof {
                Self::lemma_data_wf(*odoo, module, xml_id@, i as int);
            }
            let (is_record, file) = match &data[i] {
                OdooData::RECORD(r) => (true, r.file_symbol),
                OdooData::OTHER(file) => (false, *file),
            };
            let ready = if on_dep_only {
                match file {
                    Some(file) => odoo.symbols[file].module.is_none()
                        || odoo.symbols[module].module.is_some(),
                    None => true,
                }
            } else {
                !is_record || file.is_some()
            };
            if !ready {
                assert(!references::datum_ready(*odoo, module, on_dep_only, data@[i as int]));
                return false;
            }
            i += 1;
        }
        true
    }

    /// Whether an attribute of the element `tag` holds an XML id.
    fn is_xml_id(tag: &str, name: &str) -> (res: bool)
        ensures
            res == references::holds_xml_id(tag@, name@),
    {
        if text::same_text(tag, "record") {
            text::same_text(name, "id")
        } else if text::same_text(tag, "field") {
            text::same_text(name, "ref")
        } else if text::same_text(tag, "menuitem") {
            text::same_text(name, "action") || text::same_text(name, "groups")
        } else if text::same_text(tag, "template") {
            text::same_text(name, "inherit_id") || text::same_text(name, "groups")
        } else {
            false
        }
    }

    /// Whether every reference under the cursor in what a node holds can be followed.
    fn are_children_ready(
        session: &SessionInfo,
        node: &XmlNode,
        offset: usize,
        from_module: Option<SymbolId>,
        on_dep_only: bool,
    ) -> (res: bool)
        requires
            session.sync_odoo.wf(),
            module_valid(*session, from_module),
        ensures
            res == references::nodes_ready(
                scene(*session, from_module, offset),
                on_dep_only,
                node@.children,
            ),
        decreases node@, 0int,
    {
        let ghost at = scene(*session, from_module, offset);
        let ghost trees = node@.children;
        let mut i: usize = 0;
        while i < node.children.len()
            invariant
                i <= node.children.len(),
                session.sync_odoo.wf(),
                module_valid(*session, from_module),
                at == scene(*session, from_module, offset),
                trees == node@.children,
                trees.len() == node.children@.len(),
                forall|j: int|
                    0 <= j < i ==> references::node_ready(at, on_dep_only, #[trigger] trees[j]),
            decreases node.children.len() - i,
        {
            assert(trees[i as int] == node.children@[i as int]@);
            if !Self::is_node_ready(session, &node.children[i], offset, from_module, on_dep_only) {
                return false;
            }
            i += 1;
        }
        true
    }

    /// Whether every reference under the cursor in a node can be followed.
    fn is_node_ready(
        session: &SessionInfo,
        node: &XmlNode,
        offset: usize,
        from_module: Option<SymbolId>,
        on_dep_only: bool,
    ) -> (res: bool)
        requires
            session.sync_odoo.wf(),
            module_valid(*session, from_module),
        ensures
            res == references::node_ready(
                scene(*session, from_module, offset),
                on_dep_only,
                node@,
            ),
        decreases node@, 1int,
    {
        let ghost at = scene(*session, from_module, offset);
        let ghost attrs = node@.attributes;
        let tag = match &node.kind {
            XmlNodeKind::Element(tag) => tag,
            _ => return true,
        };
        let mut i: usize = 0;
        while i < node.attributes.len()
            invariant
                i <= node.attributes.len(),
                session.sync_odoo.wf(),
                module_valid(*session, from_module),
                at == scene(*session, from_module, offset),
                attrs == node@.attributes,
                attrs.len() == node.attributes@.len(),
                node@.is_element(tag@),
                forall|j: int|
                    0 <= j < i ==> references::attr_ready(
                        at,
                        on_dep_only,
                        tag@,
                        #[trigger] attrs[j],
                    ),
            decreases node.attributes.len() - i,
        {
            let attr = &node.attributes[i];
            assert(attrs[i as int] == attr@);
            if Self::is_xml_id(tag, &attr.name) && is_under_cursor(&attr.range_value, offset) {
                if !Self::is_data_ready(session, &attr.value, from_module, on_dep_only) {
                    assert(!references::attr_ready(at, on_dep_only, tag@, attrs[i as int]));
                    return false;
                }
            }
            i += 1;
        }
        Self::are_children_ready(session, node, offset, from_module, on_dep_only)
    }

    /// What the cursor at `offset` points at in the file `file_symbol`, and the part of the file
    /// that is the link to it; with `on_dep_only` as far as the file's module depends on it.
    /// `root` is the file's document or its outermost element.
    pub fn get_symbols(
        session: &SessionInfo,
        file_symbol: SymbolId,
        root: &XmlNode,
        offset: usize,
        on_dep_only: bool,
    ) -> (res: (Vec<XmlAstResult>, Option<Range<usize>>))
        requires
            session.sync_odoo.wf(),
            session.sync_odoo.valid(file_symbol),
            references::all_ready(
                file_scene(*session, file_symbol, offset),
                on_dep_only,
                references::references(file_scene(*session, file_symbol, offset), root@),
            ),
        ensures
            res.0@ == references::all_results(
                file_scene(*session, file_symbol, offset),
                on_dep_only,
                references::references(file_scene(*session, file_symbol, offset), root@),
            ),
            res.1 == seqs::last_of(
                references::all_links(
                    session.sync_odoo,
                    references::references(file_scene(*session, file_symbol, offset), root@),
                ),
            ),
            res.0@.len() > 0 ==> res.1 is Some,
            res.1 matches Some(link) ==> references::under_cursor(link, offset),
    {
        let mut results: (Vec<XmlAstResult>, Option<Range<usize>>) = (Vec::new(), None);
        let from_module = session.sync_odoo.symbols[file_symbol].module;
        let mut context_xml = XmlContext {
            record_model: None,
            view_arch_model: None,
            field_name: None,
        };
        assert(session.sync_odoo.symbol_wf(session.sync_odoo.symbols@[file_symbol as int]));
        Self::visit_children(
            session,
            root,
            offset,
            from_module,
            &mut context_xml,
            &mut results,
            on_dep_only,
        );
        assert(results.0@ =~= references::all_results(
            file_scene(*session, file_symbol, offset),
            on_dep_only,
            references::references(file_scene(*session, file_symbol, offset), root@),
        ));
        proof {
            let at = file_scene(*session, file_symbol, offset);
            search_laws::law_results_come_with_link(
                at,
                on_dep_only,
                references::references(at, root@),
            );
            search_laws::law_search_under_cursor(at, root@);
        }
        results
    }

    /// [`XmlAstUtils::get_symbols`] in a document that roxmltree has parsed. `None` if one of the
    /// references under the cursor cannot be followed.
    pub fn get_symbols_in_document(
        session: &SessionInfo,
        file_symbol: SymbolId,
        root: roxmltree::Node<'_, '_>,
        offset: usize,
        on_dep_only: bool,
    ) -> (res: Option<(Vec<XmlAstResult>, Option<Range<usize>>)>)
        requires
            session.sync_odoo.wf(),
            session.sync_odoo.valid(file_symbol),
        ensures
            res is Some <==> references::all_ready(
                file_scene(*session, file_symbol, offset),
                on_dep_only,
                references::references(
                    file_scene(*session, file_symbol, offset),
                    crate::xml_node::parsed_tree(root),
                ),
            ),
            res matches Some(r) ==> r.0@ == references::all_results(
                file_scene(*session, file_symbol, offset),
                on_dep_only,
                references::references(
                    file_scene(*session, file_symbol, offset),
                    crate::xml_node::parsed_tree(root),
                ),
            ),
            res matches Some(r) ==> r.1 == seqs::last_of(
                references::all_links(
                    session.sync_odoo,
                    references::references(
                        file_scene(*session, file_symbol, offset),
                        crate::xml_node::parsed_tree(root),
                    ),
                ),
            ),
    {
        let tree = XmlNode::from_parsed(&root);
        if Self::can_follow(session, file_symbol, &tree, offset, on_dep_only) {
            Some(Self::get_symbols(session, file_symbol, &tree, offset, on_dep_only))
        } else {
            None
        }
    }

    /// Whether every reference under the cursor can be followed: an XML id only in a file of a
    /// module, and only to what is loaded.
    pub fn can_follow(
        session: &SessionInfo,
        file_symbol: SymbolId,
        root: &XmlNode,
        offset: usize,
        on_dep_only: bool,
    ) -> (res: bool)
        requires
            session.sync_odoo.wf(),
            session.sync_odoo.valid(file_symbol),
        ensures
            res == references::all_ready(
                file_scene(*session, file_symbol, offset),
                on_dep_only,
                references::references(file_scene(*session, file_symbol, offset), root@),
            ),
    {
        let from_module = session.sync_odoo.symbols[file_symbol].module;
        proof {
            assert(session.sync_odoo.symbol_wf(session.sync_odoo.symbols@[file_symbol as int]));
            references::lemma_nodes_ready(
                file_scene(*session, file_symbol, offset),
                on_dep_only,
                root@.children,
                Context::top(),
            );
        }
        Self::are_children_ready(session, root, offset, from_module, on_dep_only)
    }
}

/// Where the file `file_symbol` of `session` is read: in its module.
pub open spec fn file_scene(session: SessionInfo, file_symbol: SymbolId, offset: usize) -> Scene {
    scene(session, session.sync_odoo.symbol(file_symbol).module, offset)
}

/// A file is read in its own module, and with the cursor where it is.
pub proof fn law_file_is_read_in_its_module(
    session: SessionInfo,
    file_symbol: SymbolId,
    offset: usize,
)
    ensures
        file_scene(session, file_symbol, offset).odoo == session.sync_odoo,
        file_scene(session, file_symbol, offset).module == session.sync_odoo.symbols@[
            file_symbol as int
        ].module,
        file_scene(session, file_symbol, offset).offset == offset,
        forall|module: Option<SymbolId>|
            (#[trigger] scene(session, module, offset)).odoo == session.sync_odoo && scene(
                session,
                module,
                offset,
            ).module == module && scene(session, module, offset).offset == offset,
{
}

/// What is known of the surroundings, and of what is found, is all that is kept of them.
pub proof fn law_contents_of_a_visit(
    ctxt: XmlContext,
    results: (Vec<XmlAstResult>, Option<Range<usize>>),
)
    ensures
        ctxt.record_model is Some ==> ctxt@.record_model == Some(ctxt.record_model.unwrap()@),
        ctxt.record_model is None ==> ctxt@.record_model is None,
        ctxt.view_arch_model is Some ==> ctxt@.view_arch_model == Some(
            ctxt.view_arch_model.unwrap()@,
        ),
        ctxt.view_arch_model is None ==> ctxt@.view_arch_model is None,
        ctxt.field_name is Some ==> ctxt@.field_name == Some(ctxt.field_name.unwrap()@),
        ctxt.field_name is None ==> ctxt@.field_name is None,
        found(results).0 == results.0@,
        found(results).1 == results.1,
{
}

} // verus!
