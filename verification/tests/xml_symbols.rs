use odoo_features::session::{
    ContentSymbols, Model, ModelListing, ModelSymbol, ModuleSymbol, OdooData, OdooDataField,
    OdooDataRecord, PackageSymbol, SessionInfo, Symbol, SymbolId, SymbolKind, SyncOdoo, TextRange,
    XmlIdEntry,
};
use odoo_features::xml_ast_utils::{XmlAstResult, XmlAstUtils, XmlContext};
use odoo_features::xml_node::{XmlAttribute, XmlNode, XmlNodeKind};
use std::ops::Range;

fn symbol(name: &str, kind: SymbolKind, module: Option<SymbolId>) -> Symbol {
    Symbol {
        name: name.to_string(),
        in_workspace: true,
        paths: vec![],
        range: TextRange { start: 0, end: 0 },
        file: None,
        module,
        content: vec![],
        kind,
    }
}

fn module(name: &str, own: SymbolId, deps: &[&str]) -> Symbol {
    let kind = SymbolKind::Package(PackageSymbol::Module(ModuleSymbol {
        dir_name: name.to_string(),
        in_deps: deps.iter().map(|d| d.to_string()).collect(),
        symbols: vec![],
    }));
    symbol(name, kind, Some(own))
}

fn with_field(name: &str, symbols: Vec<SymbolId>) -> Symbol {
    let mut s = symbol("C", SymbolKind::Other, None);
    s.content = vec![ContentSymbols { name: name.to_string(), symbols }];
    s
}

fn entry(symbol: SymbolId, missing: Option<&str>) -> ModelSymbol {
    ModelSymbol { symbol, missing: missing.map(|m| m.to_string()) }
}

fn listing(from: Option<SymbolId>, inherit: bool, symbols: Vec<ModelSymbol>) -> ModelListing {
    ModelListing { from_module: from, with_inheritance: inherit, symbols }
}

fn field(name: &str, text: Option<&str>, ref_key: Option<&str>) -> OdooDataField {
    OdooDataField {
        name: name.to_string(),
        text: text.map(|t| t.to_string()),
        ref_key: ref_key.map(|r| r.to_string()),
    }
}

fn record(file: Option<SymbolId>, range: Range<usize>, fields: Vec<OdooDataField>) -> OdooData {
    OdooData::RECORD(OdooDataRecord { file_symbol: file, range, fields })
}

fn xml_id(id: &str, data: Vec<OdooData>) -> XmlIdEntry {
    XmlIdEntry { from_file: 0, xml_id: id.to_string(), data }
}

// Module `sale` (0) depends on `base` (1), not on `crm` (2). The file 3 belongs to `sale`, 4 to
// `base`, 5 to `crm`, and 6 to no module. `res.partner` has the classes 7 and 8, of which 8
// needs `crm`, and inherits from 9.
fn session() -> SessionInfo {
    let partner = Model {
        name: "res.partner".to_string(),
        classes: vec![],
        listings: vec![
            listing(None, false, vec![entry(7, None), entry(8, None)]),
            listing(Some(0), false, vec![entry(7, None), entry(8, Some("crm"))]),
            listing(None, true, vec![entry(7, None), entry(8, None), entry(9, None)]),
            listing(Some(0), true, vec![entry(7, None), entry(8, Some("crm")), entry(9, None)]),
        ],
    };
    let view = Model {
        name: "ir.ui.view".to_string(),
        classes: vec![],
        listings: vec![
            listing(None, false, vec![entry(10, None)]),
            listing(None, true, vec![entry(10, None)]),
            listing(Some(0), true, vec![entry(10, None)]),
        ],
    };
    let symbols = vec![
        module("sale", 0, &["sale", "base"]),
        module("base", 1, &["base"]),
        module("crm", 2, &["crm", "base"]),
        symbol("f3", SymbolKind::Other, Some(0)),
        symbol("f4", SymbolKind::Other, Some(1)),
        symbol("f5", SymbolKind::Other, Some(2)),
        symbol("f6", SymbolKind::Other, None),
        with_field("name", vec![20, 21]),
        with_field("name", vec![22]),
        with_field("name", vec![23]),
        with_field("arch", vec![30]),
    ];
    let sync_odoo = SyncOdoo {
        symbols,
        models: vec![partner, view],
        xml_ids: vec![
            xml_id(
                "base.main",
                vec![
                    record(Some(4), 100..110, vec![]),
                    OdooData::OTHER(Some(4)),
                    record(Some(5), 200..210, vec![]),
                    record(Some(6), 300..310, vec![]),
                ],
            ),
            xml_id("v.child", vec![record(Some(4), 1..2, vec![field("inherit_id", None, Some("v.base"))])]),
            xml_id(
                "v.base",
                vec![
                    OdooData::OTHER(None),
                    record(Some(4), 3..4, vec![field("model", Some("\n  res.partner\u{a0} "), None)]),
                ],
            ),
            xml_id("v.a", vec![record(Some(4), 1..2, vec![field("inherit_id", None, Some("v.b"))])]),
            xml_id(
                "v.b",
                vec![record(
                    Some(4),
                    1..2,
                    vec![field("model", None, Some("x")), field("inherit_id", None, Some("v.a"))],
                )],
            ),
            xml_id("v.dead", vec![record(Some(4), 1..2, vec![field("inherit_id", Some("v.base"), None)])]),
            xml_id("v.menu", vec![OdooData::OTHER(Some(4))]),
        ],
        files: vec![],
    };
    SessionInfo { sync_odoo, notifications: vec![] }
}

// The cursor is before the character behind `|`, which is taken out of the text.
fn cursor(text: &str) -> (String, usize) {
    let offset = text.find('|').unwrap();
    (text.replace('|', ""), offset)
}

fn search_in(
    s: &SessionInfo,
    file: SymbolId,
    text: &str,
    on_dep_only: bool,
) -> Option<(Vec<XmlAstResult>, Option<Range<usize>>)> {
    assert!(s.sync_odoo.is_wf());
    let (xml, offset) = cursor(text);
    let doc = roxmltree::Document::parse(&xml).unwrap();
    let root = doc.root_element();
    XmlAstUtils::get_symbols_in_document(s, file, root, offset, on_dep_only)
}

fn search(text: &str, on_dep_only: bool) -> (Vec<XmlAstResult>, Option<Range<usize>>) {
    search_in(&session(), 3, text, on_dep_only).unwrap()
}

fn symbols(results: &[XmlAstResult]) -> Vec<SymbolId> {
    results.iter().map(|r| r.as_symbol()).collect()
}

fn data(results: &[XmlAstResult]) -> Vec<(SymbolId, Range<usize>)> {
    results.iter().map(|r| r.as_xml_data()).collect()
}

// The part of the text that the link covers.
fn linked(text: &str, link: &Option<Range<usize>>) -> String {
    cursor(text).0[link.clone().unwrap()].to_string()
}

#[test]
fn model_of_a_record() {
    let text = r#"<odoo><record model="res.pa|rtner" id="x"/></odoo>"#;
    let (found, link) = search(text, false);
    assert_eq!(symbols(&found), vec![7, 8]);
    assert_eq!(linked(text, &link), "res.partner");
    assert_eq!(link, Some(21..32));
}

#[test]
fn missing_dependencies_hide_classes() {
    let text = r#"<odoo><record model="res.partner|"/></odoo>"#;
    assert_eq!(symbols(&search(text, true).0), vec![7]);
    assert_eq!(symbols(&search(text, false).0), vec![7, 8]);
}

#[test]
fn both_ends_of_a_value_count() {
    for (text, n) in [
        (r#"<odoo><record model=|"res.partner"/></odoo>"#, 0),
        (r#"<odoo><record model="|res.partner"/></odoo>"#, 2),
        (r#"<odoo><record model="res.partner|"/></odoo>"#, 2),
        (r#"<odoo><record model="res.partner"|/></odoo>"#, 0),
    ] {
        let (found, link) = search(text, false);
        assert_eq!(found.len(), n);
        assert_eq!(link.is_some(), n > 0);
    }
}

#[test]
fn unknown_model_is_no_link() {
    let (found, link) = search(r#"<odoo><record model="res.|users"/></odoo>"#, false);
    assert!(found.is_empty());
    assert_eq!(link, None);
}

#[test]
fn xml_id_of_a_record() {
    let text = r#"<odoo><record model="m" id="base.|main"/></odoo>"#;
    let (found, link) = search(text, false);
    assert_eq!(data(&found), vec![(4, 100..110), (5, 200..210), (6, 300..310)]);
    assert_eq!(linked(text, &link), "base.main");
    let (found, link) = search(text, true);
    assert_eq!(data(&found), vec![(4, 100..110)]);
    assert_eq!(linked(text, &link), "base.main");
}

#[test]
fn unknown_xml_id_is_a_link() {
    let text = r#"<odoo><record id="no|thing"/></odoo>"#;
    let (found, link) = search(text, true);
    assert!(found.is_empty());
    assert_eq!(linked(text, &link), "nothing");
}

#[test]
fn xml_ids_of_other_elements() {
    for text in [
        r#"<odoo><menuitem action="base|.main"/></odoo>"#,
        r#"<odoo><menuitem groups="base|.main"/></odoo>"#,
        r#"<odoo><template inherit_id="base|.main"/></odoo>"#,
        r#"<odoo><template groups="base|.main"/></odoo>"#,
        r#"<odoo><field ref="base|.main"/></odoo>"#,
        r#"<odoo><data><menuitem><template><field ref="base|.main"/></template></menuitem></data></odoo>"#,
    ] {
        let (found, link) = search(text, true);
        assert_eq!(data(&found), vec![(4, 100..110)]);
        assert_eq!(linked(text, &link), "base.main");
    }
    for text in [
        r#"<odoo><menuitem id="base|.main"/></odoo>"#,
        r#"<odoo><template id="base|.main"/></odoo>"#,
        r#"<odoo><xpath ref="base|.main"/></odoo>"#,
        r#"<odoo id="base|.main"/>"#,
    ] {
        let (found, link) = search(text, true);
        assert!(found.is_empty());
        assert_eq!(link, None);
    }
}

#[test]
fn field_of_a_record() {
    let text = r#"<odoo><record model="res.partner"><field name="na|me">x</field></record></odoo>"#;
    let (found, link) = search(text, false);
    assert_eq!(symbols(&found), vec![20, 21, 22, 23]);
    assert_eq!(linked(text, &link), "name");
    assert_eq!(symbols(&search(text, true).0), vec![20, 21, 23]);
}

#[test]
fn unknown_field_is_a_link() {
    let text = r#"<odoo><record model="res.partner"><field name="no|ne"/></record></odoo>"#;
    let (found, link) = search(text, true);
    assert!(found.is_empty());
    assert_eq!(linked(text, &link), "none");
}

#[test]
fn field_outside_of_records() {
    let (found, link) = search(r#"<odoo><field name="na|me"/></odoo>"#, false);
    assert!(found.is_empty());
    assert_eq!(link, None);
    let (found, link) = search(r#"<odoo><record model=""><field name="na|me"/></record></odoo>"#, false);
    assert!(found.is_empty());
    assert_eq!(link, None);
}

#[test]
fn model_name_in_a_text() {
    for name in ["model", "res_model"] {
        let text = format!(
            r#"<odoo><record model="act"><field name="{}">res.part|ner</field></record></odoo>"#,
            name
        );
        let (found, link) = search(&text, false);
        assert_eq!(symbols(&found), vec![7, 8]);
        assert_eq!(linked(&text, &link), "res.partner");
        assert_eq!(symbols(&search(&text, true).0), vec![7]);
    }
}

#[test]
fn other_texts_are_no_links() {
    for text in [
        r#"<odoo><record model="act"><field name="name">res.part|ner</field></record></odoo>"#,
        r#"<odoo><field name="model">res.part|ner</field></odoo>"#,
        r#"<odoo><record model="act"><field name="model"> res.part|ner</field></record></odoo>"#,
        r#"<odoo><record model="act"><field name="model"><!--res.part|ner--></field></record></odoo>"#,
    ] {
        let (found, link) = search(text, false);
        assert!(found.is_empty());
        assert_eq!(link, None);
    }
}

#[test]
fn arch_fields_are_those_of_the_view_model() {
    let text = r#"<odoo><record model="ir.ui.view">
        <field name="model">
            res.partner
        </field>
        <field name="arch"><form><field name="na|me"/></form></field>
    </record></odoo>"#;
    let (found, link) = search(text, false);
    assert_eq!(symbols(&found), vec![20, 21, 22, 23]);
    assert_eq!(linked(text, &link), "name");
}

#[test]
fn arch_itself_is_looked_up_in_the_view_model() {
    let text = r#"<odoo><record model="ir.ui.view">
        <field name="model">res.partner</field><field name="ar|ch"/></record></odoo>"#;
    let (found, link) = search(text, false);
    assert!(found.is_empty());
    assert_eq!(linked(text, &link), "arch");
    let text = r#"<odoo><record model="ir.ui.view"><field name="ar|ch"/></record></odoo>"#;
    assert_eq!(symbols(&search(text, false).0), vec![30]);
}

#[test]
fn behind_arch_the_record_is_a_view_again() {
    let text = r#"<odoo><record model="ir.ui.view">
        <field name="model">res.partner</field>
        <field name="arch"><form/></field>
        <field name="na|me"/>
    </record></odoo>"#;
    let (found, link) = search(text, false);
    assert!(found.is_empty());
    assert_eq!(linked(text, &link), "name");
}

#[test]
fn last_declared_model_wins() {
    let text = r#"<odoo><record model="ir.ui.view">
        <field name="model">other</field>
        <field name="model">res.partner</field>
        <field name="model">   </field>
        <field name="arch"><field name="na|me"/></field>
    </record></odoo>"#;
    assert_eq!(symbols(&search(text, false).0), vec![20, 21, 22, 23]);
}

#[test]
fn inheriting_view_takes_the_model_of_its_base() {
    let text = r#"<odoo><record model="ir.ui.view">
        <field name="inherit_id" ref="v.child"/>
        <field name="arch"><field name="na|me"/></field>
    </record></odoo>"#;
    assert_eq!(symbols(&search(text, false).0), vec![20, 21, 22, 23]);
    // Without a module there is nothing to resolve the id in.
    let s = session();
    let (found, _) = search_in(&s, 6, text, false).unwrap();
    assert!(found.is_empty());
}

#[test]
fn nothing_of_a_record_is_left_behind_it() {
    let text = r#"<odoo><record model="res.partner"><record model="x"/><field name="na|me"/></record></odoo>"#;
    let (found, link) = search(text, false);
    assert!(found.is_empty());
    assert_eq!(link, None);
}

#[test]
fn nothing_off_cursor() {
    let text = r#"<odoo>|<record model="res.partner" id="base.main"><field name="name"/></record></odoo>"#;
    let (found, link) = search(text, false);
    assert!(found.is_empty());
    assert_eq!(link, None);
}

#[test]
fn texts_around_a_comment() {
    let text = r#"<odoo><record model="act"><field name="model">res.partner|<b/>ir.ui.view</field></record></odoo>"#;
    let (found, link) = search(text, false);
    assert_eq!(symbols(&found), vec![7, 8]);
    assert_eq!(linked(text, &link), "res.partner");
    let text = r#"<odoo><record model="act"><field name="model">res.partner<!---->|ir.ui.view</field></record></odoo>"#;
    let (found, link) = search(text, false);
    assert_eq!(symbols(&found), vec![10]);
    assert_eq!(linked(text, &link), "ir.ui.view");
}

fn attribute(name: &str, value: &str, range_value: Range<usize>) -> XmlAttribute {
    XmlAttribute { name: name.to_string(), value: value.to_string(), range_value }
}

// With the cursor on several references all are followed, in order, and the last is the link.
#[test]
fn references_are_followed_in_order() {
    let s = session();
    let node = |tag: &str, attributes: Vec<XmlAttribute>| XmlNode {
        kind: XmlNodeKind::Element(tag.to_string()),
        attributes,
        range: 0..100,
        children: vec![],
    };
    let mut root = node("odoo", vec![]);
    root.children.push(node(
        "record",
        vec![attribute("id", "base.main", 8..12), attribute("model", "res.partner", 5..9)],
    ));
    root.children.push(node("menuitem", vec![attribute("groups", "base.main", 9..20)]));
    root.children.push(node("record", vec![attribute("model", "unknown", 9..10)]));
    let (found, link) = XmlAstUtils::get_symbols(&s, 3, &root, 9, true);
    assert_eq!(found.len(), 3);
    assert_eq!(found[0].as_xml_data(), (4, 100..110));
    assert_eq!(found[1].as_symbol(), 7);
    assert_eq!(found[2].as_xml_data(), (4, 100..110));
    assert_eq!(link, Some(9..20));
}

#[test]
fn xml_ids_cannot_be_followed_outside_of_modules() {
    let s = session();
    let text = r#"<odoo><record id="base.|main"/></odoo>"#;
    assert!(search_in(&s, 6, text, false).is_none());
    assert!(search_in(&s, 6, text, true).is_none());
    let text = r#"<odoo><record id="base.main" model="res.|partner"/></odoo>"#;
    assert_eq!(symbols(&search_in(&s, 6, text, false).unwrap().0), vec![7, 8]);
}

#[test]
fn records_of_unloaded_files() {
    let mut s = session();
    s.sync_odoo.xml_ids.push(xml_id("gone", vec![record(None, 1..2, vec![])]));
    let text = r#"<odoo><menuitem action="go|ne"/></odoo>"#;
    assert!(search_in(&s, 3, text, false).is_none());
    let (found, link) = search_in(&s, 3, text, true).unwrap();
    assert!(found.is_empty());
    assert_eq!(linked(text, &link), "gone");
}

#[test]
fn module_outside_of_modules() {
    let mut s = session();
    s.sync_odoo.symbols[0].module = None;
    let text = r#"<odoo><menuitem action="base|.main"/></odoo>"#;
    assert!(search_in(&s, 3, text, true).is_none());
    assert_eq!(search_in(&s, 3, text, false).unwrap().0.len(), 3);
}

#[test]
fn view_models() {
    let s = session();
    let model = |id: &str| XmlAstUtils::resolve_inherited_view_model(&s, 0, id);
    assert_eq!(model("v.base"), Some("res.partner".to_string()));
    assert_eq!(model("v.child"), Some("res.partner".to_string()));
    assert_eq!(model("v.a"), None);
    assert_eq!(model("v.b"), None);
    assert_eq!(model("v.dead"), None);
    assert_eq!(model("v.menu"), None);
    assert_eq!(model("v.unknown"), None);
    assert_eq!(XmlAstUtils::resolve_inherited_view_model(&s, 1, "v.base"), None);
}

// A blank text names no model, and ends the chain all the same.
#[test]
fn blank_model_ends_the_chain() {
    let mut s = session();
    s.sync_odoo.xml_ids.push(xml_id(
        "v.blank",
        vec![record(
            Some(4),
            1..2,
            vec![field("model", Some(" \t"), None), field("inherit_id", None, Some("v.base"))],
        )],
    ));
    assert_eq!(XmlAstUtils::resolve_inherited_view_model(&s, 0, "v.blank"), None);
    let text = r#"<odoo><record model="ir.ui.view">
        <field name="inherit_id" ref="v.blank"/>
        <field name="arch"><field name="ar|ch"/></field>
    </record></odoo>"#;
    assert_eq!(symbols(&search_in(&s, 3, text, false).unwrap().0), vec![30]);
}

#[test]
fn architecture_goes_on_behind_a_field_called_arch() {
    let mut s = session();
    s.sync_odoo.symbols[10].content.push(ContentSymbols { name: "name".to_string(), symbols: vec![31] });
    s.sync_odoo.symbols[7].content.push(ContentSymbols { name: "arch".to_string(), symbols: vec![24] });
    let in_form = |form: &str, rest: &str| {
        let text = format!(
            r#"<odoo><record model="ir.ui.view"><field name="model">res.partner</field>
            <field name="arch"><form>{}</form></field>{}</record></odoo>"#,
            form, rest
        );
        symbols(&search_in(&s, 3, &text, false).unwrap().0)
    };
    assert_eq!(in_form(r#"<field name="arch"/><field name="na|me"/>"#, ""), vec![20, 21, 22, 23]);
    assert_eq!(in_form(r#"<field name="ar|ch"/><field name="name"/>"#, ""), vec![24]);
    assert_eq!(
        in_form(r#"<field name="arch"><tree><field name="na|me"/></tree></field>"#, ""),
        vec![20, 21, 22, 23]
    );
    assert_eq!(in_form(r#"<field name="arch"/>"#, r#"<field name="na|me"/>"#), vec![31]);
    assert_eq!(in_form("", r#"<field name="na|me"/>"#), vec![31]);
}

// A record in a view is a view of its own, or none.
#[test]
fn record_in_a_view_has_no_part_in_it() {
    let mut s = session();
    s.sync_odoo.symbols[7].content.push(ContentSymbols { name: "arch".to_string(), symbols: vec![24] });
    s.sync_odoo.symbols[10].content.push(ContentSymbols { name: "name".to_string(), symbols: vec![31] });
    let in_view = |inner: &str| {
        let text = format!(
            r#"<odoo><record model="ir.ui.view"><field name="model">ir.ui.view</field>
            <field name="arch">{}</field></record></odoo>"#,
            inner
        );
        symbols(&search_in(&s, 3, &text, false).unwrap().0)
    };
    for inner in [
        r#"<record model="res.partner"><field name="arch"><field name="na|me"/></field></record>"#,
        r#"<record model="res.partner"><field name="arch"/><field name="na|me"/></record>"#,
    ] {
        assert_eq!(in_view(inner), vec![20, 21, 22, 23]);
    }
    assert_eq!(in_view(r#"<record model="res.partner"><field name="ar|ch"/></record>"#), vec![24]);
    let view = r#"<record model="ir.ui.view"><field name="model">res.partner</field>
        <field name="arch"><field name="na|me"/></field></record>"#;
    assert_eq!(in_view(view), vec![20, 21, 22, 23]);
    let text = r#"<odoo><record model="ir.ui.view"><field name="model">res.partner</field>
        <field name="arch"><record model="ir.ui.view">
        <field name="arch"><field name="na|me"/></field></record></field></record></odoo>"#;
    assert_eq!(symbols(&search_in(&s, 3, text, false).unwrap().0), vec![31]);
}

// What visiting the outermost element of a text leaves, from surroundings and results that hold
// something already.
fn visit(
    text: &str,
    field_name: Option<&str>,
) -> (XmlContext, (Vec<XmlAstResult>, Option<Range<usize>>)) {
    let (xml, offset) = cursor(text);
    let doc = roxmltree::Document::parse(&xml).unwrap();
    let node = XmlNode::from_parsed(&doc.root_element());
    let mut ctxt = XmlContext {
        record_model: Some("res.partner".to_string()),
        view_arch_model: Some("res.users".to_string()),
        field_name: field_name.map(|n| n.to_string()),
    };
    let mut results = (vec![XmlAstResult::SYMBOL(7)], Some(0..0));
    XmlAstUtils::visit_node(&session(), &node, offset, Some(0), &mut ctxt, &mut results, false);
    (ctxt, results)
}

#[test]
fn record_leaves_nothing_behind() {
    let (ctxt, results) = visit(r#"<record model="res.partner" id="base.|main"/>"#, Some("a"));
    assert_eq!(ctxt.record_model, None);
    assert_eq!(ctxt.view_arch_model, None);
    assert_eq!(ctxt.field_name, Some("a".to_string()));
    assert_eq!(results.0.len(), 4);
    assert_eq!(results.0[0].as_symbol(), 7);
    assert_eq!(results.0[1].as_xml_data(), (4, 100..110));
    assert_eq!(results.1, Some(32..41));
}

// Whatever its tag, a node that is read as a record leaves nothing behind.
#[test]
fn any_node_read_as_a_record_leaves_nothing_behind() {
    for xml in [r#"<data model="res.users" id="x"/>"#, "<odoo><br/></odoo>"] {
        let doc = roxmltree::Document::parse(xml).unwrap();
        let node = XmlNode::from_parsed(&doc.root_element());
        let mut ctxt = XmlContext {
            record_model: Some("res.partner".to_string()),
            view_arch_model: Some("res.users".to_string()),
            field_name: None,
        };
        let mut results = (vec![], None);
        XmlAstUtils::visit_record(&session(), &node, 0, Some(0), &mut ctxt, &mut results, false);
        assert_eq!(ctxt.record_model, None);
        assert_eq!(ctxt.view_arch_model, None);
        assert!(results.0.is_empty());
    }
}

#[test]
fn field_leaves_no_name_behind() {
    let (ctxt, results) = visit(r#"<field name="x"><field name="na|me"/></field>"#, Some("a"));
    assert_eq!(ctxt.record_model, Some("res.partner".to_string()));
    assert_eq!(ctxt.view_arch_model, Some("res.users".to_string()));
    assert_eq!(ctxt.field_name, None);
    assert_eq!(symbols(&results.0), vec![7, 20, 21, 22, 23]);
    assert_eq!(results.1, Some(29..33));
    let (ctxt, results) = visit(r#"<field name="arch"><b|r/></field>"#, None);
    assert_eq!(ctxt.record_model, Some("ir.ui.view".to_string()));
    assert_eq!(ctxt.view_arch_model, Some("res.users".to_string()));
    assert_eq!(symbols(&results.0), vec![7]);
    assert_eq!(results.1, Some(0..0));
}

#[test]
fn other_elements_are_read_as_their_children() {
    for open in ["<xpath>", r#"<xpath name="model" model="res.users" ref="base.main">"#] {
        let text = format!(r#"{}<br/><field name="na|me"/></xpath>"#, open);
        let (ctxt, results) = visit(&text, Some("a"));
        assert_eq!(ctxt.record_model, Some("res.partner".to_string()));
        assert_eq!(ctxt.field_name, None);
        assert_eq!(symbols(&results.0), vec![7, 20, 21, 22, 23]);
        let (ctxt, results) = visit(&format!("{}|<br/></xpath>", open), Some("model"));
        assert_eq!(ctxt.field_name, Some("model".to_string()));
        assert_eq!(symbols(&results.0), vec![7]);
        assert_eq!(results.1, Some(0..0));
    }
}

// Wherever the cursor is in a file, what is found is of one kind, and comes with a link that the
// cursor is on.
#[test]
fn one_kind_of_results_at_every_cursor() {
    let xml = r#"<odoo><record id="base.main" model="ir.ui.view">
        <field name="model">res.partner</field><field name="arch"><form>
        <field name="arch"/><field name="name" ref="base.main"/></form></field></record>
        <menuitem action="base.main" groups="base.main"/><template inherit_id="v.base"/></odoo>"#;
    let s = session();
    let doc = roxmltree::Document::parse(xml).unwrap();
    let mut kinds = [false, false];
    for offset in 0..xml.len() + 1 {
        let root = doc.root_element();
        let found = XmlAstUtils::get_symbols_in_document(&s, 3, root, offset, false);
        let (found, link) = found.unwrap();
        let n = found.iter().filter(|r| matches!(r, XmlAstResult::SYMBOL(_))).count();
        assert!(n == 0 || n == found.len());
        if let Some(link) = &link {
            assert!(link.start <= offset && offset <= link.end);
        }
        assert!(found.is_empty() || link.is_some());
        kinds[0] = kinds[0] || n > 0;
        kinds[1] = kinds[1] || n < found.len();
    }
    assert_eq!(kinds, [true, true]);
}

#[test]
fn xml_id_results_are_appended() {
    let s = session();
    let mut results = (vec![XmlAstResult::SYMBOL(7)], Some(1..2));
    XmlAstUtils::add_xml_id_result(&s, "base.main", 0, &mut results, true);
    assert_eq!(results.0.len(), 2);
    assert_eq!(results.0[0].as_symbol(), 7);
    assert_eq!(results.0[1].as_xml_data(), (4, 100..110));
    assert_eq!(results.1, Some(1..2));
}

#[test]
fn parsed_documents_become_trees() {
    let xml = "<a xmlns:n='u' k='1' n:k='2'>t<!--c--><b>x</b></a>";
    let doc = roxmltree::Document::parse(xml).unwrap();
    let tree = XmlNode::from_parsed(&doc.root());
    assert!(matches!(tree.kind, XmlNodeKind::Other));
    assert_eq!(tree.children.len(), 1);
    let a = &tree.children[0];
    assert!(matches!(&a.kind, XmlNodeKind::Element(tag) if tag == "a"));
    assert_eq!(a.range, 0..xml.len());
    assert_eq!(a.attributes.len(), 2);
    assert_eq!(a.attributes[0].name, "k");
    assert_eq!(a.attributes[0].value, "1");
    assert_eq!(&xml[a.attributes[0].range_value.clone()], "1");
    assert_eq!(a.attributes[1].name, "k");
    assert_eq!(a.attributes[1].value, "2");
    assert_eq!(a.attribute("k").unwrap(), "1");
    assert!(a.attribute("z").is_none());
    assert_eq!(a.children.len(), 3);
    assert!(matches!(&a.children[0].kind, XmlNodeKind::Text(t) if t == "t"));
    assert!(matches!(&a.children[1].kind, XmlNodeKind::Other));
    assert!(matches!(&a.children[2].kind, XmlNodeKind::Element(tag) if tag == "b"));
    assert_eq!(a.first_text().unwrap(), "t");
    assert_eq!(a.children[2].first_text().unwrap(), "x");
    assert!(a.children[0].first_text().is_none());
    assert_eq!(&xml[a.children[2].range.clone()], "<b>x</b>");
}

#[test]
fn document_and_tree_agree() {
    let s = session();
    let (xml, offset) = cursor(r#"<odoo><record model="res.|partner"/></odoo>"#);
    let doc = roxmltree::Document::parse(&xml).unwrap();
    let tree = XmlNode::from_parsed(&doc.root_element());
    assert!(XmlAstUtils::can_follow(&s, 3, &tree, offset, false));
    let (found, link) = XmlAstUtils::get_symbols(&s, 3, &tree, offset, false);
    assert_eq!(symbols(&found), vec![7, 8]);
    assert_eq!(link, Some(21..32));
    // The document itself holds the outermost element, whose record is then found below it.
    let whole = XmlNode::from_parsed(&doc.root());
    assert_eq!(symbols(&XmlAstUtils::get_symbols(&s, 3, &whole, offset, false).0), vec![7, 8]);
}
