use odoo_features::lsp::{Position, Range};
use odoo_features::override_markers::{
    compute_and_publish_override_markers, get_classes_in_file_symbol, PublishOverrideMarkersParams,
};
use odoo_features::session::{
    ClassSymbol, FileInfo, FilePath, Model, ModuleSymbol, NamedSections, PackageSymbol,
    SessionInfo, Symbol, SymbolId, SymbolKind, SyncOdoo, TextRange,
};

fn symbol(name: &str, kind: SymbolKind) -> Symbol {
    Symbol {
        name: name.to_string(),
        in_workspace: true,
        paths: vec![],
        range: TextRange { start: 0, end: 0 },
        file: None,
        module: None,
        content: vec![],
        kind,
    }
}

fn module(name: &str, deps: &[&str]) -> Symbol {
    let kind = SymbolKind::Package(PackageSymbol::Module(ModuleSymbol {
        dir_name: name.to_string(),
        in_deps: deps.iter().map(|d| d.to_string()).collect(),
        symbols: vec![],
    }));
    symbol(name, kind)
}

fn named(name: &str, sections: Vec<Vec<SymbolId>>) -> NamedSections {
    NamedSections { name: name.to_string(), sections }
}

fn file(name: &str, classes: Vec<SymbolId>, module: SymbolId) -> Symbol {
    let mut s = symbol(name, SymbolKind::File(vec![named("C", vec![classes])]));
    s.paths = vec![FilePath {
        path: format!("/src/{}.py", name),
        uri: format!("file:///src/{}.py", name),
    }];
    s.module = Some(module);
    s
}

fn class(model: Option<&str>, table: Vec<NamedSections>, file: SymbolId, module: SymbolId) -> Symbol {
    let kind = SymbolKind::Class(ClassSymbol {
        model: model.map(|m| m.to_string()),
        symbols: table,
    });
    let mut s = symbol("C", kind);
    s.file = Some(file);
    s.module = Some(module);
    s
}

fn function(start: u32, file: SymbolId, module: SymbolId) -> Symbol {
    let mut s = symbol("f", SymbolKind::Function);
    s.range = TextRange { start, end: start + 5 };
    s.file = Some(file);
    s.module = Some(module);
    s
}

fn lsp_range(line: u32) -> Range {
    Range {
        start: Position { line, character: 4 },
        end: Position { line: line + 1, character: 0 },
    }
}

// A file in which the functions that start at the given bytes are on the given lines.
fn file_info(name: &str, functions: &[(usize, u32)]) -> FileInfo {
    let mut positions = vec![Position { line: 0, character: 0 }; 50];
    for (start, line) in functions {
        positions[*start] = lsp_range(*line).start;
        positions[*start + 5] = lsp_range(*line).end;
    }
    FileInfo {
        path: format!("/src/{}.py", name),
        positions,
        end: Position { line: 9, character: 0 },
    }
}

// Modules `base` (0) and `sale` (1), which depends on `base`. Each has a file (2, 3) with a class
// (4, 5) of `res.partner` that defines `write` (6, 7); `base` defines `read` (8) as well.
fn session() -> SessionInfo {
    let symbols = vec![
        module("base", &["base"]),
        module("sale", &["sale", "base"]),
        file("base", vec![4], 0),
        file("sale", vec![5], 1),
        class(
            Some("res.partner"),
            vec![named("write", vec![vec![6]]), named("read", vec![vec![8]])],
            2,
            0,
        ),
        class(Some("res.partner"), vec![named("write", vec![vec![9, 7]])], 3, 1),
        function(10, 2, 0),
        function(20, 3, 1),
        function(30, 2, 0),
        symbol("write", SymbolKind::Other),
    ];
    let sync_odoo = SyncOdoo {
        symbols,
        models: vec![Model {
            name: "res.partner".to_string(),
            classes: vec![4, 5],
            listings: vec![],
        }],
        xml_ids: vec![],
        files: vec![file_info("base", &[(10, 1), (30, 3)]), file_info("sale", &[(20, 2)])],
    };
    SessionInfo { sync_odoo, notifications: vec![] }
}

fn publish(session: &mut SessionInfo, file_sym: SymbolId) -> &PublishOverrideMarkersParams {
    assert!(session.sync_odoo.is_wf());
    let before = session.notifications.len();
    compute_and_publish_override_markers(session, file_sym);
    assert_eq!(session.notifications.len(), before + 1);
    let sent = &session.notifications[before];
    assert_eq!(sent.method, "$Odoo/overrideMarkers");
    &sent.params
}

#[test]
fn extension_overrides_base() {
    let mut s = session();
    let params = publish(&mut s, 3);
    assert_eq!(params.uri, "file:///src/sale.py");
    assert_eq!(params.markers.len(), 1);
    assert_eq!(params.markers[0].line, 2);
    assert_eq!(params.markers[0].kind, "overrides");
    assert_eq!(params.markers[0].targets.len(), 1);
    assert_eq!(params.markers[0].targets[0].uri, "file:///src/base.py");
    assert_eq!(params.markers[0].targets[0].range, lsp_range(1));
}

#[test]
fn override_is_seen_from_both_ends() {
    let mut s = session();
    let params = publish(&mut s, 2);
    assert_eq!(params.uri, "file:///src/base.py");
    assert_eq!(params.markers.len(), 1);
    assert_eq!(params.markers[0].line, 1);
    assert_eq!(params.markers[0].kind, "overriddenBy");
    assert_eq!(params.markers[0].targets.len(), 1);
    assert_eq!(params.markers[0].targets[0].uri, "file:///src/sale.py");
    assert_eq!(params.markers[0].targets[0].range, lsp_range(2));
}

#[test]
fn mutual_dependencies_override_each_other() {
    let mut s = session();
    s.sync_odoo.symbols[0] = module("base", &["base", "sale"]);
    assert_eq!(publish(&mut s, 2).markers[0].kind, "overrides");
    assert_eq!(publish(&mut s, 3).markers[0].kind, "overrides");
    assert_eq!(s.notifications.len(), 2);
}

#[test]
fn unrelated_modules_have_no_markers() {
    let mut s = session();
    s.sync_odoo.symbols[1] = module("sale", &["sale"]);
    let params = publish(&mut s, 3);
    assert_eq!(params.uri, "file:///src/sale.py");
    assert!(params.markers.is_empty());
}

#[test]
fn class_outside_of_modules_has_no_markers() {
    let mut s = session();
    s.sync_odoo.symbols[5].module = None;
    assert!(publish(&mut s, 3).markers.is_empty());
}

#[test]
fn class_is_not_its_own_override() {
    let mut s = session();
    s.sync_odoo.models[0].classes = vec![5, 5];
    assert!(publish(&mut s, 3).markers.is_empty());
}

#[test]
fn nothing_is_sent_outside_of_the_workspace() {
    let mut s = session();
    s.sync_odoo.symbols[3].in_workspace = false;
    compute_and_publish_override_markers(&mut s, 3);
    assert!(s.notifications.is_empty());
}

#[test]
fn nothing_is_sent_without_a_path() {
    let mut s = session();
    s.sync_odoo.symbols[3].paths.clear();
    compute_and_publish_override_markers(&mut s, 3);
    assert!(s.notifications.is_empty());
}

#[test]
fn classes_without_a_known_model_are_skipped() {
    for model in [None, Some(""), Some("res.users")] {
        let mut s = session();
        let table = vec![named("write", vec![vec![7]])];
        s.sync_odoo.symbols[5] = class(model, table, 3, 1);
        assert!(publish(&mut s, 3).markers.is_empty());
    }
}

#[test]
fn unknown_file_of_the_target_drops_the_target() {
    let mut s = session();
    s.sync_odoo.files.remove(0);
    assert!(publish(&mut s, 3).markers.is_empty());

    let mut s = session();
    s.sync_odoo.symbols[6].file = None;
    assert!(publish(&mut s, 3).markers.is_empty());

    let mut s = session();
    s.sync_odoo.symbols[2].paths.clear();
    assert!(publish(&mut s, 3).markers.is_empty());
}

#[test]
fn unknown_file_of_the_function_drops_the_marker() {
    let mut s = session();
    s.sync_odoo.files.remove(1);
    assert!(publish(&mut s, 3).markers.is_empty());
}

// In a known file every range can be located.
#[test]
fn known_files_locate_every_range() {
    let mut s = session();
    s.sync_odoo.symbols[6].range = TextRange { start: 35, end: 50 };
    s.sync_odoo.symbols[7].range = TextRange { start: 60, end: 70 };
    let params = publish(&mut s, 3);
    let end = Position { line: 9, character: 0 };
    assert_eq!(params.markers.len(), 1);
    assert_eq!(params.markers[0].line, 9);
    let target = Range { start: Position { line: 4, character: 0 }, end };
    assert_eq!(params.markers[0].targets[0].range, target);
    assert_eq!(s.sync_odoo.lsp_range("/src/none.py", &TextRange { start: 0, end: 1 }), None);
}

// The first function of a name ends the search in a class, even if it cannot be located.
#[test]
fn first_function_of_a_name_decides() {
    let mut s = session();
    let table = vec![named("write", vec![vec![9], vec![8, 6], vec![6]])];
    s.sync_odoo.symbols[4] = class(Some("res.partner"), table, 2, 0);
    assert_eq!(publish(&mut s, 3).markers[0].targets[0].range, lsp_range(3));
    s.sync_odoo.symbols[8].file = None;
    assert!(publish(&mut s, 3).markers.is_empty());
}

#[test]
fn every_section_has_its_own_marker() {
    let mut s = session();
    let table = vec![named("write", vec![vec![7, 7], vec![9], vec![7]])];
    s.sync_odoo.symbols[5] = class(Some("res.partner"), table, 3, 1);
    let params = publish(&mut s, 3);
    assert_eq!(params.markers.len(), 2);
    assert_eq!(params.markers[0].line, 2);
    assert_eq!(params.markers[1].line, 2);
}

// A third module between the two: overrides come before what is overridden by.
#[test]
fn both_kinds_of_markers_on_one_function() {
    let mut s = session();
    s.sync_odoo.symbols.push(module("crm", &["crm", "sale", "base"]));
    s.sync_odoo.symbols.push(file("crm", vec![12], 10));
    s.sync_odoo.symbols.push(class(
        Some("res.partner"),
        vec![named("write", vec![vec![13]])],
        11,
        10,
    ));
    s.sync_odoo.symbols.push(function(40, 11, 10));
    s.sync_odoo.models[0].classes.push(12);
    s.sync_odoo.files.push(file_info("crm", &[(40, 7)]));
    let params = publish(&mut s, 3);
    assert_eq!(params.markers.len(), 2);
    assert_eq!(params.markers[0].kind, "overrides");
    assert_eq!(params.markers[0].targets[0].uri, "file:///src/base.py");
    assert_eq!(params.markers[1].kind, "overriddenBy");
    assert_eq!(params.markers[1].targets[0].uri, "file:///src/crm.py");
    assert_eq!(params.markers[1].targets[0].range, lsp_range(7));
    assert_eq!(publish(&mut s, 11).markers[0].targets.len(), 2);
}

#[test]
fn classes_of_files_and_packages() {
    let mut s = session();
    assert_eq!(get_classes_in_file_symbol(&s.sync_odoo, 2), vec![4]);
    let table = || vec![named("A", vec![vec![9, 5], vec![4]]), named("B", vec![vec![6], vec![5]])];
    s.sync_odoo.symbols[2].kind = SymbolKind::Package(PackageSymbol::PythonPackage(table()));
    assert_eq!(get_classes_in_file_symbol(&s.sync_odoo, 2), vec![5, 4, 5]);
    s.sync_odoo.symbols[2].kind = SymbolKind::Package(PackageSymbol::Module(ModuleSymbol {
        dir_name: "m".to_string(),
        in_deps: vec![],
        symbols: table(),
    }));
    assert_eq!(get_classes_in_file_symbol(&s.sync_odoo, 2), vec![5, 4, 5]);
    assert_eq!(get_classes_in_file_symbol(&s.sync_odoo, 6), Vec::<SymbolId>::new());
    assert_eq!(get_classes_in_file_symbol(&s.sync_odoo, 4), Vec::<SymbolId>::new());
}

#[test]
fn dangling_ids_are_noticed() {
    let mut s = session();
    assert!(s.sync_odoo.is_wf());
    s.sync_odoo.models[0].classes.push(99);
    assert!(!s.sync_odoo.is_wf());
    s.sync_odoo.models[0].classes[2] = 6;
    assert!(!s.sync_odoo.is_wf());
    s.sync_odoo.models[0].classes.pop();
    s.sync_odoo.symbols[7].module = Some(2);
    assert!(!s.sync_odoo.is_wf());
    s.sync_odoo.symbols[7].module = None;
    assert!(s.sync_odoo.is_wf());
    s.sync_odoo.symbols[7].file = Some(99);
    assert!(!s.sync_odoo.is_wf());
}

#[test]
fn order_of_names_orders_markers() {
    let mut lines = Vec::new();
    for names in [["write", "read"], ["read", "write"]] {
        let mut s = session();
        let table = vec![named("write", vec![vec![7]]), named("read", vec![vec![7]])];
        s.sync_odoo.symbols[5] = class(Some("res.partner"), table, 3, 1);
        let own = names.iter().map(|n| named(n, vec![vec![if *n == "write" { 6 } else { 8 }]]));
        s.sync_odoo.symbols[4] = class(Some("res.partner"), own.collect(), 2, 0);
        let params = publish(&mut s, 2);
        lines.push(params.markers.iter().map(|m| m.line).collect::<Vec<u32>>());
    }
    assert_eq!(lines, vec![vec![1, 3], vec![3, 1]]);
}
