//! Override markers: which methods of a file's model classes override, or are overridden by,
//! methods of the same model in other modules.

use crate::lsp;
use crate::seqs;
use crate::session::{
    Model, NamedSections, PackageSymbol, SentNotification, SessionInfo, Symbol, SymbolId,
    SymbolKind, SyncOdoo,
};
use crate::text::same_text;
use vstd::prelude::*;

verus! {

/// A method at the other end of an override.
#[derive(Clone, Debug)]
pub struct OverrideMarkerTarget {
    pub uri: String,
    pub range: lsp::Range,
}

/// A marker on a line of the file. `kind` is `overrides` or `overriddenBy`.
#[derive(Clone, Debug)]
pub struct OverrideMarker {
    pub line: u32,
    pub kind: String,
    pub targets: Vec<OverrideMarkerTarget>,
}

/// The markers of a file.
#[derive(Clone, Debug)]
pub struct PublishOverrideMarkersParams {
    pub uri: String,
    pub markers: Vec<OverrideMarker>,
}

/// The contents of an [`OverrideMarkerTarget`].
pub struct Target {
    pub uri: Seq<char>,
    pub range: lsp::Range,
}

/// The contents of an [`OverrideMarker`].
pub struct Marker {
    pub line: u32,
    pub kind: Seq<char>,
    pub targets: Seq<Target>,
}

/// The contents of a [`PublishOverrideMarkersParams`].
pub struct PublishedMarkers {
    pub uri: Seq<char>,
    pub markers: Seq<Marker>,
}

impl View for OverrideMarkerTarget {
    type V = Target;

    open spec fn view(&self) -> Target {
        Target { uri: self.uri@, range: self.range }
    }
}

pub open spec fn targets_view(targets: Seq<OverrideMarkerTarget>) -> Seq<Target> {
    targets.map_values(|t: OverrideMarkerTarget| t@)
}

impl View for OverrideMarker {
    type V = Marker;

    open spec fn view(&self) -> Marker {
        Marker { line: self.line, kind: self.kind@, targets: targets_view(self.targets@) }
    }
}

pub open spec fn markers_view(markers: Seq<OverrideMarker>) -> Seq<Marker> {
    markers.map_values(|m: OverrideMarker| m@)
}

impl View for PublishOverrideMarkersParams {
    type V = PublishedMarkers;

    open spec fn view(&self) -> PublishedMarkers {
        PublishedMarkers { uri: self.uri@, markers: markers_view(self.markers@) }
    }
}

/// How a method relates to one of the same name in another module.
#[derive(Clone, Copy, Debug, PartialEq, Eq, Structural)]
pub enum OverrideKind {
    Overrides,
    OverriddenBy,
}

impl OverrideKind {
    /// The name of the relation in the messages to the client.
    pub open spec fn name(self) -> Seq<char> {
        match self {
            OverrideKind::Overrides => "overrides"@,
            OverrideKind::OverriddenBy => "overriddenBy"@,
        }
    }
}

/// How the methods of `class` relate to those of `other`: they override what their module
/// depends on, and are overridden by what depends on their module.
pub open spec fn relation(odoo: SyncOdoo, class: SymbolId, other: SymbolId) -> Option<OverrideKind> {
    match (odoo.symbol(class).module, odoo.symbol(other).module) {
        (Some(current), Some(theirs)) => {
            if odoo.is_in_deps(current, odoo.symbol(theirs).as_module().dir_name@) {
                Some(OverrideKind::Overrides)
            } else if odoo.is_in_deps(theirs, odoo.symbol(current).as_module().dir_name@) {
                Some(OverrideKind::OverriddenBy)
            } else {
                None
            }
        },
        _ => None,
    }
}

/// The first function of a section.
pub open spec fn section_function(odoo: SyncOdoo, section: Vec<SymbolId>) -> Option<SymbolId> {
    seqs::find_first(section@, |s: SymbolId| odoo.symbol(s).is_function())
}

/// All symbols of some sections.
pub open spec fn sections_symbols(sections: Seq<Vec<SymbolId>>) -> Seq<SymbolId> {
    sections.flat_map(|section: Vec<SymbolId>| section@)
}

/// The first function that a class holds under `name`.
pub open spec fn function_named(
    odoo: SyncOdoo,
    table: Seq<NamedSections>,
    name: Seq<char>,
) -> Option<SymbolId> {
    match seqs::find_first(table, |e: NamedSections| e.is_named(name)) {
        Some(e) => seqs::find_first(
            sections_symbols(e.sections@),
            |s: SymbolId| odoo.symbol(s).is_function(),
        ),
        None => None,
    }
}

/// Where a function is, if its file is loaded and known.
pub open spec fn location(odoo: SyncOdoo, function: SymbolId) -> Option<Target> {
    match odoo.symbol(function).file {
        Some(file) => {
            let paths = odoo.symbol(file).paths@;
            if paths.len() == 0 {
                None
            } else {
                match odoo.range_in_file(paths[0].path@, odoo.symbol(function).range) {
                    Some(range) => Some(Target { uri: paths[0].uri@, range }),
                    None => None,
                }
            }
        },
        None => None,
    }
}

/// The function called `name` of `other`, if it stands in the relation `kind` to that of
/// `class`.
pub open spec fn target_in(
    odoo: SyncOdoo,
    class: SymbolId,
    other: SymbolId,
    name: Seq<char>,
    kind: OverrideKind,
) -> Option<Target> {
    if relation(odoo, class, other) == Some(kind) {
        match function_named(odoo, odoo.symbol(other).kind->Class_0.symbols@, name) {
            Some(function) => location(odoo, function),
            None => None,
        }
    } else {
        None
    }
}

/// The functions called `name` of `others` that stand in the relation `kind` to that of
/// `class`.
pub open spec fn targets(
    odoo: SyncOdoo,
    class: SymbolId,
    others: Seq<SymbolId>,
    name: Seq<char>,
    kind: OverrideKind,
) -> Seq<Target> {
    others.filter_map(|other: SymbolId| target_in(odoo, class, other, name, kind))
}

/// A marker for `targets`, unless there are none.
pub open spec fn marker(line: u32, kind: OverrideKind, targets: Seq<Target>) -> Seq<Marker> {
    if targets.len() == 0 {
        Seq::empty()
    } else {
        seq![Marker { line, kind: kind.name(), targets }]
    }
}

/// The markers of one function of `class`, on the line where the function starts.
pub open spec fn function_markers(
    odoo: SyncOdoo,
    path: Seq<char>,
    class: SymbolId,
    others: Seq<SymbolId>,
    entry: (Seq<char>, SymbolId),
) -> Seq<Marker> {
    match odoo.range_in_file(path, odoo.symbol(entry.1).range) {
        Some(range) => {
            marker(
                range.start.line,
                OverrideKind::Overrides,
                targets(odoo, class, others, entry.0, OverrideKind::Overrides),
            ) + marker(
                range.start.line,
                OverrideKind::OverriddenBy,
                targets(odoo, class, others, entry.0, OverrideKind::OverriddenBy),
            )
        },
        None => Seq::empty(),
    }
}

/// The functions of a class, with their names: the first of each section.
pub open spec fn functions_of(odoo: SyncOdoo, table: Seq<NamedSections>) -> Seq<
    (Seq<char>, SymbolId),
> {
    table.flat_map(|e: NamedSections| functions_under(odoo, e))
}

/// The functions that one name of a class stands for.
pub open spec fn functions_under(odoo: SyncOdoo, entry: NamedSections) -> Seq<
    (Seq<char>, SymbolId),
> {
    entry.sections@.filter_map(
        |section: Vec<SymbolId>|
            match section_function(odoo, section) {
                Some(f) => Some((entry.name@, f)),
                None => None,
            },
    )
}

pub open spec fn differs(a: SymbolId, b: SymbolId) -> bool {
    a != b
}

/// The classes of a model other than `class`.
pub open spec fn other_classes(model: Model, class: SymbolId) -> Seq<SymbolId> {
    model.classes@.filter(|s: SymbolId| differs(s, class))
}

/// The markers of one class: none unless it belongs to a model that the server knows.
pub open spec fn class_markers(odoo: SyncOdoo, path: Seq<char>, class: SymbolId) -> Seq<Marker> {
    match odoo.symbol(class).kind {
        SymbolKind::Class(c) => match c.model {
            Some(name) => if name@.len() == 0 {
                Seq::empty()
            } else {
                match odoo.model_named(name@) {
                    Some(model) => functions_of(odoo, c.symbols@).flat_map(
                        |entry: (Seq<char>, SymbolId)|
                            function_markers(odoo, path, class, other_classes(model, class), entry),
                    ),
                    None => Seq::empty(),
                }
            },
            None => Seq::empty(),
        },
        _ => Seq::empty(),
    }
}

/// The names of a file or of a package; of any other symbol none.
pub open spec fn file_table(symbol: Symbol) -> Seq<NamedSections> {
    match symbol.kind {
        SymbolKind::File(table) => table@,
        SymbolKind::Package(PackageSymbol::Module(m)) => m.symbols@,
        SymbolKind::Package(PackageSymbol::PythonPackage(table)) => table@,
        _ => Seq::empty(),
    }
}

/// All symbols that a table holds.
pub open spec fn table_symbols(table: Seq<NamedSections>) -> Seq<SymbolId> {
    table.flat_map(|e: NamedSections| sections_symbols(e.sections@))
}

/// The classes of a file or of a package.
pub open spec fn classes_in(odoo: SyncOdoo, file_sym: SymbolId) -> Seq<SymbolId> {
    table_symbols(file_table(odoo.symbol(file_sym))).filter(
        |s: SymbolId| odoo.symbol(s).is_class(),
    )
}

/// The markers of a file: those of its classes. A file that is not in the workspace, or that
/// has no path, is not published.
pub open spec fn published(odoo: SyncOdoo, file_sym: SymbolId) -> Option<PublishedMarkers> {
    let symbol = odoo.symbol(file_sym);
    if symbol.in_workspace && symbol.paths@.len() > 0 {
        Some(
            PublishedMarkers {
                uri: symbol.paths@[0].uri@,
                markers: classes_in(odoo, file_sym).flat_map(
                    |class: SymbolId| class_markers(odoo, symbol.paths@[0].path@, class),
                ),
            },
        )
    } else {
        None
    }
}

/// Appends the classes of one section.
fn push_section_classes(odoo: &SyncOdoo, section: &Vec<SymbolId>, classes: &mut Vec<SymbolId>)
    requires
        odoo.ids_wf(section@),
    ensures
        final(classes)@ == old(classes)@ + section@.filter(
            |s: SymbolId| odoo.symbol(s).is_class(),
        ),
{
    let ghost p = |s: SymbolId| odoo.symbol(s).is_class();
    let ghost before = classes@;
    let mut i: usize = 0;
    proof {
        reveal(Seq::filter);
        assert(section@.take(0) =~= Seq::<SymbolId>::empty());
        assert(before + Seq::<SymbolId>::empty() =~= before);
    }
    while i < section.len()
        invariant
            i <= section.len(),
            odoo.ids_wf(section@),
            p == (|s: SymbolId| odoo.symbol(s).is_class()),
            classes@ == before + section@.take(i as int).filter(p),
        decreases section.len() - i,
    {
        let id: SymbolId = section[i];
        proof {
            assert(odoo.valid(section@[i as int]));
            seqs::lemma_filter_take(section@, p, i as int);
        }
        if let SymbolKind::Class(_) = &odoo.symbols[id].kind {
            classes.push(id);
            assert(classes@ =~= before + section@.take(i as int).filter(p).push(id));
        }
        i += 1;
    }
    assert(section@.take(section@.len() as int) =~= section@);
}

/// Appends the classes of a table.
fn push_table_classes(odoo: &SyncOdoo, table: &Vec<NamedSections>, classes: &mut Vec<SymbolId>)
    requires
        odoo.table_wf(table@),
    ensures
        final(classes)@ == old(classes)@ + table_symbols(table@).filter(
            |s: SymbolId| odoo.symbol(s).is_class(),
        ),
{
    let ghost p = |s: SymbolId| odoo.symbol(s).is_class();
    let ghost g = |section: Vec<SymbolId>| section@;
    let ghost f = |e: NamedSections| sections_symbols(e.sections@);
    let ghost before = classes@;
    let mut i: usize = 0;
    proof {
        reveal(Seq::filter);
        assert(table@.take(0) =~= Seq::<NamedSections>::empty());
        seqs::lemma_flat_map_empty::<NamedSections, SymbolId>(f);
        assert(before + Seq::<SymbolId>::empty() =~= before);
    }
    while i < table.len()
        invariant
            i <= table.len(),
            odoo.table_wf(table@),
            p == (|s: SymbolId| odoo.symbol(s).is_class()),
            g == (|section: Vec<SymbolId>| section@),
            f == (|e: NamedSections| sections_symbols(e.sections@)),
            classes@ == before + table@.take(i as int).flat_map(f).filter(p),
        decreases table.len() - i,
    {
        let sections = &table[i].sections;
        let ghost here = classes@;
        let mut j: usize = 0;
        proof {
            assert(odoo.sections_wf(table@[i as int].sections@));
            reveal(Seq::filter);
            assert(sections@.take(0) =~= Seq::<Vec<SymbolId>>::empty());
            seqs::lemma_flat_map_empty::<Vec<SymbolId>, SymbolId>(g);
            assert(here + Seq::<SymbolId>::empty() =~= here);
        }
        while j < sections.len()
            invariant
                j <= sections.len(),
                odoo.sections_wf(sections@),
                p == (|s: SymbolId| odoo.symbol(s).is_class()),
                g == (|section: Vec<SymbolId>| section@),
                classes@ == here + sections@.take(j as int).flat_map(g).filter(p),
            decreases sections.len() - j,
        {
            assert(odoo.ids_wf(sections@[j as int]@));
            let ghost prior = sections@.take(j as int).flat_map(g);
            push_section_classes(odoo, &sections[j], classes);
            proof {
                seqs::lemma_flat_map_take(sections@, g, j as int);
                Seq::filter_distributes_over_add(prior, sections@[j as int]@, p);
                assert(classes@ =~= here + (prior + sections@[j as int]@).filter(p));
            }
            j += 1;
        }
        proof {
            assert(sections@.take(sections@.len() as int) =~= sections@);
            let prior = table@.take(i as int).flat_map(f);
            seqs::lemma_flat_map_take(table@, f, i as int);
            Seq::filter_distributes_over_add(prior, f(table@[i as int]), p);
            assert(classes@ =~= before + (prior + f(table@[i as int])).filter(p));
        }
        i += 1;
    }
    assert(table@.take(table@.len() as int) =~= table@);
}

/// The classes of a file or of a package, in the order of its table; of any other symbol none.
pub fn get_classes_in_file_symbol(odoo: &SyncOdoo, file_sym: SymbolId) -> (res: Vec<SymbolId>)
    requires
        odoo.wf(),
        odoo.valid(file_sym),
    ensures
        res@ == classes_in(*odoo, file_sym),
{
    let mut classes: Vec<SymbolId> = Vec::new();
    assert(odoo.symbol_wf(odoo.symbols@[file_sym as int]));
    match &odoo.symbols[file_sym].kind {
        SymbolKind::File(table) => push_table_classes(odoo, table, &mut classes),
        SymbolKind::Package(PackageSymbol::Module(m)) => push_table_classes(
            odoo,
            &m.symbols,
            &mut classes,
        ),
        SymbolKind::Package(PackageSymbol::PythonPackage(table)) => push_table_classes(
            odoo,
            table,
            &mut classes,
        ),
        _ => {
            proof {
                reveal(Seq::filter);
                seqs::lemma_flat_map_empty::<NamedSections, SymbolId>(
                    |e: NamedSections| sections_symbols(e.sections@),
                );
            }
        },
    }
    assert(classes@ =~= classes_in(*odoo, file_sym));
    classes
}

/// The first function of a section.
fn first_function(odoo: &SyncOdoo, section: &Vec<SymbolId>) -> (res: Option<SymbolId>)
    requires
        odoo.ids_wf(section@),
    ensures
        res == section_function(*odoo, *section),
        res matches Some(f) ==> odoo.valid(f),
{
    let ghost p = |s: SymbolId| odoo.symbol(s).is_function();
    let mut i: usize = 0;
    while i < section.len()
        invariant
            i <= section.len(),
            odoo.ids_wf(section@),
            p == (|s: SymbolId| odoo.symbol(s).is_function()),
            forall|j: int| 0 <= j < i ==> !p(#[trigger] section@[j]),
        decreases section.len() - i,
    {
        let id: SymbolId = section[i];
        assert(odoo.valid(section@[i as int]));
        if let SymbolKind::Function = &odoo.symbols[id].kind {
            proof {
                seqs::lemma_find_first_at(section@, p, i as int);
            }
            return Some(id);
        }
        i += 1;
    }
    proof {
        seqs::lemma_find_first_none(section@, p);
    }
    None
}

/// The first function of some sections.
fn first_function_of_sections(odoo: &SyncOdoo, sections: &Vec<Vec<SymbolId>>) -> (res: Option<
    SymbolId,
>)
    requires
        odoo.sections_wf(sections@),
    ensures
        res == seqs::find_first(
            sections_symbols(sections@),
            |s: SymbolId| odoo.symbol(s).is_function(),
        ),
        res matches Some(f) ==> odoo.valid(f),
{
    let ghost p = |s: SymbolId| odoo.symbol(s).is_function();
    let ghost g = |section: Vec<SymbolId>| section@;
    let mut i: usize = 0;
    proof {
        assert(sections@.take(0) =~= Seq::<Vec<SymbolId>>::empty());
        seqs::lemma_flat_map_empty::<Vec<SymbolId>, SymbolId>(g);
    }
    while i < sections.len()
        invariant
            i <= sections.len(),
            odoo.sections_wf(sections@),
            p == (|s: SymbolId| odoo.symbol(s).is_function()),
            g == (|section: Vec<SymbolId>| section@),
            seqs::find_first(sections@.take(i as int).flat_map(g), p) is None,
        decreases sections.len() - i,
    {
        let ghost prior = sections@.take(i as int).flat_map(g);
        let ghost here = sections@[i as int]@;
        proof {
            assert(odoo.ids_wf(sections@[i as int]@));
            seqs::lemma_flat_map_take(sections@, g, i as int);
            seqs::lemma_find_first_concat(prior, here, p);
        }
        if let Some(f) = first_function(odoo, &sections[i]) {
            proof {
                let rest = sections@.skip(i + 1);
                assert(sections@.take(i + 1) + rest =~= sections@);
                seqs::lemma_flat_map_concat(sections@.take(i + 1), rest, g);
                seqs::lemma_find_first_concat(
                    sections@.take(i + 1).flat_map(g),
                    rest.flat_map(g),
                    p,
                );
            }
            return Some(f);
        }
        i += 1;
    }
    assert(sections@.take(sections@.len() as int) =~= sections@);
    None
}

/// The first function that a class holds under `name`.
fn find_function(odoo: &SyncOdoo, table: &Vec<NamedSections>, name: &str) -> (res: Option<SymbolId>)
    requires
        odoo.table_wf(table@),
    ensures
        res == function_named(*odoo, table@, name@),
        res matches Some(f) ==> odoo.valid(f),
{
    let ghost q = |e: NamedSections| e.is_named(name@);
    let mut i: usize = 0;
    while i < table.len()
        invariant
            i <= table.len(),
            odoo.table_wf(table@),
            q == (|e: NamedSections| e.is_named(name@)),
            forall|j: int| 0 <= j < i ==> !q(#[trigger] table@[j]),
        decreases table.len() - i,
    {
        if same_text(&table[i].name, name) {
            proof {
                seqs::lemma_find_first_at(table@, q, i as int);
                assert(odoo.sections_wf(table@[i as int].sections@));
            }
            return first_function_of_sections(odoo, &table[i].sections);
        }
        i += 1;
    }
    proof {
        seqs::lemma_find_first_none(table@, q);
    }
    None
}

/// Where a function is, if its file is loaded and known.
fn locate(odoo: &SyncOdoo, function: SymbolId) -> (res: Option<OverrideMarkerTarget>)
    requires
        odoo.wf(),
        odoo.valid(function),
    ensures
        res is Some <==> location(*odoo, function) is Some,
        res matches Some(t) ==> location(*odoo, function) == Some(t@),
{
    assert(odoo.symbol_wf(odoo.symbols@[function as int]));
    let symbol = &odoo.symbols[function];
    if let Some(file) = symbol.file {
        let paths = &odoo.symbols[file].paths;
        if paths.len() > 0 {
            let other_path = &paths[0];
            if let Some(range) = odoo.lsp_range(&other_path.path, &symbol.range) {
                return Some(OverrideMarkerTarget { uri: other_path.uri.clone(), range });
            }
        }
    }
    None
}

/// How the methods of `class` relate to those of `other`.
fn relate(odoo: &SyncOdoo, class: SymbolId, other: SymbolId) -> (res: Option<OverrideKind>)
    requires
        odoo.wf(),
        odoo.valid(class),
        odoo.valid(other),
    ensures
        res == relation(*odoo, class, other),
{
    assert(odoo.symbol_wf(odoo.symbols@[class as int]));
    assert(odoo.symbol_wf(odoo.symbols@[other as int]));
    match (odoo.symbols[class].module, odoo.symbols[other].module) {
        (Some(current), Some(theirs)) => {
            if odoo.depends_on(current, &odoo.as_module_package(theirs).dir_name) {
                Some(OverrideKind::Overrides)
            } else if odoo.depends_on(theirs, &odoo.as_module_package(current).dir_name) {
                Some(OverrideKind::OverriddenBy)
            } else {
                None
            }
        },
        _ => None,
    }
}

/// The contents of a list of named functions.
spec fn entries_view(entries: Seq<(String, SymbolId)>) -> Seq<(Seq<char>, SymbolId)> {
    entries.map_values(|e: (String, SymbolId)| (e.0@, e.1))
}

/// The functions of a class, with their names: the first of each section.
fn list_functions(odoo: &SyncOdoo, table: &Vec<NamedSections>) -> (res: Vec<(String, SymbolId)>)
    requires
        odoo.table_wf(table@),
    ensures
        entries_view(res@) == functions_of(*odoo, table@),
        forall|i: int| 0 <= i < res@.len() ==> odoo.valid((#[trigger] res@[i]).1),
{
    let ghost f = |e: NamedSections| functions_under(*odoo, e);
    let mut entries: Vec<(String, SymbolId)> = Vec::new();
    let mut i: usize = 0;
    proof {
        assert(table@.take(0) =~= Seq::<NamedSections>::empty());
        seqs::lemma_flat_map_empty::<NamedSections, (Seq<char>, SymbolId)>(f);
        assert(entries_view(entries@) =~= Seq::<(Seq<char>, SymbolId)>::empty());
    }
    while i < table.len()
        invariant
            i <= table.len(),
            odoo.table_wf(table@),
            f == (|e: NamedSections| functions_under(*odoo, e)),
            entries_view(entries@) == table@.take(i as int).flat_map(f),
            forall|k: int| 0 <= k < entries@.len() ==> odoo.valid((#[trigger] entries@[k]).1),
        decreases table.len() - i,
    {
        let entry = &table[i];
        let sections = &entry.sections;
        let ghost h = |section: Vec<SymbolId>|
            match section_function(*odoo, section) {
                Some(f) => Some((entry.name@, f)),
                None => None,
            };
        let ghost here = entries_view(entries@);
        let mut j: usize = 0;
        proof {
            assert(odoo.sections_wf(table@[i as int].sections@));
            assert(sections@.take(0) =~= Seq::<Vec<SymbolId>>::empty());
            assert(here + Seq::<(Seq<char>, SymbolId)>::empty() =~= here);
        }
        while j < sections.len()
            invariant
                j <= sections.len(),
                odoo.sections_wf(sections@),
                h == (|section: Vec<SymbolId>|
                    match section_function(*odoo, section) {
                        Some(f) => Some((entry.name@, f)),
                        None => None,
                    }),
                entries_view(entries@) == here + sections@.take(j as int).filter_map(h),
                forall|k: int| 0 <= k < entries@.len() ==> odoo.valid((#[trigger] entries@[k]).1),
            decreases sections.len() - j,
        {
            proof {
                assert(odoo.ids_wf(sections@[j as int]@));
                seqs::lemma_filter_map_take(sections@, h, j as int);
            }
            if let Some(function) = first_function(odoo, &sections[j]) {
                let ghost before = entries@;
                entries.push((entry.name.clone(), function));
                assert(entries_view(entries@) =~= entries_view(before).push(
                    (entry.name@, function),
                ));
                assert(entries_view(entries@) =~= here + sections@.take(j as int).filter_map(
                    h,
                ).push((entry.name@, function)));
            }
            j += 1;
        }
        proof {
            assert(sections@.take(sections@.len() as int) =~= sections@);
            seqs::lemma_flat_map_take(table@, f, i as int);
        }
        i += 1;
    }
    assert(table@.take(table@.len() as int) =~= table@);
    entries
}

/// The classes of a model other than `class`.
fn list_other_classes(model: &Model, class: SymbolId) -> (res: Vec<SymbolId>)
    ensures
        res@ == other_classes(*model, class),
{
    let ghost p = |s: SymbolId| differs(s, class);
    let mut others: Vec<SymbolId> = Vec::new();
    let mut i: usize = 0;
    proof {
        reveal(Seq::filter);
        assert(model.classes@.take(0) =~= Seq::<SymbolId>::empty());
    }
    while i < model.classes.len()
        invariant
            i <= model.classes.len(),
            p == (|s: SymbolId| differs(s, class)),
            others@ == model.classes@.take(i as int).filter(p),
        decreases model.classes.len() - i,
    {
        proof {
            seqs::lemma_filter_take(model.classes@, p, i as int);
        }
        let other: SymbolId = model.classes[i];
        if other != class {
            others.push(other);
        }
        i += 1;
    }
    assert(model.classes@.take(model.classes@.len() as int) =~= model.classes@);
    others
}

/// The functions called `name` of the other classes: those that it overrides, and those that
/// override it.
fn list_targets(odoo: &SyncOdoo, class: SymbolId, others: &Vec<SymbolId>, name: &str) -> (res: (
    Vec<OverrideMarkerTarget>,
    Vec<OverrideMarkerTarget>,
))
    requires
        odoo.wf(),
        odoo.valid(class),
        odoo.classes_wf(others@),
    ensures
        targets_view(res.0@) == targets(*odoo, class, others@, name@, OverrideKind::Overrides),
        targets_view(res.1@) == targets(*odoo, class, others@, name@, OverrideKind::OverriddenBy),
{
    let ghost f0 = |other: SymbolId|
        target_in(*odoo, class, other, name@, OverrideKind::Overrides);
    let ghost f1 = |other: SymbolId|
        target_in(*odoo, class, other, name@, OverrideKind::OverriddenBy);
    let mut overrides_targets: Vec<OverrideMarkerTarget> = Vec::new();
    let mut overridden_by_targets: Vec<OverrideMarkerTarget> = Vec::new();
    let mut i: usize = 0;
    proof {
        assert(others@.take(0) =~= Seq::<SymbolId>::empty());
        assert(targets_view(overrides_targets@) =~= Seq::<Target>::empty());
        assert(targets_view(overridden_by_targets@) =~= Seq::<Target>::empty());
    }
    while i < others.len()
        invariant
            i <= others.len(),
            odoo.wf(),
            odoo.valid(class),
            odoo.classes_wf(others@),
            f0 == (|other: SymbolId|
                target_in(*odoo, class, other, name@, OverrideKind::Overrides)),
            f1 == (|other: SymbolId|
                target_in(*odoo, class, other, name@, OverrideKind::OverriddenBy)),
            targets_view(overrides_targets@) == others@.take(i as int).filter_map(f0),
            targets_view(overridden_by_targets@) == others@.take(i as int).filter_map(f1),
        decreases others.len() - i,
    {
        let other: SymbolId = others[i];
        proof {
            assert(odoo.valid(others@[i as int]));
            assert(odoo.symbol_wf(odoo.symbols@[other as int]));
            seqs::lemma_filter_map_take(others@, f0, i as int);
            seqs::lemma_filter_map_take(others@, f1, i as int);
        }
        if let Some(kind) = relate(odoo, class, other) {
            if let SymbolKind::Class(other_class) = &odoo.symbols[other].kind {
                if let Some(function) = find_function(odoo, &other_class.symbols, name) {
                    if let Some(target) = locate(odoo, function) {
                        let ghost t = target@;
                        match kind {
                            OverrideKind::Overrides => {
                                let ghost before = overrides_targets@;
                                overrides_targets.push(target);
                                assert(targets_view(overrides_targets@) =~= targets_view(
                                    before,
                                ).push(t));
                            },
                            OverrideKind::OverriddenBy => {
                                let ghost before = overridden_by_targets@;
                                overridden_by_targets.push(target);
                                assert(targets_view(overridden_by_targets@) =~= targets_view(
                                    before,
                                ).push(t));
                            },
                        }
                    }
                }
            }
        }
        i += 1;
    }
    assert(others@.take(others@.len() as int) =~= others@);
    (overrides_targets, overridden_by_targets)
}

/// Appends a marker for `targets`, unless there are none.
fn push_marker(
    line: u32,
    kind: OverrideKind,
    targets: Vec<OverrideMarkerTarget>,
    markers: &mut Vec<OverrideMarker>,
)
    ensures
        markers_view(final(markers)@) == markers_view(old(markers)@) + marker(
            line,
            kind,
            targets_view(targets@),
        ),
{
    let ghost before = markers@;
    if targets.len() > 0 {
        let kind_name = match kind {
            OverrideKind::Overrides => "overrides",
            OverrideKind::OverriddenBy => "overriddenBy",
        };
        markers.push(OverrideMarker { line, kind: kind_name.to_owned(), targets });
    }
    assert(markers_view(markers@) =~= markers_view(before) + marker(
        line,
        kind,
        targets_view(targets@),
    ));
}

/// Appends the markers of one class.
fn push_class_markers(
    odoo: &SyncOdoo,
    path: &str,
    class: SymbolId,
    markers: &mut Vec<OverrideMarker>,
)
    requires
        odoo.wf(),
        odoo.valid(class),
    ensures
        markers_view(final(markers)@) == markers_view(old(markers)@) + class_markers(
            *odoo,
            path@,
            class,
        ),
{
    let ghost before = markers_view(markers@);
    assert(before + Seq::<Marker>::empty() =~= before);
    assert(odoo.symbol_wf(odoo.symbols@[class as int]));
    let class_data = match &odoo.symbols[class].kind {
        SymbolKind::Class(class_data) => class_data,
        _ => return,
    };
    let model_name = match &class_data.model {
        Some(name) => name,
        None => return,
    };
    if model_name.as_str().is_empty() {
        return;
    }
    let model = match odoo.get_model(model_name) {
        Some(model) => model,
        None => return,
    };
    let others = list_other_classes(model, class);
    proof {
        let p = |s: SymbolId| differs(s, class);
        assert forall|k: int| 0 <= k < others@.len() implies odoo.valid(#[trigger] others@[k])
            && odoo.symbol(others@[k]).is_class() by {
            assert(others@.contains(others@[k]));
            model.classes@.lemma_filter_contains_rev(p, others@[k]);
        }
    }
    let entries = list_functions(odoo, &class_data.symbols);
    let ghost named = entries_view(entries@);
    let ghost f = |entry: (Seq<char>, SymbolId)|
        function_markers(*odoo, path@, class, others@, entry);
    let mut i: usize = 0;
    proof {
        assert(named.take(0) =~= Seq::<(Seq<char>, SymbolId)>::empty());
        seqs::lemma_flat_map_empty::<(Seq<char>, SymbolId), Marker>(f);
    }
    while i < entries.len()
        invariant
            i <= entries.len(),
            odoo.wf(),
            odoo.valid(class),
            odoo.classes_wf(others@),
            named == entries_view(entries@),
            forall|k: int| 0 <= k < entries@.len() ==> odoo.valid((#[trigger] entries@[k]).1),
            f == (|entry: (Seq<char>, SymbolId)|
                function_markers(*odoo, path@, class, others@, entry)),
            markers_view(markers@) == before + named.take(i as int).flat_map(f),
        decreases entries.len() - i,
    {
        let ghost here = markers_view(markers@);
        let function: SymbolId = entries[i].1;
        proof {
            assert(odoo.valid(entries@[i as int].1));
            assert(named[i as int] == (entries@[i as int].0@, entries@[i as int].1));
            seqs::lemma_flat_map_take(named, f, i as int);
        }
        let (overrides_targets, overridden_by_targets) = list_targets(
            odoo,
            class,
            &others,
            &entries[i].0,
        );
        if let Some(range) = odoo.lsp_range(path, &odoo.symbols[function].range) {
            let line: u32 = range.start.line;
            push_marker(line, OverrideKind::Overrides, overrides_targets, markers);
            push_marker(line, OverrideKind::OverriddenBy, overridden_by_targets, markers);
        }
        assert(markers_view(markers@) =~= here + f(named[i as int]));
        i += 1;
    }
    assert(named.take(named.len() as int) =~= named);
}

/// Computes the override markers of all Odoo model classes of a file and sends them to the
/// client. Nothing is sent for a file that is not in the workspace or has no path.
pub fn compute_and_publish_override_markers(session: &mut SessionInfo, file_sym: SymbolId)
    requires
        old(session).sync_odoo.wf(),
        old(session).sync_odoo.valid(file_sym),
    ensures
        final(session).sync_odoo == old(session).sync_odoo,
        crate::session::sent(final(session).notifications@) == (match published(
            old(session).sync_odoo,
            file_sym,
        ) {
            Some(params) => crate::session::sent(old(session).notifications@).push(
                SentNotification { method: "$Odoo/overrideMarkers"@, params },
            ),
            None => crate::session::sent(old(session).notifications@),
        }),
{
    if !session.sync_odoo.symbols[file_sym].in_workspace {
        return;
    }
    if session.sync_odoo.symbols[file_sym].paths.len() == 0 {
        return;
    }
    let params = {
        let odoo = &session.sync_odoo;
        let file_path = &odoo.symbols[file_sym].paths[0];
        let class_syms = get_classes_in_file_symbol(odoo, file_sym);
        let ghost f = |class: SymbolId| class_markers(*odoo, file_path.path@, class);
        let mut markers: Vec<OverrideMarker> = Vec::new();
        let mut i: usize = 0;
        proof {
            assert(class_syms@.take(0) =~= Seq::<SymbolId>::empty());
            seqs::lemma_flat_map_empty::<SymbolId, Marker>(f);
            assert(markers_view(markers@) =~= Seq::<Marker>::empty());
            lemma_classes_in_valid(*odoo, file_sym);
        }
        while i < class_syms.len()
            invariant
                i <= class_syms.len(),
                odoo.wf(),
                odoo.ids_wf(class_syms@),
                f == (|class: SymbolId| class_markers(*odoo, file_path.path@, class)),
                markers_view(markers@) == class_syms@.take(i as int).flat_map(f),
            decreases class_syms.len() - i,
        {
            proof {
                assert(odoo.valid(class_syms@[i as int]));
                seqs::lemma_flat_map_take(class_syms@, f, i as int);
            }
            push_class_markers(odoo, &file_path.path, class_syms[i], &mut markers);
            i += 1;
        }
        assert(class_syms@.take(class_syms@.len() as int) =~= class_syms@);
        PublishOverrideMarkersParams { uri: file_path.uri.clone(), markers }
    };
    session.send_notification("$Odoo/overrideMarkers", params);
}

/// The classes of a file are symbols, and classes.
pub proof fn lemma_classes_in_valid(odoo: SyncOdoo, file_sym: SymbolId)
    requires
        odoo.wf(),
        odoo.valid(file_sym),
    ensures
        odoo.classes_wf(classes_in(odoo, file_sym)),
        odoo.ids_wf(classes_in(odoo, file_sym)),
{
    let table = file_table(odoo.symbol(file_sym));
    assert(odoo.symbol_wf(odoo.symbols@[file_sym as int]));
    let all = table_symbols(table);
    let p = |s: SymbolId| odoo.symbol(s).is_class();
    let classes = classes_in(odoo, file_sym);
    let f = |e: NamedSections| sections_symbols(e.sections@);
    let g = |section: Vec<SymbolId>| section@;
    assert forall|k: int| 0 <= k < classes.len() implies odoo.valid(#[trigger] classes[k])
        && odoo.symbol(classes[k]).is_class() by {
        let c = classes[k];
        all.lemma_filter_pred(p, k);
        assert(classes.contains(c));
        all.lemma_filter_contains_rev(p, c);
        seqs::lemma_flat_map_contains(table, f, c);
        let i = choose|i: int| 0 <= i < table.len() && f(#[trigger] table[i]).contains(c);
        let sections = table[i].sections@;
        assert(odoo.sections_wf(table[i].sections@));
        seqs::lemma_flat_map_contains(sections, g, c);
        let j = choose|j: int| 0 <= j < sections.len() && g(#[trigger] sections[j]).contains(c);
        assert(odoo.ids_wf(sections[j]@));
        let m = choose|m: int| 0 <= m < sections[j]@.len() && sections[j]@[m] == c;
        assert(odoo.valid(sections[j]@[m]));
    }
}

/// The contents of the markers of a file leave nothing out: its URI, and every marker with its line,
/// kind and targets.
pub proof fn law_contents_of_markers(params: PublishOverrideMarkersParams)
    ensures
        params@.uri == params.uri@,
        params@.markers.len() == params.markers@.len(),
        forall|i: int|
            0 <= i < params.markers@.len() ==> (#[trigger] params@.markers[i]).line
                == params.markers@[i].line && params@.markers[i].kind == params.markers@[i].kind@
                && params@.markers[i].targets.len() == params.markers@[i].targets@.len(),
        forall|i: int, j: int|
            0 <= i < params.markers@.len() && 0 <= j < params.markers@[i].targets@.len() ==> (
            #[trigger] params@.markers[i].targets[j]).uri == params.markers@[i].targets@[j].uri@
                && params@.markers[i].targets[j].range == params.markers@[i].targets@[j].range,
{
}

} // verus!
