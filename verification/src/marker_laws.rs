//! What holds of the override markers as a whole.

use crate::lsp;
use crate::override_markers;
use crate::override_markers::{Marker, OverrideKind, Target};
use crate::seqs;
use crate::session;
use crate::session::{
    FileInfo, Model, NamedSections, PackageSymbol, Symbol, SymbolId, SymbolKind, SyncOdoo,
};
use vstd::prelude::*;

verus! {

/// Whether the modules of two classes depend on each other.
pub open spec fn mutual(odoo: SyncOdoo, a: SymbolId, b: SymbolId) -> bool {
    (odoo.symbol(a).module, odoo.symbol(b).module) matches (Some(ma), Some(mb))
        && odoo.is_in_deps(ma, odoo.symbol(mb).as_module().dir_name@)
        && odoo.is_in_deps(mb, odoo.symbol(ma).as_module().dir_name@)
}

/// An override is seen from both ends: if the methods of `a` override those of `b`, those of
/// `b` are overridden by those of `a`, and the other way round; unless the two modules depend on
/// each other, where each overrides the other.
pub proof fn law_override_seen_from_both_ends(odoo: SyncOdoo, a: SymbolId, b: SymbolId)
    ensures
        override_markers::relation(odoo, b, a) == (if mutual(odoo, a, b) {
            Some(OverrideKind::Overrides)
        } else {
            match override_markers::relation(odoo, a, b) {
                Some(OverrideKind::Overrides) => Some(OverrideKind::OverriddenBy),
                Some(OverrideKind::OverriddenBy) => Some(OverrideKind::Overrides),
                None => None,
            }
        }),
{
}

/// What a marker of `class` in the file `path` says: it stands on the line of a function of the
/// class, its kind is one of two, it has targets, and each target is the function of the same
/// name of another class of the same model that stands in that relation to `class`.
pub open spec fn marker_sound(
    odoo: SyncOdoo,
    path: Seq<char>,
    class: SymbolId,
    m: Marker,
) -> bool {
    exists|kind: OverrideKind, entry: (Seq<char>, SymbolId)| #[trigger]
        marker_sound_as(odoo, path, class, m, kind, entry)
}

/// Whether `m` marks the function `entry.1`, which `class` has under the name `entry.0`.
pub open spec fn marker_sound_as(
    odoo: SyncOdoo,
    path: Seq<char>,
    class: SymbolId,
    m: Marker,
    kind: OverrideKind,
    entry: (Seq<char>, SymbolId),
) -> bool {
    &&& function_of(odoo, class, entry)
    &&& odoo.range_in_file(path, odoo.symbol(entry.1).range) matches Some(range) && m.line
        == range.start.line
    &&& m.kind == kind.name()
    &&& m.targets.len() > 0
    &&& forall|i: int|
        0 <= i < m.targets.len() ==> target_sound(
            odoo,
            class,
            entry.0,
            #[trigger] m.targets[i],
            kind,
        )
}

/// Whether `class` has the function `entry.1` under the name `entry.0`.
pub open spec fn function_of(
    odoo: SyncOdoo,
    class: SymbolId,
    entry: (Seq<char>, SymbolId),
) -> bool {
    odoo.symbol(class).kind matches SymbolKind::Class(c) && override_markers::functions_of(
        odoo,
        c.symbols@,
    ).contains(entry)
}

/// Whether `target` is the function called `name` of a class other than `class` of the same
/// model, and that class stands in the relation `kind` to `class`.
pub open spec fn target_sound(
    odoo: SyncOdoo,
    class: SymbolId,
    name: Seq<char>,
    target: Target,
    kind: OverrideKind,
) -> bool {
    exists|other: SymbolId, function: SymbolId| #[trigger]
        target_from(odoo, class, name, target, kind, other, function)
}

/// Whether `target` is the place of `function`, which `other` has under `name`.
pub open spec fn target_from(
    odoo: SyncOdoo,
    class: SymbolId,
    name: Seq<char>,
    target: Target,
    kind: OverrideKind,
    other: SymbolId,
    function: SymbolId,
) -> bool {
    &&& other != class
    &&& same_model(odoo, class, other)
    &&& override_markers::relation(odoo, class, other) == Some(kind)
    &&& override_markers::function_named(
        odoo,
        odoo.symbol(other).kind->Class_0.symbols@,
        name,
    ) == Some(function)
    &&& odoo.symbol(function).is_function()
    &&& override_markers::location(odoo, function) == Some(target)
}

/// Whether `other` is one of the classes of the model of `class`.
pub open spec fn same_model(odoo: SyncOdoo, class: SymbolId, other: SymbolId) -> bool {
    odoo.symbol(class).kind matches SymbolKind::Class(c) && c.model matches Some(name)
        && odoo.model_named(name@) matches Some(model) && model.classes@.contains(other)
}

proof fn lemma_target_sound(
    odoo: SyncOdoo,
    class: SymbolId,
    other: SymbolId,
    name: Seq<char>,
    kind: OverrideKind,
    target: Target,
)
    requires
        other != class,
        same_model(odoo, class, other),
        override_markers::target_in(odoo, class, other, name, kind) == Some(target),
    ensures
        target_sound(odoo, class, name, target, kind),
{
    let table = odoo.symbol(other).kind->Class_0.symbols@;
    let function = override_markers::function_named(odoo, table, name).unwrap();
    let q = |e: NamedSections| e.is_named(name);
    let p = |s: SymbolId| odoo.symbol(s).is_function();
    let e = seqs::find_first(table, q).unwrap();
    seqs::lemma_find_first_holds(override_markers::sections_symbols(e.sections@), p);
    assert(target_from(odoo, class, name, target, kind, other, function));
}

proof fn lemma_marker_sound(
    odoo: SyncOdoo,
    path: Seq<char>,
    class: SymbolId,
    others: Seq<SymbolId>,
    entry: (Seq<char>, SymbolId),
    kind: OverrideKind,
    m: Marker,
)
    requires
        forall|k: int|
            0 <= k < others.len() ==> #[trigger] others[k] != class && same_model(
                odoo,
                class,
                others[k],
            ),
        function_of(odoo, class, entry),
        odoo.range_in_file(path, odoo.symbol(entry.1).range) matches Some(range)
            && override_markers::marker(
            range.start.line,
            kind,
            override_markers::targets(odoo, class, others, entry.0, kind),
        ).contains(m),
    ensures
        marker_sound(odoo, path, class, m),
{
    let name = entry.0;
    let f = |other: SymbolId| override_markers::target_in(odoo, class, other, name, kind);
    let all = others.filter_map(f);
    assert(all == override_markers::targets(odoo, class, others, name, kind));
    assert(m.targets == all);
    assert forall|i: int| 0 <= i < m.targets.len() implies target_sound(
        odoo,
        class,
        name,
        #[trigger] m.targets[i],
        kind,
    ) by {
        assert(all.contains(m.targets[i]));
        others.lemma_filter_map_contains(f, m.targets[i]);
        let other = choose|t: SymbolId| #[trigger] others.contains(t) && f(t) == Some(m.targets[i]);
        let k = choose|k: int| 0 <= k < others.len() && others[k] == other;
        assert(others[k] != class);
        lemma_target_sound(odoo, class, other, name, kind, m.targets[i]);
    }
    assert(marker_sound_as(odoo, path, class, m, kind, entry));
}

/// Every marker of a class stands on the line of one of its functions and has targets, and all
/// of them are functions of the same name of other classes of the same model, in modules that
/// stand in the relation that the marker names.
pub proof fn law_class_markers_sound(odoo: SyncOdoo, path: Seq<char>, class: SymbolId, m: Marker)
    requires
        override_markers::class_markers(odoo, path, class).contains(m),
    ensures
        marker_sound(odoo, path, class, m),
{
    let c = odoo.symbol(class).kind->Class_0;
    let model = odoo.model_named(c.model.unwrap()@).unwrap();
    let others = override_markers::other_classes(model, class);
    let entries = override_markers::functions_of(odoo, c.symbols@);
    let f = |entry: (Seq<char>, SymbolId)|
        override_markers::function_markers(
            odoo,
            path,
            class,
            override_markers::other_classes(model, class),
            entry,
        );
    let p = |s: SymbolId| override_markers::differs(s, class);
    assert forall|k: int| 0 <= k < others.len() implies #[trigger] others[k] != class
        && same_model(odoo, class, others[k]) by {
        model.classes@.lemma_filter_pred(p, k);
        assert(others.contains(others[k]));
        model.classes@.lemma_filter_contains_rev(p, others[k]);
    }
    seqs::lemma_flat_map_contains(entries, f, m);
    let i = choose|i: int| 0 <= i < entries.len() && f(#[trigger] entries[i]).contains(m);
    let entry = entries[i];
    assert(entries.contains(entry));
    let range = odoo.range_in_file(path, odoo.symbol(entry.1).range).unwrap();
    let line = range.start.line;
    let first = override_markers::marker(
        line,
        OverrideKind::Overrides,
        override_markers::targets(odoo, class, others, entry.0, OverrideKind::Overrides),
    );
    let second = override_markers::marker(
        line,
        OverrideKind::OverriddenBy,
        override_markers::targets(odoo, class, others, entry.0, OverrideKind::OverriddenBy),
    );
    let both = first + second;
    assert(f(entry) == both);
    let k = choose|k: int| 0 <= k < both.len() && both[k] == m;
    if k < first.len() {
        assert(first[k] == m);
        lemma_marker_sound(odoo, path, class, others, entry, OverrideKind::Overrides, m);
    } else {
        assert(second[k - first.len()] == m);
        lemma_marker_sound(odoo, path, class, others, entry, OverrideKind::OverriddenBy, m);
    }
}

/// Every marker that is published for a file is a sound marker of one of its classes.
pub proof fn law_published_markers_sound(odoo: SyncOdoo, file_sym: SymbolId, m: Marker)
    requires
        odoo.wf(),
        odoo.valid(file_sym),
        override_markers::published(odoo, file_sym) matches Some(p) && p.markers.contains(m),
    ensures
        exists|class: SymbolId|
            #![trigger odoo.symbol(class)]
            override_markers::classes_in(odoo, file_sym).contains(class) && odoo.symbol(
                class,
            ).is_class() && marker_sound(odoo, odoo.symbol(file_sym).paths@[0].path@, class, m),
{
    let path = odoo.symbol(file_sym).paths@[0].path@;
    let classes = override_markers::classes_in(odoo, file_sym);
    let symbol = odoo.symbol(file_sym);
    let f = |class: SymbolId|
        override_markers::class_markers(odoo, symbol.paths@[0].path@, class);
    seqs::lemma_flat_map_contains(classes, f, m);
    let i = choose|i: int| 0 <= i < classes.len() && f(#[trigger] classes[i]).contains(m);
    law_class_markers_sound(odoo, path, classes[i], m);
    override_markers::lemma_classes_in_valid(odoo, file_sym);
    assert(odoo.symbol(classes[i]).is_class());
    assert(classes.contains(classes[i]));
}

/// Every override is marked: if a function of `class` stands in the relation `kind` to the
/// function of the same name of another class of the model, and both can be located, a marker of
/// that kind on the function's line has it among its targets.
pub proof fn law_overrides_marked(
    odoo: SyncOdoo,
    path: Seq<char>,
    class: SymbolId,
    entry: (Seq<char>, SymbolId),
    other: SymbolId,
    kind: OverrideKind,
)
    requires
        odoo.symbol(class).kind matches SymbolKind::Class(c) && c.model matches Some(name)
            && name@.len() > 0 && override_markers::functions_of(odoo, c.symbols@).contains(entry),
        same_model(odoo, class, other),
        other != class,
        odoo.range_in_file(path, odoo.symbol(entry.1).range) is Some,
        override_markers::target_in(odoo, class, other, entry.0, kind) is Some,
    ensures
        exists|m: Marker| #[trigger]
            override_markers::class_markers(odoo, path, class).contains(m) && m.kind == kind.name()
                && m.line == odoo.range_in_file(
                path,
                odoo.symbol(entry.1).range,
            ).unwrap().start.line && m.targets.contains(
                override_markers::target_in(odoo, class, other, entry.0, kind).unwrap(),
            ),
{
    let c = odoo.symbol(class).kind->Class_0;
    let model = odoo.model_named(c.model.unwrap()@).unwrap();
    let others = override_markers::other_classes(model, class);
    let entries = override_markers::functions_of(odoo, c.symbols@);
    let line = odoo.range_in_file(path, odoo.symbol(entry.1).range).unwrap().start.line;
    let f = |e: (Seq<char>, SymbolId)|
        override_markers::function_markers(
            odoo,
            path,
            class,
            override_markers::other_classes(model, class),
            e,
        );
    let p = |s: SymbolId| override_markers::differs(s, class);
    let k = choose|k: int| 0 <= k < model.classes@.len() && model.classes@[k] == other;
    model.classes@.lemma_filter_contains(p, k);
    let t = |o: SymbolId| override_markers::target_in(odoo, class, o, entry.0, kind);
    let j = choose|j: int| 0 <= j < others.len() && others[j] == other;
    seqs::lemma_filter_map_keeps(others, t, j);
    let ts = override_markers::targets(odoo, class, others, entry.0, kind);
    assert(ts == others.filter_map(t));
    let m = Marker { line, kind: kind.name(), targets: ts };
    let first = override_markers::marker(
        line,
        OverrideKind::Overrides,
        override_markers::targets(odoo, class, others, entry.0, OverrideKind::Overrides),
    );
    let second = override_markers::marker(
        line,
        OverrideKind::OverriddenBy,
        override_markers::targets(odoo, class, others, entry.0, OverrideKind::OverriddenBy),
    );
    let both = first + second;
    assert(f(entry) == both);
    match kind {
        OverrideKind::Overrides => {
            assert(first[0] == m);
            assert(both[0] == m);
        },
        OverrideKind::OverriddenBy => {
            assert(second[0] == m);
            assert(both[first.len() as int] == m);
        },
    }
    assert(f(entry).contains(m));
    let i = choose|i: int| 0 <= i < entries.len() && entries[i] == entry;
    seqs::lemma_flat_map_keeps(entries, f, i, m);
    assert(override_markers::class_markers(odoo, path, class).contains(m));
}

/// A class that stands in no relation to the other classes of its model has no markers.
pub proof fn law_unrelated_class_unmarked(odoo: SyncOdoo, path: Seq<char>, class: SymbolId)
    requires
        forall|other: SymbolId|
            other != class && same_model(odoo, class, other) ==> (
            #[trigger] override_markers::relation(odoo, class, other)) is None,
    ensures
        override_markers::class_markers(odoo, path, class) == Seq::<Marker>::empty(),
{
    let markers = override_markers::class_markers(odoo, path, class);
    if markers.len() > 0 {
        let m = markers[0];
        assert(markers.contains(m));
        law_class_markers_sound(odoo, path, class, m);
        let (kind, entry) = choose|kind: OverrideKind, entry: (Seq<char>, SymbolId)| #[trigger]
            marker_sound_as(odoo, path, class, m, kind, entry);
        assert(target_sound(odoo, class, entry.0, m.targets[0], kind));
        let (other, function) = choose|other: SymbolId, function: SymbolId| #[trigger]
            target_from(odoo, class, entry.0, m.targets[0], kind, other, function);
        assert(override_markers::relation(odoo, class, other) is Some);
    }
    assert(markers =~= Seq::<Marker>::empty());
}

/// The order in which the names of a class are walked changes nothing but the order of its
/// markers.
pub proof fn law_order_of_names_orders_markers(
    odoo: SyncOdoo,
    path: Seq<char>,
    class: SymbolId,
    others: Seq<SymbolId>,
    table: Seq<NamedSections>,
    reordered: Seq<NamedSections>,
)
    requires
        table.to_multiset() == reordered.to_multiset(),
    ensures
        ({
            let f = |entry: (Seq<char>, SymbolId)|
                override_markers::function_markers(odoo, path, class, others, entry);
            override_markers::functions_of(odoo, table).flat_map(f).to_multiset()
                == override_markers::functions_of(odoo, reordered).flat_map(f).to_multiset()
        }),
{
    let g = |e: NamedSections| override_markers::functions_under(odoo, e);
    let f = |entry: (Seq<char>, SymbolId)|
        override_markers::function_markers(odoo, path, class, others, entry);
    seqs::lemma_flat_map_permuted(table, reordered, g);
    seqs::lemma_flat_map_permuted(
        override_markers::functions_of(odoo, table),
        override_markers::functions_of(odoo, reordered),
        f,
    );
}

/// Whether the module `own` lists the directory of the module `other` among its dependencies.
pub open spec fn depends_on(odoo: SyncOdoo, own: SymbolId, other: SymbolId) -> bool {
    exists|i: int|
        0 <= i < odoo.symbols@[own as int].kind->Package_0->Module_0.in_deps@.len() && (
        #[trigger] odoo.symbols@[own as int].kind->Package_0->Module_0.in_deps@[i])@
            == odoo.symbols@[other as int].kind->Package_0->Module_0.dir_name@
}

/// Whether the modules of two classes make the methods of the first override those of the second,
/// or be overridden by them.
pub open spec fn relates(
    odoo: SyncOdoo,
    class: SymbolId,
    other: SymbolId,
    kind: OverrideKind,
) -> bool {
    match (odoo.symbols@[class as int].module, odoo.symbols@[other as int].module) {
        (Some(own), Some(theirs)) => match kind {
            OverrideKind::Overrides => depends_on(odoo, own, theirs),
            OverrideKind::OverriddenBy => !depends_on(odoo, own, theirs) && depends_on(
                odoo,
                theirs,
                own,
            ),
        },
        _ => false,
    }
}

/// A class overrides what its module depends on, and is overridden by what depends on its module.
pub proof fn law_modules_relate_classes(
    odoo: SyncOdoo,
    class: SymbolId,
    other: SymbolId,
    kind: OverrideKind,
)
    ensures
        override_markers::relation(odoo, class, other) == Some(kind) <==> relates(
            odoo,
            class,
            other,
            kind,
        ),
{
    if let (Some(own), Some(theirs)) = (odoo.symbol(class).module, odoo.symbol(other).module) {
        lemma_depends_on(odoo, own, theirs);
        lemma_depends_on(odoo, theirs, own);
    }
}

proof fn lemma_depends_on(odoo: SyncOdoo, own: SymbolId, other: SymbolId)
    ensures
        depends_on(odoo, own, other) <==> odoo.is_in_deps(
            own,
            odoo.symbol(other).as_module().dir_name@,
        ),
{
    let deps = odoo.symbol(own).as_module().in_deps@;
    let name = odoo.symbol(other).as_module().dir_name@;
    if odoo.is_in_deps(own, name) {
        let i = choose|i: int| 0 <= i < deps.len() && (#[trigger] deps[i])@ == name;
        assert(odoo.symbols@[own as int].kind->Package_0->Module_0.in_deps@[i]@ == name);
    }
    if depends_on(odoo, own, other) {
        let i = choose|i: int|
            0 <= i < odoo.symbols@[own as int].kind->Package_0->Module_0.in_deps@.len() && (
            #[trigger] odoo.symbols@[own as int].kind->Package_0->Module_0.in_deps@[i])@ == name;
        assert(deps[i]@ == name);
    }
}

/// Whether the symbol `id` is a function.
pub open spec fn is_function(odoo: SyncOdoo, id: SymbolId) -> bool {
    odoo.symbols@[id as int].kind is Function
}

/// Whether the first function of a section is at the place `k`.
pub open spec fn is_first_function(odoo: SyncOdoo, section: Seq<SymbolId>, k: int) -> bool {
    &&& 0 <= k < section.len()
    &&& is_function(odoo, section[k])
    &&& forall|j: int| 0 <= j < k ==> !is_function(odoo, #[trigger] section[j])
}

/// Whether a section holds no function.
pub open spec fn has_no_function(odoo: SyncOdoo, section: Seq<SymbolId>) -> bool {
    forall|j: int| 0 <= j < section.len() ==> !is_function(odoo, #[trigger] section[j])
}

/// Whether the first function of some sections is in the section `j`, at the place `k`.
pub open spec fn is_first_of_sections(
    odoo: SyncOdoo,
    sections: Seq<Vec<SymbolId>>,
    j: int,
    k: int,
) -> bool {
    &&& 0 <= j < sections.len()
    &&& is_first_function(odoo, sections[j]@, k)
    &&& forall|i: int| 0 <= i < j ==> has_no_function(odoo, (#[trigger] sections[i])@)
}

/// Whether the first entry called `name` of a table is at the place `i`.
pub open spec fn is_first_entry(table: Seq<NamedSections>, name: Seq<char>, i: int) -> bool {
    &&& 0 <= i < table.len()
    &&& table[i].name@ == name
    &&& forall|j: int| 0 <= j < i ==> (#[trigger] table[j]).name@ != name
}

/// Whether `function` is the function that a class has under `name`: the first one in the sections
/// of the first entry of that name.
pub open spec fn is_function_named(
    odoo: SyncOdoo,
    table: Seq<NamedSections>,
    name: Seq<char>,
    function: SymbolId,
) -> bool {
    exists|i: int, j: int, k: int|
        #![trigger is_first_entry(table, name, i), is_first_of_sections(odoo, table[i].sections@, j, k)]
        is_first_entry(table, name, i) && is_first_of_sections(odoo, table[i].sections@, j, k)
            && table[i].sections@[j]@[k] == function
}

/// The first function of some sections is found in the first section that has one.
proof fn lemma_first_of_sections(odoo: SyncOdoo, sections: Seq<Vec<SymbolId>>)
    ensures
        forall|j: int, k: int| #[trigger]
            is_first_of_sections(odoo, sections, j, k) ==> seqs::find_first(
                override_markers::sections_symbols(sections),
                |s: SymbolId| odoo.symbol(s).is_function(),
            ) == Some(sections[j]@[k]),
        seqs::find_first(
            override_markers::sections_symbols(sections),
            |s: SymbolId| odoo.symbol(s).is_function(),
        ) is Some ==> exists|j: int, k: int| #[trigger]
            is_first_of_sections(odoo, sections, j, k),
    decreases sections.len(),
{
    let p = |s: SymbolId| odoo.symbol(s).is_function();
    let g = |section: Vec<SymbolId>| section@;
    let all = override_markers::sections_symbols(sections);
    if sections.len() == 0 {
        assert(sections =~= Seq::<Vec<SymbolId>>::empty());
        seqs::lemma_flat_map_empty::<Vec<SymbolId>, SymbolId>(g);
    } else {
        let rest = sections.drop_first();
        let first = sections[0]@;
        lemma_first_of_sections(odoo, rest);
        assert(sections =~= seq![sections[0]] + rest);
        seqs::lemma_flat_map_concat(seq![sections[0]], rest, g);
        seqs::lemma_flat_map_one(sections[0], g);
        let others = override_markers::sections_symbols(rest);
        assert(all == first + others);
        seqs::lemma_find_first_concat(first, others, p);
        assert forall|j: int, k: int| #[trigger]
            is_first_of_sections(odoo, sections, j, k) implies seqs::find_first(all, p) == Some(
            sections[j]@[k],
        ) by {
            if j == 0 {
                assert forall|i: int| 0 <= i < k implies !p(#[trigger] first[i]) by {}
                seqs::lemma_find_first_at(first, p, k);
            } else {
                assert(has_no_function(odoo, sections[0]@));
                assert forall|i: int| 0 <= i < first.len() implies !p(#[trigger] first[i]) by {}
                seqs::lemma_find_first_none(first, p);
                assert(rest[j - 1] == sections[j]);
                assert forall|i: int| 0 <= i < j - 1 implies has_no_function(
                    odoo,
                    (#[trigger] rest[i])@,
                ) by {
                    assert(rest[i] == sections[i + 1]);
                }
                assert(is_first_of_sections(odoo, rest, j - 1, k));
            }
        }
        if seqs::find_first(all, p) is Some {
            if seqs::find_first(first, p) is Some {
                seqs::lemma_first_place(first, p);
                let k = choose|k: int|
                    0 <= k < first.len() && p(#[trigger] first[k]) && seqs::find_first(first, p)
                        == Some(first[k]) && forall|j: int| 0 <= j < k ==> !p(#[trigger] first[j]);
                assert forall|j: int| 0 <= j < k implies !is_function(
                    odoo,
                    #[trigger] first[j],
                ) by {
                    assert(!p(first[j]));
                }
                assert(is_first_of_sections(odoo, sections, 0, k));
            } else {
                let (j, k) = choose|j: int, k: int| #[trigger]
                    is_first_of_sections(odoo, rest, j, k);
                assert forall|i: int| 0 <= i < first.len() implies !is_function(
                    odoo,
                    #[trigger] first[i],
                ) by {
                    if is_function(odoo, first[i]) {
                        lemma_found(first, p, i);
                    }
                }
                assert forall|i: int| 0 <= i < j + 1 implies has_no_function(
                    odoo,
                    (#[trigger] sections[i])@,
                ) by {
                    if i > 0 {
                        assert(rest[i - 1] == sections[i]);
                    }
                }
                assert(sections[j + 1] == rest[j]);
                assert(is_first_of_sections(odoo, sections, j + 1, k));
            }
        }
    }
}

/// Where something is, something is found.
proof fn lemma_found<A>(s: Seq<A>, p: spec_fn(A) -> bool, i: int)
    requires
        0 <= i < s.len(),
        p(s[i]),
    ensures
        seqs::find_first(s, p) is Some,
    decreases s.len(),
{
    if !p(s.first()) {
        assert(s.drop_first()[i - 1] == s[i]);
        lemma_found(s.drop_first(), p, i - 1);
    }
}

/// What a class has under a name is the first function of the first entry of that name.
pub proof fn law_function_of_a_name(
    odoo: SyncOdoo,
    table: Seq<NamedSections>,
    name: Seq<char>,
    function: SymbolId,
)
    ensures
        override_markers::function_named(odoo, table, name) == Some(function) <==> is_function_named(
            odoo,
            table,
            name,
            function,
        ),
{
    let q = |e: NamedSections| e.is_named(name);
    if is_function_named(odoo, table, name, function) {
        let (i, j, k) = choose|i: int, j: int, k: int|
            #![trigger is_first_entry(table, name, i), is_first_of_sections(odoo, table[i].sections@, j, k)]
            is_first_entry(table, name, i) && is_first_of_sections(odoo, table[i].sections@, j, k)
                && table[i].sections@[j]@[k] == function;
        assert forall|m: int| 0 <= m < i implies !q(#[trigger] table[m]) by {}
        seqs::lemma_find_first_at(table, q, i);
        lemma_first_of_sections(odoo, table[i].sections@);
    }
    if override_markers::function_named(odoo, table, name) == Some(function) {
        seqs::lemma_first_place(table, q);
        let i = choose|i: int|
            0 <= i < table.len() && q(#[trigger] table[i]) && seqs::find_first(table, q) == Some(
                table[i],
            ) && forall|j: int| 0 <= j < i ==> !q(#[trigger] table[j]);
        assert forall|j: int| 0 <= j < i implies (#[trigger] table[j]).name@ != name by {
            assert(!q(table[j]));
        }
        assert(is_first_entry(table, name, i));
        let sections = table[i].sections@;
        lemma_first_of_sections(odoo, sections);
        let (j, k) = choose|j: int, k: int| #[trigger] is_first_of_sections(odoo, sections, j, k);
        assert(sections[j]@[k] == function);
    }
}

/// Whether the first known file at `path` is at the place `n`.
pub open spec fn is_file_at(odoo: SyncOdoo, path: Seq<char>, n: int) -> bool {
    &&& 0 <= n < odoo.files@.len()
    &&& odoo.files@[n].path@ == path
    &&& forall|j: int| 0 <= j < n ==> (#[trigger] odoo.files@[j]).path@ != path
}

/// Whether `range` is where the bytes of a symbol are in the known file at `path`.
pub open spec fn is_range_in(
    odoo: SyncOdoo,
    path: Seq<char>,
    symbol: SymbolId,
    range: lsp::Range,
) -> bool {
    exists|n: int| #[trigger]
        is_file_at(odoo, path, n) && session::byte_at(
            odoo.files@[n],
            odoo.symbols@[symbol as int].range.start,
            range.start,
        ) && session::byte_at(
            odoo.files@[n],
            odoo.symbols@[symbol as int].range.end,
            range.end,
        )
}

proof fn lemma_range_in(odoo: SyncOdoo, path: Seq<char>, symbol: SymbolId, range: lsp::Range)
    ensures
        is_range_in(odoo, path, symbol, range) <==> odoo.range_in_file(
            path,
            odoo.symbol(symbol).range,
        ) == Some(range),
{
    let bytes = odoo.symbol(symbol).range;
    if is_range_in(odoo, path, symbol, range) {
        let n = choose|n: int| #[trigger]
            is_file_at(odoo, path, n) && session::byte_at(odoo.files@[n], bytes.start, range.start)
                && session::byte_at(odoo.files@[n], bytes.end, range.end);
        session::law_first_file_locates(odoo, path, bytes, n);
    }
    if odoo.range_in_file(path, bytes) == Some(range) {
        let p = |f: FileInfo| f.is_at(path);
        seqs::lemma_first_place(odoo.files@, p);
        let n = choose|n: int|
            0 <= n < odoo.files@.len() && p(#[trigger] odoo.files@[n]) && seqs::find_first(
                odoo.files@,
                p,
            ) == Some(odoo.files@[n]) && forall|j: int| 0 <= j < n ==> !p(#[trigger] odoo.files@[j]);
        assert forall|j: int| 0 <= j < n implies (#[trigger] odoo.files@[j]).path@ != path by {
            assert(!p(odoo.files@[j]));
        }
        assert(is_file_at(odoo, path, n));
        session::law_first_file_locates(odoo, path, bytes, n);
    }
}

/// Whether `target` is where a function is: in the loaded file that holds it, by the first path of
/// that file.
pub open spec fn is_place_of(odoo: SyncOdoo, function: SymbolId, target: Target) -> bool {
    odoo.symbols@[function as int].file matches Some(file) && odoo.symbols@[file as int].paths@.len()
        > 0 && target.uri == odoo.symbols@[file as int].paths@[0].uri@ && is_range_in(
        odoo,
        odoo.symbols@[file as int].paths@[0].path@,
        function,
        target.range,
    )
}

/// A function is located in its file, if that is loaded, has a path and is known.
pub proof fn law_function_is_located(odoo: SyncOdoo, function: SymbolId, target: Target)
    ensures
        override_markers::location(odoo, function) == Some(target) <==> is_place_of(
            odoo,
            function,
            target,
        ),
{
    if let Some(file) = odoo.symbol(function).file {
        if odoo.symbol(file).paths@.len() > 0 {
            let path = odoo.symbol(file).paths@[0].path@;
            lemma_range_in(odoo, path, function, target.range);
            if let Some(range) = odoo.range_in_file(path, odoo.symbol(function).range) {
                lemma_range_in(odoo, path, function, range);
            }
        }
    }
}

/// Whether `target` is the other end of the relation `kind` between the function `name` of `class`
/// and that of `other`.
pub open spec fn is_other_end(
    odoo: SyncOdoo,
    class: SymbolId,
    other: SymbolId,
    name: Seq<char>,
    kind: OverrideKind,
    target: Target,
) -> bool {
    relates(odoo, class, other, kind) && exists|function: SymbolId| #[trigger]
        is_function_named(
            odoo,
            odoo.symbols@[other as int].kind->Class_0.symbols@,
            name,
            function,
        ) && is_place_of(odoo, function, target)
}

/// The other end of a relation is the function of the same name of the other class.
pub proof fn law_other_end(
    odoo: SyncOdoo,
    class: SymbolId,
    other: SymbolId,
    name: Seq<char>,
    kind: OverrideKind,
    target: Target,
)
    ensures
        override_markers::target_in(odoo, class, other, name, kind) == Some(target) <==> is_other_end(
            odoo,
            class,
            other,
            name,
            kind,
            target,
        ),
{
    let table = odoo.symbol(other).kind->Class_0.symbols@;
    law_modules_relate_classes(odoo, class, other, kind);
    if is_other_end(odoo, class, other, name, kind, target) {
        let function = choose|function: SymbolId| #[trigger]
            is_function_named(odoo, table, name, function) && is_place_of(odoo, function, target);
        law_function_of_a_name(odoo, table, name, function);
        law_function_is_located(odoo, function, target);
    }
    if let Some(function) = override_markers::function_named(odoo, table, name) {
        law_function_of_a_name(odoo, table, name, function);
        law_function_is_located(odoo, function, target);
    }
}

/// Whether `option` is the other end of the relation `kind` in `other`, if there is one.
pub open spec fn is_end_in(
    odoo: SyncOdoo,
    class: SymbolId,
    other: SymbolId,
    name: Seq<char>,
    kind: OverrideKind,
    option: Option<Target>,
) -> bool {
    match option {
        Some(target) => is_other_end(odoo, class, other, name, kind, target),
        None => forall|target: Target| !#[trigger]
            is_other_end(odoo, class, other, name, kind, target),
    }
}

/// Whether `targets` are the other ends of the relation `kind` in `others`, in order.
pub open spec fn are_other_ends(
    odoo: SyncOdoo,
    class: SymbolId,
    others: Seq<SymbolId>,
    name: Seq<char>,
    kind: OverrideKind,
    targets: Seq<Target>,
) -> bool {
    exists|options: Seq<Option<Target>>|
        options.len() == others.len() && #[trigger] seqs::is_selection(options, targets)
            && forall|k: int|
            0 <= k < options.len() ==> is_end_in(
                odoo,
                class,
                others[k],
                name,
                kind,
                #[trigger] options[k],
            )
}

/// The targets of a function are the functions of the same name of all the other classes that
/// stand in the relation, in order and each once.
pub proof fn law_targets_are_all_other_ends(
    odoo: SyncOdoo,
    class: SymbolId,
    others: Seq<SymbolId>,
    name: Seq<char>,
    kind: OverrideKind,
)
    ensures
        are_other_ends(
            odoo,
            class,
            others,
            name,
            kind,
            override_markers::targets(odoo, class, others, name, kind),
        ),
{
    let f = |other: SymbolId| override_markers::target_in(odoo, class, other, name, kind);
    seqs::lemma_filter_map_selects(others, f);
    let options = others.map_values(f);
    assert forall|k: int| 0 <= k < options.len() implies is_end_in(
        odoo,
        class,
        others[k],
        name,
        kind,
        #[trigger] options[k],
    ) by {
        if let Some(target) = options[k] {
            law_other_end(odoo, class, others[k], name, kind, target);
        } else {
            assert forall|target: Target| !#[trigger]
                is_other_end(odoo, class, others[k], name, kind, target) by {
                law_other_end(odoo, class, others[k], name, kind, target);
            }
        }
    }
    assert(seqs::is_selection(
        options,
        override_markers::targets(odoo, class, others, name, kind),
    ));
}

/// Whether `part` is a marker of one kind for `targets`, or nothing if there are none.
pub open spec fn is_marker_for(
    line: u32,
    kind: Seq<char>,
    targets: Seq<Target>,
    part: Seq<Marker>,
) -> bool {
    &&& targets.len() == 0 ==> part.len() == 0
    &&& targets.len() > 0 ==> part == seq![Marker { line, kind, targets }]
}

/// A function that can be located has a marker for all that it overrides and one for all that it is
/// overridden by, in this order, where there is any; both stand on the line where it starts. A
/// function of an unknown file has none.
pub proof fn law_markers_of_a_function(
    odoo: SyncOdoo,
    path: Seq<char>,
    class: SymbolId,
    others: Seq<SymbolId>,
    entry: (Seq<char>, SymbolId),
)
    ensures
        forall|range: lsp::Range| #[trigger]
            is_range_in(odoo, path, entry.1, range) ==> exists|
                above: Seq<Target>,
                below: Seq<Target>,
                first: Seq<Marker>,
                second: Seq<Marker>,
            |
                #![trigger is_marker_for(range.start.line, "overrides"@, above, first), is_marker_for(
                    range.start.line,
                    "overriddenBy"@,
                    below,
                    second,
                )]
                are_other_ends(odoo, class, others, entry.0, OverrideKind::Overrides, above)
                    && are_other_ends(
                    odoo,
                    class,
                    others,
                    entry.0,
                    OverrideKind::OverriddenBy,
                    below,
                ) && is_marker_for(range.start.line, "overrides"@, above, first) && is_marker_for(
                    range.start.line,
                    "overriddenBy"@,
                    below,
                    second,
                ) && override_markers::function_markers(odoo, path, class, others, entry) == first
                    + second,
        (forall|range: lsp::Range| !#[trigger] is_range_in(odoo, path, entry.1, range))
            ==> override_markers::function_markers(odoo, path, class, others, entry).len() == 0,
{
    let above = override_markers::targets(odoo, class, others, entry.0, OverrideKind::Overrides);
    let below = override_markers::targets(odoo, class, others, entry.0, OverrideKind::OverriddenBy);
    law_targets_are_all_other_ends(odoo, class, others, entry.0, OverrideKind::Overrides);
    law_targets_are_all_other_ends(odoo, class, others, entry.0, OverrideKind::OverriddenBy);
    assert forall|range: lsp::Range| #[trigger]
        is_range_in(odoo, path, entry.1, range) implies exists|
        above: Seq<Target>,
        below: Seq<Target>,
        first: Seq<Marker>,
        second: Seq<Marker>,
    |
        #![trigger is_marker_for(range.start.line, "overrides"@, above, first), is_marker_for(
            range.start.line,
            "overriddenBy"@,
            below,
            second,
        )]
        are_other_ends(odoo, class, others, entry.0, OverrideKind::Overrides, above)
            && are_other_ends(odoo, class, others, entry.0, OverrideKind::OverriddenBy, below)
            && is_marker_for(range.start.line, "overrides"@, above, first) && is_marker_for(
            range.start.line,
            "overriddenBy"@,
            below,
            second,
        ) && override_markers::function_markers(odoo, path, class, others, entry) == first
            + second by {
        lemma_range_in(odoo, path, entry.1, range);
        let line = range.start.line;
        let first = override_markers::marker(line, OverrideKind::Overrides, above);
        let second = override_markers::marker(line, OverrideKind::OverriddenBy, below);
        assert(is_marker_for(line, "overrides"@, above, first));
        assert(is_marker_for(line, "overriddenBy"@, below, second));
    }
    if let Some(range) = odoo.range_in_file(path, odoo.symbol(entry.1).range) {
        lemma_range_in(odoo, path, entry.1, range);
    }
}

/// Whether `option` is the first function of a section, with the name that the section stands
/// under.
pub open spec fn is_function_of_section(
    odoo: SyncOdoo,
    name: Seq<char>,
    section: Seq<SymbolId>,
    option: Option<(Seq<char>, SymbolId)>,
) -> bool {
    match option {
        Some(entry) => entry.0 == name && exists|k: int| #[trigger]
            is_first_function(odoo, section, k) && section[k] == entry.1,
        None => has_no_function(odoo, section),
    }
}

/// Whether `part` are the functions of an entry of a class: the first of each section that has one.
pub open spec fn are_functions_of_entry(
    odoo: SyncOdoo,
    entry: NamedSections,
    part: Seq<(Seq<char>, SymbolId)>,
) -> bool {
    exists|options: Seq<Option<(Seq<char>, SymbolId)>>|
        options.len() == entry.sections@.len() && #[trigger] seqs::is_selection(options, part)
            && forall|j: int|
            0 <= j < options.len() ==> is_function_of_section(
                odoo,
                entry.name@,
                entry.sections@[j]@,
                #[trigger] options[j],
            )
}

/// The functions of a class are the first of each section, section by section and name by name.
pub proof fn law_functions_of_a_class(odoo: SyncOdoo, table: Seq<NamedSections>)
    ensures
        exists|parts: Seq<Seq<(Seq<char>, SymbolId)>>|
            parts.len() == table.len() && override_markers::functions_of(odoo, table)
                == #[trigger] parts.flatten() && forall|i: int|
                0 <= i < parts.len() ==> are_functions_of_entry(odoo, table[i], #[trigger] parts[i]),
{
    let f = |e: NamedSections| override_markers::functions_under(odoo, e);
    let parts = table.map_values(f);
    assert forall|i: int| 0 <= i < parts.len() implies are_functions_of_entry(
        odoo,
        table[i],
        #[trigger] parts[i],
    ) by {
        let entry = table[i];
        let sections = entry.sections@;
        let g = |section: Vec<SymbolId>|
            match override_markers::section_function(odoo, section) {
                Some(f) => Some((entry.name@, f)),
                None => None,
            };
        seqs::lemma_filter_map_selects(sections, g);
        let options = sections.map_values(g);
        assert forall|j: int| 0 <= j < options.len() implies is_function_of_section(
            odoo,
            entry.name@,
            sections[j]@,
            #[trigger] options[j],
        ) by {
            let section = sections[j]@;
            let p = |s: SymbolId| odoo.symbol(s).is_function();
            if seqs::find_first(section, p) is Some {
                seqs::lemma_first_place(section, p);
                let k = choose|k: int|
                    0 <= k < section.len() && p(#[trigger] section[k]) && seqs::find_first(
                        section,
                        p,
                    ) == Some(section[k]) && forall|m: int|
                        0 <= m < k ==> !p(#[trigger] section[m]);
                assert forall|m: int| 0 <= m < k implies !is_function(
                    odoo,
                    #[trigger] section[m],
                ) by {
                    assert(!p(section[m]));
                }
                assert(is_first_function(odoo, section, k));
            } else {
                assert forall|m: int| 0 <= m < section.len() implies !is_function(
                    odoo,
                    #[trigger] section[m],
                ) by {
                    if is_function(odoo, section[m]) {
                        lemma_found(section, p, m);
                    }
                }
            }
        }
        assert(seqs::is_selection(options, parts[i]));
    }
    assert(override_markers::functions_of(odoo, table) == parts.flatten());
}

/// Whether `table` holds the names of a symbol: of a file, or of a package of either kind.
pub open spec fn is_table_of(symbol: Symbol, table: Seq<NamedSections>) -> bool {
    match symbol.kind {
        SymbolKind::File(names) => table == names@,
        SymbolKind::Package(PackageSymbol::Module(module)) => table == module.symbols@,
        SymbolKind::Package(PackageSymbol::PythonPackage(names)) => table == names@,
        _ => false,
    }
}

/// Whether `option` is a symbol, if it is a class.
pub open spec fn is_class_itself(
    odoo: SyncOdoo,
    id: SymbolId,
    option: Option<SymbolId>,
) -> bool {
    &&& odoo.symbols@[id as int].kind is Class ==> option == Some(id)
    &&& odoo.symbols@[id as int].kind !is Class ==> option is None
}

/// Whether `part` are the classes of a section, in order.
pub open spec fn are_classes_of_section(
    odoo: SyncOdoo,
    section: Seq<SymbolId>,
    part: Seq<SymbolId>,
) -> bool {
    exists|options: Seq<Option<SymbolId>>|
        options.len() == section.len() && #[trigger] seqs::is_selection(options, part)
            && forall|k: int|
            0 <= k < options.len() ==> is_class_itself(odoo, section[k], #[trigger] options[k])
}

/// Whether `part` are the classes of an entry, section by section.
pub open spec fn are_classes_of_entry(
    odoo: SyncOdoo,
    entry: NamedSections,
    part: Seq<SymbolId>,
) -> bool {
    exists|parts: Seq<Seq<SymbolId>>|
        parts.len() == entry.sections@.len() && part == #[trigger] parts.flatten() && forall|j: int|
            0 <= j < parts.len() ==> are_classes_of_section(
                odoo,
                entry.sections@[j]@,
                #[trigger] parts[j],
            )
}

/// The classes of a file or package are all the classes in its table, in order and each as often
/// as it stands there. Any other symbol has none.
pub proof fn law_classes_of_a_file(odoo: SyncOdoo, file_sym: SymbolId, table: Seq<NamedSections>)
    ensures
        is_table_of(odoo.symbols@[file_sym as int], table) ==> exists|parts: Seq<Seq<SymbolId>>|
            parts.len() == table.len() && override_markers::classes_in(odoo, file_sym)
                == #[trigger] parts.flatten() && forall|i: int|
                0 <= i < parts.len() ==> are_classes_of_entry(odoo, table[i], #[trigger] parts[i]),
        odoo.symbols@[file_sym as int].kind !is File && odoo.symbols@[file_sym as int].kind
            !is Package ==> override_markers::classes_in(odoo, file_sym).len() == 0,
{
    let p = |s: SymbolId| odoo.symbol(s).is_class();
    let f = |e: NamedSections| override_markers::sections_symbols(e.sections@);
    let g = |section: Vec<SymbolId>| section@;
    let fp = |e: NamedSections| override_markers::sections_symbols(e.sections@).filter(p);
    let gp = |section: Vec<SymbolId>| section@.filter(p);
    if is_table_of(odoo.symbol(file_sym), table) {
        seqs::lemma_flat_map_filter(table, f, p, fp);
        let parts = table.map_values(fp);
        assert(override_markers::classes_in(odoo, file_sym) == parts.flatten());
        assert forall|i: int| 0 <= i < parts.len() implies are_classes_of_entry(
            odoo,
            table[i],
            #[trigger] parts[i],
        ) by {
            let sections = table[i].sections@;
            seqs::lemma_flat_map_filter(sections, g, p, gp);
            let inner = sections.map_values(gp);
            assert(parts[i] == inner.flatten());
            assert forall|j: int| 0 <= j < inner.len() implies are_classes_of_section(
                odoo,
                sections[j]@,
                #[trigger] inner[j],
            ) by {
                let section = sections[j]@;
                let h = |a: SymbolId|
                    if p(a) {
                        Some(a)
                    } else {
                        None
                    };
                seqs::lemma_filter_selects(section, p);
                let options = section.map_values(h);
                assert(seqs::is_selection(options, inner[j]));
                assert forall|k: int| 0 <= k < options.len() implies is_class_itself(
                    odoo,
                    section[k],
                    #[trigger] options[k],
                ) by {}
            }
        }
    } else {
        seqs::lemma_flat_map_empty::<NamedSections, SymbolId>(f);
        reveal(Seq::filter);
    }
}

/// Whether `option` is a class other than `class`.
pub open spec fn is_another(class: SymbolId, other: SymbolId, option: Option<SymbolId>) -> bool {
    &&& other != class ==> option == Some(other)
    &&& other == class ==> option is None
}

/// Whether `others` are the classes of a model without `class`, in order.
pub open spec fn are_others(
    classes: Seq<SymbolId>,
    class: SymbolId,
    others: Seq<SymbolId>,
) -> bool {
    exists|options: Seq<Option<SymbolId>>|
        options.len() == classes.len() && #[trigger] seqs::is_selection(options, others)
            && forall|k: int|
            0 <= k < options.len() ==> is_another(class, classes[k], #[trigger] options[k])
}

proof fn lemma_others(model: Model, class: SymbolId)
    ensures
        are_others(
            model.classes@,
            class,
            override_markers::other_classes(model, class),
        ),
{
    let p = |s: SymbolId| override_markers::differs(s, class);
    let h = |a: SymbolId|
        if p(a) {
            Some(a)
        } else {
            None
        };
    seqs::lemma_filter_selects(model.classes@, p);
    let options = model.classes@.map_values(h);
    assert(seqs::is_selection(options, override_markers::other_classes(model, class)));
    assert forall|k: int| 0 <= k < options.len() implies is_another(
        class,
        model.classes@[k],
        #[trigger] options[k],
    ) by {}
}

/// Whether `m` is the place of the first model called `name`.
pub open spec fn is_model_at(odoo: SyncOdoo, name: Seq<char>, m: int) -> bool {
    &&& 0 <= m < odoo.models@.len()
    &&& odoo.models@[m].name@ == name
    &&& forall|j: int| 0 <= j < m ==> (#[trigger] odoo.models@[j]).name@ != name
}

/// The markers of a class of a known model are those of its functions, function by function,
/// towards all the other classes of the model. A class of no model, of a model without a name or
/// of an unknown one has none; nor has what is no class.
pub proof fn law_markers_of_a_class(odoo: SyncOdoo, path: Seq<char>, class: SymbolId, m: int)
    ensures
        odoo.symbols@[class as int].kind matches SymbolKind::Class(c) && c.model matches Some(name)
            && name@.len() > 0 && is_model_at(odoo, name@, m) ==> exists|
            others: Seq<SymbolId>,
            parts: Seq<Seq<Marker>>,
        |
            #![trigger are_others(odoo.models@[m].classes@, class, others), parts.flatten()]
            {
                let functions = override_markers::functions_of(
                    odoo,
                    odoo.symbols@[class as int].kind->Class_0.symbols@,
                );
                &&& are_others(odoo.models@[m].classes@, class, others)
                &&& parts.len() == functions.len()
                &&& override_markers::class_markers(odoo, path, class) == parts.flatten()
                &&& forall|i: int|
                    0 <= i < parts.len() ==> #[trigger] parts[i]
                        == override_markers::function_markers(
                        odoo,
                        path,
                        class,
                        others,
                        functions[i],
                    )
            },
        !(odoo.symbols@[class as int].kind matches SymbolKind::Class(c) && c.model matches Some(
            name,
        ) && name@.len() > 0 && exists|j: int|
            0 <= j < odoo.models@.len() && (#[trigger] odoo.models@[j]).name@ == name@)
            ==> override_markers::class_markers(odoo, path, class).len() == 0,
{
    if let SymbolKind::Class(c) = odoo.symbol(class).kind {
        if let Some(name) = c.model {
            if name@.len() > 0 {
                if is_model_at(odoo, name@, m) {
                    session::law_first_model_of_a_name(odoo, name@, m);
                    let model = odoo.models@[m];
                    let others = override_markers::other_classes(model, class);
                    let functions = override_markers::functions_of(odoo, c.symbols@);
                    let f = |entry: (Seq<char>, SymbolId)|
                        override_markers::function_markers(
                            odoo,
                            path,
                            class,
                            override_markers::other_classes(model, class),
                            entry,
                        );
                    let parts = functions.map_values(f);
                    lemma_others(model, class);
                    assert(override_markers::class_markers(odoo, path, class) == parts.flatten());
                }
                if !exists|j: int|
                    0 <= j < odoo.models@.len() && (#[trigger] odoo.models@[j]).name@ == name@ {
                    session::law_first_model_of_a_name(
                        odoo,
                        name@,
                        odoo.models@.len() as int,
                    );
                }
            }
        }
    }
}

/// What is published for a file of the workspace with a path are the markers of all its classes,
/// class by class, under the file's URI. Nothing is published for any other file.
pub proof fn law_markers_of_a_file(odoo: SyncOdoo, file_sym: SymbolId)
    ensures
        ({
            let symbol = odoo.symbols@[file_sym as int];
            let classes = override_markers::classes_in(odoo, file_sym);
            &&& override_markers::published(odoo, file_sym) is Some <==> symbol.in_workspace
                && symbol.paths@.len() > 0
            &&& override_markers::published(odoo, file_sym) matches Some(params) ==> params.uri
                == symbol.paths@[0].uri@ && exists|parts: Seq<Seq<Marker>>|
                parts.len() == classes.len() && params.markers == #[trigger] parts.flatten()
                    && forall|i: int|
                    0 <= i < parts.len() ==> #[trigger] parts[i] == override_markers::class_markers(
                        odoo,
                        symbol.paths@[0].path@,
                        classes[i],
                    )
        }),
{
    let symbol = odoo.symbol(file_sym);
    let classes = override_markers::classes_in(odoo, file_sym);
    if let Some(params) = override_markers::published(odoo, file_sym) {
        let f = |class: SymbolId|
            override_markers::class_markers(odoo, symbol.paths@[0].path@, class);
        let parts = classes.map_values(f);
        assert(params.markers == parts.flatten());
    }
}

/// Whether `class` is a class that stands in the table of a file or package.
pub open spec fn stands_in_file(odoo: SyncOdoo, file_sym: SymbolId, class: SymbolId) -> bool {
    odoo.symbols@[class as int].kind is Class && exists|
        table: Seq<NamedSections>,
        i: int,
        j: int,
        k: int,
    | #[trigger]
        is_in_table(odoo.symbols@[file_sym as int], class, table, i, j, k)
}

/// Whether `id` is the symbol `k` of the section `j` of the entry `i` of a symbol's table.
pub open spec fn is_in_table(
    symbol: Symbol,
    id: SymbolId,
    table: Seq<NamedSections>,
    i: int,
    j: int,
    k: int,
) -> bool {
    &&& is_table_of(symbol, table)
    &&& 0 <= i < table.len()
    &&& 0 <= j < table[i].sections@.len()
    &&& 0 <= k < table[i].sections@[j]@.len()
    &&& table[i].sections@[j]@[k] == id
}

/// Every class that stands in a file is one of its classes, and only such.
pub proof fn law_every_class_of_a_file(odoo: SyncOdoo, file_sym: SymbolId, class: SymbolId)
    ensures
        override_markers::classes_in(odoo, file_sym).contains(class) <==> stands_in_file(
            odoo,
            file_sym,
            class,
        ),
{
    let symbol = odoo.symbols@[file_sym as int];
    let p = |s: SymbolId| odoo.symbol(s).is_class();
    let f = |e: NamedSections| override_markers::sections_symbols(e.sections@);
    let g = |section: Vec<SymbolId>| section@;
    let table = override_markers::file_table(symbol);
    let all = override_markers::table_symbols(table);
    let classes = override_markers::classes_in(odoo, file_sym);
    if classes.contains(class) {
        let n = choose|n: int| 0 <= n < classes.len() && classes[n] == class;
        all.lemma_filter_pred(p, n);
        all.lemma_filter_contains_rev(p, class);
        seqs::lemma_flat_map_contains(table, f, class);
        let i = choose|i: int| 0 <= i < table.len() && f(#[trigger] table[i]).contains(class);
        let sections = table[i].sections@;
        seqs::lemma_flat_map_contains(sections, g, class);
        let j = choose|j: int| 0 <= j < sections.len() && g(#[trigger] sections[j]).contains(class);
        let k = choose|k: int| 0 <= k < sections[j]@.len() && sections[j]@[k] == class;
        assert(is_in_table(symbol, class, table, i, j, k));
    }
    if stands_in_file(odoo, file_sym, class) {
        let (t, i, j, k) = choose|t: Seq<NamedSections>, i: int, j: int, k: int| #[trigger]
            is_in_table(symbol, class, t, i, j, k);
        assert(t == table);
        let sections = table[i].sections@;
        assert(sections[j]@.contains(class));
        seqs::lemma_flat_map_keeps(sections, g, j, class);
        assert(f(table[i]).contains(class));
        seqs::lemma_flat_map_keeps(table, f, i, class);
        let n = choose|n: int| 0 <= n < all.len() && all[n] == class;
        all.lemma_filter_contains(p, n);
    }
}

/// Every marker of every class of a file of the workspace with a path is published.
pub proof fn law_every_marker_is_published(
    odoo: SyncOdoo,
    file_sym: SymbolId,
    class: SymbolId,
    m: Marker,
)
    requires
        odoo.symbols@[file_sym as int].in_workspace,
        odoo.symbols@[file_sym as int].paths@.len() > 0,
        stands_in_file(odoo, file_sym, class),
        override_markers::class_markers(
            odoo,
            odoo.symbols@[file_sym as int].paths@[0].path@,
            class,
        ).contains(m),
    ensures
        override_markers::published(odoo, file_sym) matches Some(params) && params.markers.contains(
            m,
        ),
{
    let symbol = odoo.symbol(file_sym);
    let classes = override_markers::classes_in(odoo, file_sym);
    let f = |c: SymbolId| override_markers::class_markers(odoo, symbol.paths@[0].path@, c);
    law_every_class_of_a_file(odoo, file_sym, class);
    let i = choose|i: int| 0 <= i < classes.len() && classes[i] == class;
    seqs::lemma_flat_map_keeps(classes, f, i, m);
}

/// Whether `function` is the first function of a section of the names of a class, under `name`.
pub open spec fn is_method(
    odoo: SyncOdoo,
    class: SymbolId,
    name: Seq<char>,
    function: SymbolId,
) -> bool {
    exists|i: int, j: int, k: int| #[trigger] is_method_at(odoo, class, name, function, i, j, k)
}

pub open spec fn is_method_at(
    odoo: SyncOdoo,
    class: SymbolId,
    name: Seq<char>,
    function: SymbolId,
    i: int,
    j: int,
    k: int,
) -> bool {
    let table = odoo.symbols@[class as int].kind->Class_0.symbols@;
    &&& 0 <= i < table.len()
    &&& table[i].name@ == name
    &&& 0 <= j < table[i].sections@.len()
    &&& is_first_function(odoo, table[i].sections@[j]@, k)
    &&& table[i].sections@[j]@[k] == function
}

proof fn lemma_method(odoo: SyncOdoo, class: SymbolId, name: Seq<char>, function: SymbolId)
    requires
        is_method(odoo, class, name, function),
    ensures
        override_markers::functions_of(
            odoo,
            odoo.symbol(class).kind->Class_0.symbols@,
        ).contains((name, function)),
{
    let (i, j, k) = choose|i: int, j: int, k: int| #[trigger]
        is_method_at(odoo, class, name, function, i, j, k);
    let table = odoo.symbol(class).kind->Class_0.symbols@;
    let entry = table[i];
    let sections = entry.sections@;
    let section = sections[j]@;
    let p = |s: SymbolId| odoo.symbol(s).is_function();
    assert forall|m: int| 0 <= m < k implies !p(#[trigger] section[m]) by {
        assert(!is_function(odoo, section[m]));
    }
    seqs::lemma_find_first_at(section, p, k);
    let g = |section: Vec<SymbolId>|
        match override_markers::section_function(odoo, section) {
            Some(f) => Some((entry.name@, f)),
            None => None,
        };
    seqs::lemma_filter_map_keeps(sections, g, j);
    let f = |e: NamedSections| override_markers::functions_under(odoo, e);
    assert(f(entry).contains((name, function)));
    seqs::lemma_flat_map_keeps(table, f, i, (name, function));
}

/// Every override of a file is published: where a class in the table of a file of the workspace,
/// or of a package, has a method, another class of its model has one of that name, and the one
/// overrides the other or is overridden by it, a marker on the line of the method names the other.
/// Both files have to be known.
pub proof fn law_every_override_is_published(
    odoo: SyncOdoo,
    file_sym: SymbolId,
    class: SymbolId,
    name: Seq<char>,
    function: SymbolId,
    range: lsp::Range,
    m: int,
    other: SymbolId,
    kind: OverrideKind,
    target: Target,
)
    requires
        odoo.symbols@[file_sym as int].in_workspace,
        odoo.symbols@[file_sym as int].paths@.len() > 0,
        stands_in_file(odoo, file_sym, class),
        odoo.symbols@[class as int].kind->Class_0.model matches Some(model) && model@.len() > 0
            && is_model_at(odoo, model@, m),
        is_method(odoo, class, name, function),
        is_range_in(odoo, odoo.symbols@[file_sym as int].paths@[0].path@, function, range),
        odoo.models@[m].classes@.contains(other),
        other != class,
        is_other_end(odoo, class, other, name, kind, target),
    ensures
        override_markers::published(odoo, file_sym) matches Some(params) && exists|marker: Marker|
            #[trigger] params.markers.contains(marker) && marker.line == range.start.line
                && marker.kind == (match kind {
                OverrideKind::Overrides => "overrides"@,
                OverrideKind::OverriddenBy => "overriddenBy"@,
            }) && marker.targets.contains(target),
{
    let path = odoo.symbol(file_sym).paths@[0].path@;
    let entry = (name, function);
    lemma_method(odoo, class, name, function);
    lemma_range_in(odoo, path, function, range);
    law_other_end(odoo, class, other, name, kind, target);
    session::law_first_model_of_a_name(
        odoo,
        odoo.symbol(class).kind->Class_0.model.unwrap()@,
        m,
    );
    law_overrides_marked(odoo, path, class, entry, other, kind);
    let marker = choose|x: Marker| #[trigger]
        override_markers::class_markers(odoo, path, class).contains(x) && x.kind == kind.name()
            && x.line == odoo.range_in_file(path, odoo.symbol(entry.1).range).unwrap().start.line
            && x.targets.contains(
            override_markers::target_in(odoo, class, other, entry.0, kind).unwrap(),
        );
    law_every_marker_is_published(odoo, file_sym, class, marker);
}

/// Only overrides are published: each target of a published marker is the other end of an override
/// of a method of a class of the file, on the line of the method.
pub proof fn law_only_overrides_are_published(
    odoo: SyncOdoo,
    file_sym: SymbolId,
    marker: Marker,
    target: Target,
)
    requires
        odoo.wf(),
        odoo.valid(file_sym),
        override_markers::published(odoo, file_sym) matches Some(params) && params.markers.contains(
            marker,
        ),
        marker.targets.contains(target),
    ensures
        exists|
            class: SymbolId,
            name: Seq<char>,
            function: SymbolId,
            range: lsp::Range,
            other: SymbolId,
            kind: OverrideKind,
        |
            #![trigger is_range_in(odoo, odoo.symbols@[file_sym as int].paths@[0].path@, function, range), is_other_end(
                odoo,
                class,
                other,
                name,
                kind,
                target,
            )]
            stands_in_file(odoo, file_sym, class) && function_of(odoo, class, (name, function))
                && is_range_in(
                odoo,
                odoo.symbols@[file_sym as int].paths@[0].path@,
                function,
                range,
            ) && marker.line == range.start.line && other != class && same_model(odoo, class, other)
                && is_other_end(odoo, class, other, name, kind, target) && marker.kind == (
            match kind {
                OverrideKind::Overrides => "overrides"@,
                OverrideKind::OverriddenBy => "overriddenBy"@,
            }),
{
    law_published_markers_sound(odoo, file_sym, marker);
    let path = odoo.symbol(file_sym).paths@[0].path@;
    let class = choose|class: SymbolId|
        #![trigger odoo.symbol(class)]
        override_markers::classes_in(odoo, file_sym).contains(class) && odoo.symbol(
            class,
        ).is_class() && marker_sound(odoo, path, class, marker);
    law_every_class_of_a_file(odoo, file_sym, class);
    let (kind, entry) = choose|kind: OverrideKind, entry: (Seq<char>, SymbolId)| #[trigger]
        marker_sound_as(odoo, path, class, marker, kind, entry);
    let i = choose|i: int| 0 <= i < marker.targets.len() && marker.targets[i] == target;
    assert(target_sound(odoo, class, entry.0, marker.targets[i], kind));
    let (other, found) = choose|other: SymbolId, found: SymbolId| #[trigger]
        target_from(odoo, class, entry.0, target, kind, other, found);
    law_other_end(odoo, class, other, entry.0, kind, target);
    let range = odoo.range_in_file(path, odoo.symbol(entry.1).range).unwrap();
    lemma_range_in(odoo, path, entry.1, range);
    assert(is_range_in(odoo, odoo.symbols@[file_sym as int].paths@[0].path@, entry.1, range));
    assert(is_other_end(odoo, class, other, entry.0, kind, target));
    assert(function_of(odoo, class, (entry.0, entry.1)));
}

} // verus!
