//! The state of the server that the features read: the symbols of the code base, its models,
//! the data of its XML files, and the messages that wait for the client.
//!
//! Symbols refer to each other by [`SymbolId`], their place in [`SyncOdoo::symbols`]. What the
//! rest of the server answers to a question (which symbols a model has, which records an XML
//! id stands for) is held as a table of its answers.

use crate::lsp;
use crate::override_markers::{PublishOverrideMarkersParams, PublishedMarkers};
use crate::seqs;
use crate::text::same_text;
use std::ops::Range;
use vstd::prelude::*;

verus! {

/// A symbol, by its place in [`SyncOdoo::symbols`]. Two symbols are the same one exactly when
/// their ids are equal.
pub type SymbolId = usize;

/// The bytes of a Python file that a symbol covers.
#[derive(Clone, Copy, Debug, PartialEq, Eq, Structural)]
pub struct TextRange {
    pub start: u32,
    pub end: u32,
}

/// A path of a symbol, with the URI by which the client knows it.
#[derive(Debug)]
pub struct FilePath {
    pub path: String,
    pub uri: String,
}

/// The symbols that a scope holds under one name, section by section.
#[derive(Debug)]
pub struct NamedSections {
    pub name: String,
    pub sections: Vec<Vec<SymbolId>>,
}

impl NamedSections {
    pub open spec fn is_named(self, name: Seq<char>) -> bool {
        self.name@ == name
    }
}

/// The symbols that a name stands for at the end of a scope.
#[derive(Debug)]
pub struct ContentSymbols {
    pub name: String,
    pub symbols: Vec<SymbolId>,
}

impl ContentSymbols {
    pub open spec fn is_named(self, name: Seq<char>) -> bool {
        self.name@ == name
    }
}

/// A Python class. `model` is the name of the Odoo model that it declares or extends.
#[derive(Debug)]
pub struct ClassSymbol {
    pub model: Option<String>,
    pub symbols: Vec<NamedSections>,
}

/// An Odoo module. `in_deps` holds the directory names of the modules that it depends on,
/// directly or not.
#[derive(Debug)]
pub struct ModuleSymbol {
    pub dir_name: String,
    pub in_deps: Vec<String>,
    pub symbols: Vec<NamedSections>,
}

/// A directory of Python files.
#[derive(Debug)]
pub enum PackageSymbol {
    Module(ModuleSymbol),
    PythonPackage(Vec<NamedSections>),
}

/// What a symbol is. The tables of names stand in the order in which they are walked.
#[derive(Debug)]
pub enum SymbolKind {
    File(Vec<NamedSections>),
    Package(PackageSymbol),
    Class(ClassSymbol),
    Function,
    Other,
}

/// A symbol. `file` is the file that holds it, if that is still loaded, and `module` the Odoo
/// module that it belongs to.
#[derive(Debug)]
pub struct Symbol {
    pub name: String,
    pub in_workspace: bool,
    pub paths: Vec<FilePath>,
    pub range: TextRange,
    pub file: Option<SymbolId>,
    pub module: Option<SymbolId>,
    pub content: Vec<ContentSymbols>,
    pub kind: SymbolKind,
}

impl Symbol {
    pub open spec fn is_class(self) -> bool {
        self.kind is Class
    }

    pub open spec fn is_function(self) -> bool {
        self.kind is Function
    }

    pub open spec fn is_module(self) -> bool {
        self.kind matches SymbolKind::Package(PackageSymbol::Module(_))
    }

    /// The module that a module symbol is.
    pub open spec fn as_module(self) -> ModuleSymbol {
        self.kind->Package_0->Module_0
    }

    /// The symbols that `name` stands for at the end of this symbol's scope.
    pub open spec fn content_of(self, name: Seq<char>) -> Seq<SymbolId> {
        match seqs::find_first(self.content@, |c: ContentSymbols| c.is_named(name)) {
            Some(c) => c.symbols@,
            None => Seq::empty(),
        }
    }
}

/// A class of a model, as seen from some module: `missing` names the module that would have to
/// be depended on to see it.
#[derive(Debug)]
pub struct ModelSymbol {
    pub symbol: SymbolId,
    pub missing: Option<String>,
}

/// The classes of a model as seen from a module, or from everywhere; with or without those that
/// it inherits from.
#[derive(Debug)]
pub struct ModelListing {
    pub from_module: Option<SymbolId>,
    pub with_inheritance: bool,
    pub symbols: Vec<ModelSymbol>,
}

/// An Odoo model: the classes that make it up, and the views on it.
#[derive(Debug)]
pub struct Model {
    pub name: String,
    pub classes: Vec<SymbolId>,
    pub listings: Vec<ModelListing>,
}

impl Model {
    pub open spec fn is_named(self, name: Seq<char>) -> bool {
        self.name@ == name
    }

    /// All symbols of the model as seen from `from_module`.
    pub open spec fn all_symbols(
        self,
        from_module: Option<SymbolId>,
        with_inheritance: bool,
    ) -> Seq<ModelSymbol> {
        match seqs::find_first(
            self.listings@,
            |l: ModelListing|
                l.from_module == from_module && l.with_inheritance == with_inheritance,
        ) {
            Some(l) => l.symbols@,
            None => Seq::empty(),
        }
    }

    /// Those of them that no missing dependency hides.
    pub open spec fn reachable_symbols(
        self,
        from_module: Option<SymbolId>,
        with_inheritance: bool,
    ) -> Seq<SymbolId> {
        self.all_symbols(from_module, with_inheritance).filter_map(|s: ModelSymbol| reachable(s))
    }
}

/// A field of a record: its text, and the XML id that it refers to.
#[derive(Debug)]
pub struct OdooDataField {
    pub name: String,
    pub text: Option<String>,
    pub ref_key: Option<String>,
}

impl OdooDataField {
    pub open spec fn is_named(self, name: Seq<char>) -> bool {
        self.name@ == name
    }
}

/// A record of an XML file. `file_symbol` is that file, if it is still loaded, and `range` the
/// bytes of it that the record covers.
#[derive(Debug)]
pub struct OdooDataRecord {
    pub file_symbol: Option<SymbolId>,
    pub range: Range<usize>,
    pub fields: Vec<OdooDataField>,
}

/// What an XML id can stand for: a record, or a datum of another kind with its file.
#[derive(Debug)]
pub enum OdooData {
    RECORD(OdooDataRecord),
    OTHER(Option<SymbolId>),
}

impl OdooData {
    /// The file of the datum, if it is still loaded.
    pub open spec fn file_symbol(self) -> Option<SymbolId> {
        match self {
            OdooData::RECORD(r) => r.file_symbol,
            OdooData::OTHER(file) => file,
        }
    }
}

/// What `xml_id` stands for when it is written in `from_file`.
#[derive(Debug)]
pub struct XmlIdEntry {
    pub from_file: SymbolId,
    pub xml_id: String,
    pub data: Vec<OdooData>,
}

impl XmlIdEntry {
    pub open spec fn is_for(self, from_file: SymbolId, xml_id: Seq<char>) -> bool {
        self.from_file == from_file && self.xml_id@ == xml_id
    }
}

/// A file whose text the server holds: where each of its bytes is in the client's terms, and
/// where it ends.
#[derive(Debug)]
pub struct FileInfo {
    pub path: String,
    pub positions: Vec<lsp::Position>,
    pub end: lsp::Position,
}

impl FileInfo {
    pub open spec fn is_at(self, path: Seq<char>) -> bool {
        self.path@ == path
    }

    /// Where the byte `offset` is; behind the last byte the file ends.
    pub open spec fn position(self, offset: u32) -> lsp::Position {
        if offset < self.positions@.len() {
            self.positions@[offset as int]
        } else {
            self.end
        }
    }

    /// Where the bytes `range` are.
    pub open spec fn located(self, range: TextRange) -> lsp::Range {
        lsp::Range { start: self.position(range.start), end: self.position(range.end) }
    }

    fn position_of(&self, offset: u32) -> (res: lsp::Position)
        ensures
            res == self.position(offset),
    {
        let i = offset as usize;
        if i < self.positions.len() {
            self.positions[i]
        } else {
            self.end
        }
    }

    /// Locates the bytes `range` in the client's terms.
    pub fn text_range_to_range(&self, range: &TextRange) -> (res: lsp::Range)
        ensures
            res == self.located(*range),
    {
        lsp::Range { start: self.position_of(range.start), end: self.position_of(range.end) }
    }
}

/// What the server knows of the code base.
#[derive(Debug)]
pub struct SyncOdoo {
    pub symbols: Vec<Symbol>,
    pub models: Vec<Model>,
    pub xml_ids: Vec<XmlIdEntry>,
    pub files: Vec<FileInfo>,
}

/// A message to the client.
#[derive(Debug)]
pub struct Notification {
    pub method: String,
    pub params: PublishOverrideMarkersParams,
}

/// The contents of a [`Notification`].
pub struct SentNotification {
    pub method: Seq<char>,
    pub params: PublishedMarkers,
}

impl View for Notification {
    type V = SentNotification;

    open spec fn view(&self) -> SentNotification {
        SentNotification { method: self.method@, params: self.params@ }
    }
}

/// A session: what the server knows, and the messages that it has sent, oldest first.
#[derive(Debug)]
pub struct SessionInfo {
    pub sync_odoo: SyncOdoo,
    pub notifications: Vec<Notification>,
}

impl SyncOdoo {
    pub open spec fn valid(self, id: SymbolId) -> bool {
        id < self.symbols@.len()
    }

    pub open spec fn symbol(self, id: SymbolId) -> Symbol {
        self.symbols@[id as int]
    }

    pub open spec fn ids_wf(self, ids: Seq<SymbolId>) -> bool {
        forall|k: int| 0 <= k < ids.len() ==> self.valid(#[trigger] ids[k])
    }

    pub open spec fn sections_wf(self, sections: Seq<Vec<SymbolId>>) -> bool {
        forall|j: int| 0 <= j < sections.len() ==> self.ids_wf((#[trigger] sections[j])@)
    }

    pub open spec fn table_wf(self, table: Seq<NamedSections>) -> bool {
        forall|i: int| 0 <= i < table.len() ==> self.sections_wf((#[trigger] table[i]).sections@)
    }

    pub open spec fn file_wf(self, file: Option<SymbolId>) -> bool {
        file matches Some(f) ==> self.valid(f)
    }

    pub open spec fn module_wf(self, module: Option<SymbolId>) -> bool {
        module matches Some(m) ==> self.valid(m) && self.symbol(m).is_module()
    }

    pub open spec fn kind_wf(self, kind: SymbolKind) -> bool {
        match kind {
            SymbolKind::File(table) => self.table_wf(table@),
            SymbolKind::Package(PackageSymbol::Module(m)) => self.table_wf(m.symbols@),
            SymbolKind::Package(PackageSymbol::PythonPackage(table)) => self.table_wf(table@),
            SymbolKind::Class(c) => self.table_wf(c.symbols@),
            SymbolKind::Function => true,
            SymbolKind::Other => true,
        }
    }

    pub open spec fn symbol_wf(self, symbol: Symbol) -> bool {
        &&& self.file_wf(symbol.file)
        &&& self.module_wf(symbol.module)
        &&& self.kind_wf(symbol.kind)
    }

    pub open spec fn classes_wf(self, classes: Seq<SymbolId>) -> bool {
        forall|k: int|
            0 <= k < classes.len() ==> self.valid(#[trigger] classes[k]) && self.symbol(
                classes[k],
            ).is_class()
    }

    pub open spec fn listing_wf(self, listing: ModelListing) -> bool {
        forall|k: int|
            0 <= k < listing.symbols@.len() ==> self.valid((#[trigger] listing.symbols@[k]).symbol)
    }

    pub open spec fn model_wf(self, model: Model) -> bool {
        &&& self.classes_wf(model.classes@)
        &&& forall|l: int|
            0 <= l < model.listings@.len() ==> self.listing_wf(#[trigger] model.listings@[l])
    }

    pub open spec fn entry_wf(self, entry: XmlIdEntry) -> bool {
        forall|k: int|
            0 <= k < entry.data@.len() ==> self.file_wf((#[trigger] entry.data@[k]).file_symbol())
    }

    /// Every id that is followed names a symbol, modules are modules, and the classes of models
    /// are classes.
    pub open spec fn wf(self) -> bool {
        &&& forall|i: int|
            0 <= i < self.symbols@.len() ==> self.symbol_wf(#[trigger] self.symbols@[i])
        &&& forall|i: int|
            0 <= i < self.models@.len() ==> self.model_wf(#[trigger] self.models@[i])
        &&& forall|i: int|
            0 <= i < self.xml_ids@.len() ==> self.entry_wf(#[trigger] self.xml_ids@[i])
    }

    /// Whether `module` depends on the module in the directory `dir_name`.
    pub open spec fn is_in_deps(self, module: SymbolId, dir_name: Seq<char>) -> bool {
        let deps = self.symbol(module).as_module().in_deps@;
        exists|i: int| 0 <= i < deps.len() && (#[trigger] deps[i])@ == dir_name
    }

    /// The model called `name`.
    pub open spec fn model_named(self, name: Seq<char>) -> Option<Model> {
        seqs::find_first(self.models@, |m: Model| m.is_named(name))
    }

    /// What `xml_id` stands for when it is written in `from_file`.
    pub open spec fn xml_data(self, from_file: SymbolId, xml_id: Seq<char>) -> Seq<OdooData> {
        match seqs::find_first(
            self.xml_ids@,
            |e: XmlIdEntry| e.is_for(from_file, xml_id),
        ) {
            Some(e) => e.data@,
            None => Seq::empty(),
        }
    }

    /// The file at `path`, if the server holds it.
    pub open spec fn file_at(self, path: Seq<char>) -> Option<FileInfo> {
        seqs::find_first(self.files@, |f: FileInfo| f.is_at(path))
    }

    /// Where the bytes `range` of the file at `path` are, if the file is known.
    pub open spec fn range_in_file(self, path: Seq<char>, range: TextRange) -> Option<lsp::Range> {
        match self.file_at(path) {
            Some(file) => Some(file.located(range)),
            None => None,
        }
    }

    /// Tells whether `module` depends on the module in the directory `dir_name`.
    pub fn depends_on(&self, module: SymbolId, dir_name: &str) -> (res: bool)
        requires
            self.valid(module),
            self.symbol(module).is_module(),
        ensures
            res == self.is_in_deps(module, dir_name@),
    {
        let m = self.as_module_package(module);
        let mut i: usize = 0;
        while i < m.in_deps.len()
            invariant
                i <= m.in_deps.len(),
                *m == self.symbol(module).as_module(),
                forall|j: int| 0 <= j < i ==> (#[trigger] m.in_deps@[j])@ != dir_name@,
            decreases m.in_deps.len() - i,
        {
            if same_text(&m.in_deps[i], dir_name) {
                assert(m.in_deps@[i as int]@ == dir_name@);
                return true;
            }
            i += 1;
        }
        false
    }

    /// The module that a module symbol is.
    pub fn as_module_package(&self, module: SymbolId) -> (res: &ModuleSymbol)
        requires
            self.valid(module),
            self.symbol(module).is_module(),
        ensures
            *res == self.symbol(module).as_module(),
    {
        match &self.symbols[module].kind {
            SymbolKind::Package(PackageSymbol::Module(m)) => m,
            _ => vstd::pervasive::unreached(),
        }
    }

    /// Looks a model up by its name.
    pub fn get_model(&self, name: &str) -> (res: Option<&Model>)
        ensures
            res matches Some(m) ==> self.model_named(name@) == Some(*m),
            res is None ==> self.model_named(name@) is None,
            self.wf() ==> (res matches Some(m) ==> self.model_wf(*m)),
    {
        let ghost p = |m: Model| m.is_named(name@);
        let mut i: usize = 0;
        while i < self.models.len()
            invariant
                i <= self.models.len(),
                p == (|m: Model| m.is_named(name@)),
                forall|j: int| 0 <= j < i ==> !p(#[trigger] self.models@[j]),
            decreases self.models.len() - i,
        {
            if same_text(&self.models[i].name, name) {
                proof {
                    seqs::lemma_find_first_at(self.models@, p, i as int);
                }
                return Some(&self.models[i]);
            }
            i += 1;
        }
        proof {
            seqs::lemma_find_first_none(self.models@, p);
        }
        None
    }

    /// Looks up what `xml_id` stands for when it is written in `from_file`. An id that is not
    /// in the table stands for nothing.
    pub fn get_xml_ids(&self, from_file: SymbolId, xml_id: &str) -> (res: Option<&Vec<OdooData>>)
        ensures
            res matches Some(data) ==> self.xml_data(from_file, xml_id@) == data@,
            res is None ==> self.xml_data(from_file, xml_id@) == Seq::<OdooData>::empty(),
    {
        let ghost p = |e: XmlIdEntry| e.is_for(from_file, xml_id@);
        let mut i: usize = 0;
        while i < self.xml_ids.len()
            invariant
                i <= self.xml_ids.len(),
                p == (|e: XmlIdEntry| e.is_for(from_file, xml_id@)),
                forall|j: int| 0 <= j < i ==> !p(#[trigger] self.xml_ids@[j]),
            decreases self.xml_ids.len() - i,
        {
            if self.xml_ids[i].from_file == from_file && same_text(
                &self.xml_ids[i].xml_id,
                xml_id,
            ) {
                proof {
                    seqs::lemma_find_first_at(self.xml_ids@, p, i as int);
                }
                return Some(&self.xml_ids[i].data);
            }
            i += 1;
        }
        proof {
            seqs::lemma_find_first_none(self.xml_ids@, p);
        }
        None
    }

    /// Finds the file at `path`.
    pub fn get_file_info(&self, path: &str) -> (res: Option<&FileInfo>)
        ensures
            res matches Some(file) ==> self.file_at(path@) == Some(*file),
            res is None ==> self.file_at(path@) is None,
    {
        let ghost p = |f: FileInfo| f.is_at(path@);
        let mut i: usize = 0;
        while i < self.files.len()
            invariant
                i <= self.files.len(),
                p == (|f: FileInfo| f.is_at(path@)),
                forall|j: int| 0 <= j < i ==> !p(#[trigger] self.files@[j]),
            decreases self.files.len() - i,
        {
            if same_text(&self.files[i].path, path) {
                proof {
                    seqs::lemma_find_first_at(self.files@, p, i as int);
                }
                return Some(&self.files[i]);
            }
            i += 1;
        }
        proof {
            seqs::lemma_find_first_none(self.files@, p);
        }
        None
    }

    /// Locates the bytes `range` of the file at `path`: always, if the file is known.
    pub fn lsp_range(&self, path: &str, range: &TextRange) -> (res: Option<lsp::Range>)
        ensures
            res == self.range_in_file(path@, *range),
            res is Some <==> self.file_at(path@) is Some,
    {
        match self.get_file_info(path) {
            Some(file) => Some(file.text_range_to_range(range)),
            None => None,
        }
    }
}

impl Symbol {
    /// Looks up the symbols that `name` stands for at the end of this symbol's scope.
    pub fn get_content_symbol(&self, name: &str) -> (res: Vec<SymbolId>)
        ensures
            res@ == self.content_of(name@),
    {
        let ghost p = |c: ContentSymbols| c.is_named(name@);
        let mut i: usize = 0;
        while i < self.content.len()
            invariant
                i <= self.content.len(),
                p == (|c: ContentSymbols| c.is_named(name@)),
                forall|j: int| 0 <= j < i ==> !p(#[trigger] self.content@[j]),
            decreases self.content.len() - i,
        {
            if same_text(&self.content[i].name, name) {
                proof {
                    seqs::lemma_find_first_at(self.content@, p, i as int);
                }
                let res = self.content[i].symbols.clone();
                assert(res@ =~= self.content@[i as int].symbols@);
                return res;
            }
            i += 1;
        }
        proof {
            seqs::lemma_find_first_none(self.content@, p);
        }
        Vec::new()
    }
}

/// Whether a class can be seen without a further dependency, and then which it is.
pub open spec fn reachable(s: ModelSymbol) -> Option<SymbolId> {
    if s.missing is None {
        Some(s.symbol)
    } else {
        None
    }
}

impl Model {
    /// Lists the symbols of the model that can be seen from `from_module` without a further
    /// dependency.
    pub fn get_reachable_symbols(
        &self,
        from_module: Option<SymbolId>,
        with_inheritance: bool,
    ) -> (res: Vec<SymbolId>)
        ensures
            res@ == self.reachable_symbols(from_module, with_inheritance),
    {
        let ghost p = |l: ModelListing|
            l.from_module == from_module && l.with_inheritance == with_inheritance;
        let ghost f = |s: ModelSymbol| reachable(s);
        let mut i: usize = 0;
        while i < self.listings.len()
            invariant
                i <= self.listings.len(),
                p == (|l: ModelListing|
                    l.from_module == from_module && l.with_inheritance == with_inheritance),
                f == (|s: ModelSymbol| reachable(s)),
                forall|j: int| 0 <= j < i ==> !p(#[trigger] self.listings@[j]),
            decreases self.listings.len() - i,
        {
            let listing = &self.listings[i];
            if listing.from_module == from_module && listing.with_inheritance == with_inheritance {
                proof {
                    seqs::lemma_find_first_at(self.listings@, p, i as int);
                }
                let ghost all = listing.symbols@;
                let mut res: Vec<SymbolId> = Vec::new();
                let mut k: usize = 0;
                assert(all.take(0) =~= Seq::<ModelSymbol>::empty());
                while k < listing.symbols.len()
                    invariant
                        k <= listing.symbols.len(),
                        all == listing.symbols@,
                        f == (|s: ModelSymbol| reachable(s)),
                        res@ == all.take(k as int).filter_map(f),
                    decreases listing.symbols.len() - k,
                {
                    proof {
                        seqs::lemma_filter_map_take(all, f, k as int);
                    }
                    if listing.symbols[k].missing.is_none() {
                        res.push(listing.symbols[k].symbol);
                    }
                    k += 1;
                }
                assert(all.take(all.len() as int) =~= all);
                return res;
            }
            i += 1;
        }
        proof {
            seqs::lemma_find_first_none(self.listings@, p);
        }
        Vec::new()
    }
}

impl Model {
    /// The symbols of a model's listings are symbols.
    pub proof fn lemma_reachable_valid(
        self,
        odoo: SyncOdoo,
        from_module: Option<SymbolId>,
        with_inheritance: bool,
    )
        requires
            odoo.model_wf(self),
        ensures
            odoo.ids_wf(self.reachable_symbols(from_module, with_inheritance)),
    {
        let p = |l: ModelListing|
            l.from_module == from_module && l.with_inheritance == with_inheritance;
        let all = self.all_symbols(from_module, with_inheritance);
        seqs::lemma_find_first_holds(self.listings@, p);
        assert forall|k: int| 0 <= k < all.len() implies odoo.valid((#[trigger] all[k]).symbol) by {
            let l = seqs::find_first(self.listings@, p).unwrap();
            let i = choose|i: int| 0 <= i < self.listings@.len() && self.listings@[i] == l;
            assert(odoo.listing_wf(self.listings@[i]));
        }
        let f = |s: ModelSymbol| reachable(s);
        let res = self.reachable_symbols(from_module, with_inheritance);
        assert forall|k: int| 0 <= k < res.len() implies odoo.valid(#[trigger] res[k]) by {
            assert(res.contains(res[k]));
            all.lemma_filter_map_contains(f, res[k]);
            let t = choose|t: ModelSymbol| #[trigger] all.contains(t) && f(t) == Some(res[k]);
            let j = choose|j: int| 0 <= j < all.len() && all[j] == t;
            assert(odoo.valid(all[j].symbol));
        }
    }
}

impl SessionInfo {
    /// Sends a message to the client.
    pub fn send_notification(&mut self, method: &str, params: PublishOverrideMarkersParams)
        ensures
            final(self).sync_odoo == old(self).sync_odoo,
            sent(final(self).notifications@) == sent(old(self).notifications@).push(
                SentNotification { method: method@, params: params@ },
            ),
    {
        let notification = Notification { method: method.to_owned(), params };
        self.notifications.push(notification);
        assert(sent(self.notifications@) =~= sent(old(self).notifications@).push(
            SentNotification { method: method@, params: params@ },
        ));
    }
}

/// The messages that `notifications` holds.
pub open spec fn sent(notifications: Seq<Notification>) -> Seq<SentNotification> {
    notifications.map_values(|n: Notification| n@)
}

impl SyncOdoo {
    fn check_ids(&self, ids: &Vec<SymbolId>) -> (res: bool)
        ensures
            res == self.ids_wf(ids@),
    {
        let mut i: usize = 0;
        while i < ids.len()
            invariant
                i <= ids.len(),
                forall|k: int| 0 <= k < i ==> self.valid(#[trigger] ids@[k]),
            decreases ids.len() - i,
        {
            if ids[i] >= self.symbols.len() {
                assert(!self.valid(ids@[i as int]));
                return false;
            }
            i += 1;
        }
        true
    }

    fn check_sections(&self, sections: &Vec<Vec<SymbolId>>) -> (res: bool)
        ensures
            res == self.sections_wf(sections@),
    {
        let mut i: usize = 0;
        while i < sections.len()
            invariant
                i <= sections.len(),
                forall|j: int| 0 <= j < i ==> self.ids_wf((#[trigger] sections@[j])@),
            decreases sections.len() - i,
        {
            if !self.check_ids(&sections[i]) {
                assert(!self.ids_wf(sections@[i as int]@));
                return false;
            }
            i += 1;
        }
        true
    }

    fn check_table(&self, table: &Vec<NamedSections>) -> (res: bool)
        ensures
            res == self.table_wf(table@),
    {
        let mut i: usize = 0;
        while i < table.len()
            invariant
                i <= table.len(),
                forall|j: int| 0 <= j < i ==> self.sections_wf((#[trigger] table@[j]).sections@),
            decreases table.len() - i,
        {
            if !self.check_sections(&table[i].sections) {
                assert(!self.sections_wf(table@[i as int].sections@));
                return false;
            }
            i += 1;
        }
        true
    }

    fn check_file(&self, file: &Option<SymbolId>) -> (res: bool)
        ensures
            res == self.file_wf(*file),
    {
        match file {
            Some(f) => *f < self.symbols.len(),
            None => true,
        }
    }

    fn check_symbol(&self, symbol: &Symbol) -> (res: bool)
        ensures
            res == self.symbol_wf(*symbol),
    {
        let module_ok = match symbol.module {
            Some(m) => m < self.symbols.len() && (match &self.symbols[m].kind {
                SymbolKind::Package(PackageSymbol::Module(_)) => true,
                _ => false,
            }),
            None => true,
        };
        let kind_ok = match &symbol.kind {
            SymbolKind::File(table) => self.check_table(table),
            SymbolKind::Package(PackageSymbol::Module(m)) => self.check_table(&m.symbols),
            SymbolKind::Package(PackageSymbol::PythonPackage(table)) => self.check_table(table),
            SymbolKind::Class(c) => self.check_table(&c.symbols),
            SymbolKind::Function => true,
            SymbolKind::Other => true,
        };
        module_ok && kind_ok && self.check_file(&symbol.file)
    }

    fn check_classes(&self, classes: &Vec<SymbolId>) -> (res: bool)
        ensures
            res == self.classes_wf(classes@),
    {
        let mut i: usize = 0;
        while i < classes.len()
            invariant
                i <= classes.len(),
                forall|k: int|
                    0 <= k < i ==> self.valid(#[trigger] classes@[k]) && self.symbol(
                        classes@[k],
                    ).is_class(),
            decreases classes.len() - i,
        {
            let class: SymbolId = classes[i];
            let ok = class < self.symbols.len() && (match &self.symbols[class].kind {
                SymbolKind::Class(_) => true,
                _ => false,
            });
            if !ok {
                assert(!(self.valid(classes@[i as int]) && self.symbol(
                    classes@[i as int],
                ).is_class()));
                return false;
            }
            i += 1;
        }
        true
    }

    fn check_listing(&self, listing: &ModelListing) -> (res: bool)
        ensures
            res == self.listing_wf(*listing),
    {
        let mut i: usize = 0;
        while i < listing.symbols.len()
            invariant
                i <= listing.symbols.len(),
                forall|k: int|
                    0 <= k < i ==> self.valid((#[trigger] listing.symbols@[k]).symbol),
            decreases listing.symbols.len() - i,
        {
            if listing.symbols[i].symbol >= self.symbols.len() {
                assert(!self.valid(listing.symbols@[i as int].symbol));
                return false;
            }
            i += 1;
        }
        true
    }

    fn check_model(&self, model: &Model) -> (res: bool)
        ensures
            res == self.model_wf(*model),
    {
        if !self.check_classes(&model.classes) {
            return false;
        }
        let mut i: usize = 0;
        while i < model.listings.len()
            invariant
                i <= model.listings.len(),
                forall|l: int| 0 <= l < i ==> self.listing_wf(#[trigger] model.listings@[l]),
            decreases model.listings.len() - i,
        {
            if !self.check_listing(&model.listings[i]) {
                assert(!self.listing_wf(model.listings@[i as int]));
                return false;
            }
            i += 1;
        }
        true
    }

    fn check_entry(&self, entry: &XmlIdEntry) -> (res: bool)
        ensures
            res == self.entry_wf(*entry),
    {
        let mut i: usize = 0;
        while i < entry.data.len()
            invariant
                i <= entry.data.len(),
                forall|k: int|
                    0 <= k < i ==> self.file_wf((#[trigger] entry.data@[k]).file_symbol()),
            decreases entry.data.len() - i,
        {
            let file = match &entry.data[i] {
                OdooData::RECORD(r) => &r.file_symbol,
                OdooData::OTHER(file) => file,
            };
            if !self.check_file(file) {
                assert(!self.file_wf(entry.data@[i as int].file_symbol()));
                return false;
            }
            i += 1;
        }
        true
    }

    /// Whether every id that is followed names a symbol of the right kind.
    pub fn is_wf(&self) -> (res: bool)
        ensures
            res == self.wf(),
    {
        let mut i: usize = 0;
        while i < self.symbols.len()
            invariant
                i <= self.symbols.len(),
                forall|k: int| 0 <= k < i ==> self.symbol_wf(#[trigger] self.symbols@[k]),
            decreases self.symbols.len() - i,
        {
            if !self.check_symbol(&self.symbols[i]) {
                assert(!self.symbol_wf(self.symbols@[i as int]));
                return false;
            }
            i += 1;
        }
        let mut m: usize = 0;
        while m < self.models.len()
            invariant
                m <= self.models.len(),
                forall|k: int| 0 <= k < m ==> self.model_wf(#[trigger] self.models@[k]),
            decreases self.models.len() - m,
        {
            if !self.check_model(&self.models[m]) {
                assert(!self.model_wf(self.models@[m as int]));
                return false;
            }
            m += 1;
        }
        let mut e: usize = 0;
        while e < self.xml_ids.len()
            invariant
                e <= self.xml_ids.len(),
                forall|k: int| 0 <= k < e ==> self.entry_wf(#[trigger] self.xml_ids@[k]),
            decreases self.xml_ids.len() - e,
        {
            if !self.check_entry(&self.xml_ids[e]) {
                assert(!self.entry_wf(self.xml_ids@[e as int]));
                return false;
            }
            e += 1;
        }
        true
    }
}

/// A name leads to the first model that bears it, and to none if none does.
pub proof fn law_first_model_of_a_name(odoo: SyncOdoo, name: Seq<char>, i: int)
    requires
        0 <= i <= odoo.models@.len(),
        forall|j: int| 0 <= j < i ==> (#[trigger] odoo.models@[j]).name@ != name,
    ensures
        i < odoo.models@.len() && odoo.models@[i].name@ == name ==> odoo.model_named(name) == Some(
            odoo.models@[i],
        ),
        i == odoo.models@.len() ==> odoo.model_named(name) is None,
{
    let p = |m: Model| m.is_named(name);
    if i == odoo.models@.len() {
        seqs::lemma_find_first_none(odoo.models@, p);
    } else if odoo.models@[i].name@ == name {
        seqs::lemma_find_first_at(odoo.models@, p, i);
    }
}

/// An XML id stands for what the first entry for it holds, and for nothing without an entry.
pub proof fn law_first_entry_of_an_xml_id(
    odoo: SyncOdoo,
    from_file: SymbolId,
    xml_id: Seq<char>,
    i: int,
)
    requires
        0 <= i <= odoo.xml_ids@.len(),
        forall|j: int|
            0 <= j < i ==> !((#[trigger] odoo.xml_ids@[j]).from_file == from_file
                && odoo.xml_ids@[j].xml_id@ == xml_id),
    ensures
        i < odoo.xml_ids@.len() && odoo.xml_ids@[i].from_file == from_file
            && odoo.xml_ids@[i].xml_id@ == xml_id ==> odoo.xml_data(from_file, xml_id)
            == odoo.xml_ids@[i].data@,
        i == odoo.xml_ids@.len() ==> odoo.xml_data(from_file, xml_id) == Seq::<OdooData>::empty(),
{
    let p = |e: XmlIdEntry| e.is_for(from_file, xml_id);
    if i == odoo.xml_ids@.len() {
        seqs::lemma_find_first_none(odoo.xml_ids@, p);
    } else if odoo.xml_ids@[i].from_file == from_file && odoo.xml_ids@[i].xml_id@ == xml_id {
        seqs::lemma_find_first_at(odoo.xml_ids@, p, i);
    }
}

/// A range of a file is located by the first file at its path, byte by byte; behind its last byte
/// a file ends. Without a file at the path nothing is located.
pub proof fn law_first_file_locates(odoo: SyncOdoo, path: Seq<char>, range: TextRange, i: int)
    requires
        0 <= i <= odoo.files@.len(),
        forall|j: int| 0 <= j < i ==> (#[trigger] odoo.files@[j]).path@ != path,
    ensures
        i < odoo.files@.len() && odoo.files@[i].path@ == path ==> (odoo.range_in_file(
            path,
            range,
        ) matches Some(r) && byte_at(odoo.files@[i], range.start, r.start) && byte_at(
            odoo.files@[i],
            range.end,
            r.end,
        )),
        i == odoo.files@.len() ==> odoo.range_in_file(path, range) is None,
{
    let p = |f: FileInfo| f.is_at(path);
    if i == odoo.files@.len() {
        seqs::lemma_find_first_none(odoo.files@, p);
    } else if odoo.files@[i].path@ == path {
        seqs::lemma_find_first_at(odoo.files@, p, i);
    }
}

/// Whether `position` is that of the byte `offset` of a file, or of its end if it has no such
/// byte.
pub open spec fn byte_at(file: FileInfo, offset: u32, position: lsp::Position) -> bool {
    &&& offset < file.positions@.len() ==> position == file.positions@[offset as int]
    &&& offset >= file.positions@.len() ==> position == file.end
}

/// A name stands for the symbols that the first entry of its scope for it holds.
pub proof fn law_first_content_of_a_name(symbol: Symbol, name: Seq<char>, i: int)
    requires
        0 <= i <= symbol.content@.len(),
        forall|j: int| 0 <= j < i ==> (#[trigger] symbol.content@[j]).name@ != name,
    ensures
        i < symbol.content@.len() && symbol.content@[i].name@ == name ==> symbol.content_of(name)
            == symbol.content@[i].symbols@,
        i == symbol.content@.len() ==> symbol.content_of(name) == Seq::<SymbolId>::empty(),
{
    let p = |c: ContentSymbols| c.is_named(name);
    if i == symbol.content@.len() {
        seqs::lemma_find_first_none(symbol.content@, p);
    } else if symbol.content@[i].name@ == name {
        seqs::lemma_find_first_at(symbol.content@, p, i);
    }
}

/// Whether `option` is the symbol of a listed class, unless a dependency is missing for it.
pub open spec fn seen(listed: ModelSymbol, option: Option<SymbolId>) -> bool {
    &&& listed.missing is None ==> option == Some(listed.symbol)
    &&& listed.missing is Some ==> option is None
}

/// Whether `symbols` are those of a listing for which no dependency is missing, in order.
pub open spec fn seen_of(listing: ModelListing, symbols: Seq<SymbolId>) -> bool {
    exists|options: Seq<Option<SymbolId>>|
        options.len() == listing.symbols@.len() && #[trigger] seqs::is_selection(options, symbols)
            && forall|k: int|
            0 <= k < options.len() ==> seen(listing.symbols@[k], #[trigger] options[k])
}

/// The symbols of a model as seen from a module are those that the first listing for it holds, as
/// far as no dependency is missing; without such a listing there are none.
pub proof fn law_first_listing_seen(
    model: Model,
    from_module: Option<SymbolId>,
    with_inheritance: bool,
    i: int,
)
    requires
        0 <= i <= model.listings@.len(),
        forall|j: int|
            0 <= j < i ==> !((#[trigger] model.listings@[j]).from_module == from_module
                && model.listings@[j].with_inheritance == with_inheritance),
    ensures
        i < model.listings@.len() && model.listings@[i].from_module == from_module
            && model.listings@[i].with_inheritance == with_inheritance ==> seen_of(
            model.listings@[i],
            model.reachable_symbols(from_module, with_inheritance),
        ),
        i == model.listings@.len() ==> model.reachable_symbols(from_module, with_inheritance)
            == Seq::<SymbolId>::empty(),
{
    let p = |l: ModelListing|
        l.from_module == from_module && l.with_inheritance == with_inheritance;
    let f = |s: ModelSymbol| reachable(s);
    if i == model.listings@.len() {
        seqs::lemma_find_first_none(model.listings@, p);
        assert(model.all_symbols(from_module, with_inheritance) =~= Seq::<ModelSymbol>::empty());
        assert(Seq::<ModelSymbol>::empty().filter_map(f) =~= Seq::<SymbolId>::empty());
    } else if model.listings@[i].from_module == from_module && model.listings@[i].with_inheritance
        == with_inheritance {
        seqs::lemma_find_first_at(model.listings@, p, i);
        let symbols = model.listings@[i].symbols@;
        seqs::lemma_filter_map_selects(symbols, f);
        let options = symbols.map_values(f);
        assert forall|k: int| 0 <= k < options.len() implies seen(
            symbols[k],
            #[trigger] options[k],
        ) by {}
        assert(seqs::is_selection(
            options,
            model.reachable_symbols(from_module, with_inheritance),
        ));
    }
}

/// The contents of the messages leave nothing out: the method of each, and its parameters.
pub proof fn law_contents_of_messages(notifications: Seq<Notification>)
    ensures
        sent(notifications).len() == notifications.len(),
        forall|i: int|
            0 <= i < notifications.len() ==> (#[trigger] sent(notifications)[i]).method
                == notifications[i].method@ && sent(notifications)[i].params
                == notifications[i].params@,
{
}

/// Whether `ids` are all places of symbols.
pub open spec fn all_within(ids: Seq<SymbolId>, n: int) -> bool {
    forall|k: int| 0 <= k < ids.len() ==> #[trigger] ids[k] < n
}

/// Whether all the symbols that a table of names holds are places of symbols.
pub open spec fn table_within(table: Seq<NamedSections>, n: int) -> bool {
    forall|i: int, j: int|
        0 <= i < table.len() && 0 <= j < table[i].sections@.len() ==> all_within(
            (#[trigger] table[i].sections@[j])@,
            n,
        )
}

/// Whether all that a symbol refers to are symbols, and its module is a module.
pub open spec fn symbol_within(odoo: SyncOdoo, symbol: Symbol) -> bool {
    &&& (symbol.file is Some ==> symbol.file.unwrap() < odoo.symbols@.len())
    &&& (symbol.module is Some ==> symbol.module.unwrap() < odoo.symbols@.len() && (odoo.symbols@[
        symbol.module.unwrap() as int
    ].kind matches SymbolKind::Package(PackageSymbol::Module(_))))
    &&& (match symbol.kind {
        SymbolKind::File(table) => table_within(table@, odoo.symbols@.len() as int),
        SymbolKind::Package(PackageSymbol::Module(module)) => table_within(
            module.symbols@,
            odoo.symbols@.len() as int,
        ),
        SymbolKind::Package(PackageSymbol::PythonPackage(table)) => table_within(
            table@,
            odoo.symbols@.len() as int,
        ),
        SymbolKind::Class(class) => table_within(class.symbols@, odoo.symbols@.len() as int),
        SymbolKind::Function => true,
        SymbolKind::Other => true,
    })
}

/// A session in which no id dangles is well-formed: the files and modules of symbols, and what
/// their tables hold, are symbols; modules are modules and the classes of models are classes; and
/// the symbols of listings and the files of XML data are symbols. Nothing else is asked of it.
pub proof fn law_nothing_dangles(odoo: SyncOdoo)
    requires
        forall|i: int|
            0 <= i < odoo.symbols@.len() ==> symbol_within(odoo, #[trigger] odoo.symbols@[i]),
        forall|i: int, k: int|
            0 <= i < odoo.models@.len() && 0 <= k < odoo.models@[i].classes@.len() ==> (
            #[trigger] odoo.models@[i].classes@[k]) < odoo.symbols@.len() && odoo.symbols@[
                odoo.models@[i].classes@[k] as int
            ].kind is Class,
        forall|i: int, l: int, k: int|
            0 <= i < odoo.models@.len() && 0 <= l < odoo.models@[i].listings@.len() && 0 <= k
                < odoo.models@[i].listings@[l].symbols@.len() ==> (
            #[trigger] odoo.models@[i].listings@[l].symbols@[k]).symbol < odoo.symbols@.len(),
        forall|i: int, k: int|
            0 <= i < odoo.xml_ids@.len() && 0 <= k < odoo.xml_ids@[i].data@.len() ==> (
            match #[trigger] odoo.xml_ids@[i].data@[k] {
                OdooData::RECORD(record) => record.file_symbol matches Some(file) ==> file
                    < odoo.symbols@.len(),
                OdooData::OTHER(file) => file matches Some(f) ==> f < odoo.symbols@.len(),
            }),
    ensures
        odoo.wf(),
{
    let n = odoo.symbols@.len() as int;
    assert forall|table: Seq<NamedSections>| table_within(
        table,
        n,
    ) implies #[trigger] odoo.table_wf(table) by {
        assert forall|i: int| 0 <= i < table.len() implies odoo.sections_wf(
            (#[trigger] table[i]).sections@,
        ) by {
            assert forall|j: int| 0 <= j < table[i].sections@.len() implies odoo.ids_wf(
                (#[trigger] table[i].sections@[j])@,
            ) by {
                assert(all_within(table[i].sections@[j]@, n));
            }
        }
    }
    assert forall|i: int| 0 <= i < odoo.symbols@.len() implies odoo.symbol_wf(
        #[trigger] odoo.symbols@[i],
    ) by {}
    assert forall|i: int| 0 <= i < odoo.models@.len() implies odoo.model_wf(
        #[trigger] odoo.models@[i],
    ) by {
        let model = odoo.models@[i];
        assert forall|k: int| 0 <= k < model.classes@.len() implies odoo.valid(
            #[trigger] model.classes@[k],
        ) && odoo.symbol(model.classes@[k]).is_class() by {
            assert(odoo.models@[i].classes@[k] < odoo.symbols@.len());
        }
        assert forall|l: int| 0 <= l < model.listings@.len() implies odoo.listing_wf(
            #[trigger] model.listings@[l],
        ) by {
            assert forall|k: int| 0 <= k < model.listings@[l].symbols@.len() implies odoo.valid(
                (#[trigger] model.listings@[l].symbols@[k]).symbol,
            ) by {
                assert(odoo.models@[i].listings@[l].symbols@[k].symbol < odoo.symbols@.len());
            }
        }
    }
    assert forall|i: int| 0 <= i < odoo.xml_ids@.len() implies odoo.entry_wf(
        #[trigger] odoo.xml_ids@[i],
    ) by {
        let entry = odoo.xml_ids@[i];
        assert forall|k: int| 0 <= k < entry.data@.len() implies odoo.file_wf(
            (#[trigger] entry.data@[k]).file_symbol(),
        ) by {
            assert(odoo.xml_ids@[i].data@[k] == entry.data@[k]);
        }
    }
}

} // verus!
