//! The model of an inheriting view: the one that the first view up the `inherit_id` chain
//! declares.

use crate::seqs;
use crate::session;
use crate::session::{
    OdooData, OdooDataField, OdooDataRecord, SessionInfo, SymbolId, SyncOdoo, XmlIdEntry,
};
use crate::text;
use crate::xml_ast_utils::XmlAstUtils;
use vstd::prelude::*;

verus! {

/// What a view says of its model: its name, the view to ask next, or nothing.
pub enum ViewStep {
    Model(Seq<char>),
    Next(Seq<char>),
    Dead,
}

/// The first record among some data.
pub open spec fn first_record(data: Seq<OdooData>) -> Option<OdooDataRecord> {
    match seqs::find_first(data, |d: OdooData| d is RECORD) {
        Some(d) => Some(d->RECORD_0),
        None => None,
    }
}

/// The first field called `name`.
pub open spec fn field_named(fields: Seq<OdooDataField>, name: Seq<char>) -> Option<OdooDataField> {
    seqs::find_first(fields, |f: OdooDataField| f.is_named(name))
}

/// What a record of a view says of its model. A blank text names no model, and ends the chain.
pub open spec fn record_step(record: OdooDataRecord) -> ViewStep {
    match field_named(record.fields@, "model"@) {
        Some(OdooDataField { text: Some(t), .. }) => if text::trimmed(t@).len() > 0 {
            ViewStep::Model(text::trimmed(t@))
        } else {
            ViewStep::Dead
        },
        _ => match field_named(record.fields@, "inherit_id"@) {
            Some(OdooDataField { ref_key: Some(next), .. }) => ViewStep::Next(next@),
            _ => ViewStep::Dead,
        },
    }
}

/// What the view `xml_id` says of its model.
pub open spec fn view_step(odoo: SyncOdoo, from_file: SymbolId, xml_id: Seq<char>) -> ViewStep {
    match first_record(odoo.xml_data(from_file, xml_id)) {
        Some(record) => record_step(record),
        None => ViewStep::Dead,
    }
}

/// The view that is reached from `xml_id` by following `n` references.
pub open spec fn ancestor(odoo: SyncOdoo, from_file: SymbolId, xml_id: Seq<char>, n: nat) -> Option<
    Seq<char>,
>
    decreases n,
{
    if n == 0 {
        Some(xml_id)
    } else {
        match ancestor(odoo, from_file, xml_id, (n - 1) as nat) {
            Some(id) => match view_step(odoo, from_file, id) {
                ViewStep::Next(next) => Some(next),
                _ => None,
            },
            None => None,
        }
    }
}

/// Whether the view reached by following `n` references declares `model`.
pub open spec fn declares(
    odoo: SyncOdoo,
    from_file: SymbolId,
    xml_id: Seq<char>,
    n: nat,
    model: Seq<char>,
) -> bool {
    ancestor(odoo, from_file, xml_id, n) matches Some(id) && view_step(odoo, from_file, id)
        == ViewStep::Model(model)
}

/// The model that some view up the chain declares. A chain that ends without one, or that never
/// ends, has none.
pub open spec fn view_model(odoo: SyncOdoo, from_file: SymbolId, xml_id: Seq<char>) -> Option<
    Seq<char>,
> {
    if exists|n: nat, model: Seq<char>| declares(odoo, from_file, xml_id, n, model) {
        let (_, model) = choose|n: nat, model: Seq<char>|
            declares(odoo, from_file, xml_id, n, model);
        Some(model)
    } else {
        None
    }
}

/// An ancestor's ancestors are ancestors.
proof fn lemma_ancestor_defined(
    odoo: SyncOdoo,
    from_file: SymbolId,
    xml_id: Seq<char>,
    n: nat,
    m: nat,
)
    requires
        n <= m,
        ancestor(odoo, from_file, xml_id, m) is Some,
    ensures
        ancestor(odoo, from_file, xml_id, n) is Some,
        n < m ==> view_step(odoo, from_file, ancestor(odoo, from_file, xml_id, n).unwrap()) is Next,
    decreases m,
{
    if n < m {
        lemma_ancestor_defined(odoo, from_file, xml_id, n, (m - 1) as nat);
    }
}

/// Only one view up a chain can declare a model.
pub proof fn lemma_declares_unique(
    odoo: SyncOdoo,
    from_file: SymbolId,
    xml_id: Seq<char>,
    n: nat,
    model: Seq<char>,
    m: nat,
    other: Seq<char>,
)
    requires
        declares(odoo, from_file, xml_id, n, model),
        declares(odoo, from_file, xml_id, m, other),
    ensures
        n == m,
        model == other,
{
    if n < m {
        lemma_ancestor_defined(odoo, from_file, xml_id, n, m);
    } else if m < n {
        lemma_ancestor_defined(odoo, from_file, xml_id, m, n);
    }
}

/// A view up the chain that declares a model gives the view's model.
pub proof fn lemma_view_model_found(
    odoo: SyncOdoo,
    from_file: SymbolId,
    xml_id: Seq<char>,
    n: nat,
    model: Seq<char>,
)
    requires
        declares(odoo, from_file, xml_id, n, model),
    ensures
        view_model(odoo, from_file, xml_id) == Some(model),
{
    let (m, other) = choose|m: nat, other: Seq<char>|
        declares(odoo, from_file, xml_id, m, other);
    lemma_declares_unique(odoo, from_file, xml_id, n, model, m, other);
}

/// The model of a view is never blank, and has no white space around it.
pub proof fn law_view_model_is_a_name(odoo: SyncOdoo, from_file: SymbolId, xml_id: Seq<char>)
    ensures
        view_model(odoo, from_file, xml_id) matches Some(model) ==> model.len() > 0
            && text::trimmed(model) == model,
{
    if let Some(model) = view_model(odoo, from_file, xml_id) {
        let (n, found) = choose|n: nat, found: Seq<char>|
            declares(odoo, from_file, xml_id, n, found);
        let view = ancestor(odoo, from_file, xml_id, n).unwrap();
        let record = first_record(odoo.xml_data(from_file, view)).unwrap();
        let field = field_named(record.fields@, "model"@).unwrap();
        text::lemma_trimmed_twice(field.text.unwrap()@);
    }
}

/// A chain that ends without a model has none.
proof fn lemma_view_model_dead(odoo: SyncOdoo, from_file: SymbolId, xml_id: Seq<char>, n: nat)
    requires
        ancestor(odoo, from_file, xml_id, n) matches Some(id) && view_step(odoo, from_file, id)
            is Dead,
    ensures
        view_model(odoo, from_file, xml_id) is None,
{
    assert forall|m: nat, model: Seq<char>| !declares(odoo, from_file, xml_id, m, model) by {
        if declares(odoo, from_file, xml_id, m, model) {
            if m < n {
                lemma_ancestor_defined(odoo, from_file, xml_id, m, n);
            } else if n < m {
                lemma_ancestor_defined(odoo, from_file, xml_id, n, m);
            }
        }
    }
}

/// On a chain that comes back to a view, every step stays within the views before that.
proof fn lemma_cycle(
    odoo: SyncOdoo,
    from_file: SymbolId,
    xml_id: Seq<char>,
    n: nat,
    m: nat,
    k: nat,
) -> (j: nat)
    requires
        n < m,
        ancestor(odoo, from_file, xml_id, m) is Some,
        ancestor(odoo, from_file, xml_id, n) == ancestor(odoo, from_file, xml_id, m),
    ensures
        j < m,
        ancestor(odoo, from_file, xml_id, k) == ancestor(odoo, from_file, xml_id, j),
    decreases k,
{
    if k < m {
        k
    } else {
        let i = lemma_cycle(odoo, from_file, xml_id, n, m, (k - 1) as nat);
        if i + 1 == m {
            n
        } else {
            assert(ancestor(odoo, from_file, xml_id, (i + 1) as nat) == ancestor(
                odoo,
                from_file,
                xml_id,
                k,
            ));
            (i + 1) as nat
        }
    }
}

/// A chain that comes back to a view has no model.
pub proof fn law_circular_chain_has_no_model(
    odoo: SyncOdoo,
    from_file: SymbolId,
    xml_id: Seq<char>,
    n: nat,
    m: nat,
)
    requires
        n < m,
        ancestor(odoo, from_file, xml_id, m) is Some,
        ancestor(odoo, from_file, xml_id, n) == ancestor(odoo, from_file, xml_id, m),
    ensures
        view_model(odoo, from_file, xml_id) is None,
{
    assert forall|k: nat, model: Seq<char>| !declares(odoo, from_file, xml_id, k, model) by {
        let j = lemma_cycle(odoo, from_file, xml_id, n, m, k);
        lemma_ancestor_defined(odoo, from_file, xml_id, j, m);
    }
}

/// An ancestor of the next view is an ancestor one step further.
proof fn lemma_ancestor_shift(
    odoo: SyncOdoo,
    from_file: SymbolId,
    xml_id: Seq<char>,
    next: Seq<char>,
    n: nat,
)
    requires
        view_step(odoo, from_file, xml_id) == ViewStep::Next(next),
    ensures
        ancestor(odoo, from_file, xml_id, n + 1) == ancestor(odoo, from_file, next, n),
    decreases n,
{
    if n > 0 {
        lemma_ancestor_shift(odoo, from_file, xml_id, next, (n - 1) as nat);
    } else {
        assert(ancestor(odoo, from_file, xml_id, 0) == Some(xml_id));
    }
}

/// A view that declares no model has the model of the view that it inherits from.
pub proof fn law_inherited_model(
    odoo: SyncOdoo,
    from_file: SymbolId,
    xml_id: Seq<char>,
    next: Seq<char>,
)
    requires
        view_step(odoo, from_file, xml_id) == ViewStep::Next(next),
    ensures
        view_model(odoo, from_file, xml_id) == view_model(odoo, from_file, next),
{
    if let Some(model) = view_model(odoo, from_file, next) {
        let (n, m) = choose|n: nat, m: Seq<char>| declares(odoo, from_file, next, n, m);
        lemma_ancestor_shift(odoo, from_file, xml_id, next, n);
        assert(declares(odoo, from_file, xml_id, n + 1, m));
        lemma_view_model_found(odoo, from_file, xml_id, n + 1, m);
        lemma_view_model_found(odoo, from_file, next, n, m);
    } else {
        assert forall|n: nat, m: Seq<char>| !declares(odoo, from_file, xml_id, n, m) by {
            if declares(odoo, from_file, xml_id, n, m) {
                if n == 0 {
                    assert(ancestor(odoo, from_file, xml_id, 0) == Some(xml_id));
                } else {
                    lemma_ancestor_shift(odoo, from_file, xml_id, next, (n - 1) as nat);
                    assert(declares(odoo, from_file, next, (n - 1) as nat, m));
                }
            }
        }
    }
}

/// Whether the first record that `xml_id` stands for, when it is written in `from_file`, is
/// `record`.
pub open spec fn is_record_of(
    odoo: SyncOdoo,
    from_file: SymbolId,
    xml_id: Seq<char>,
    record: OdooDataRecord,
) -> bool {
    exists|e: int, d: int| #[trigger] is_record_at(odoo, from_file, xml_id, record, e, d)
}

/// Whether `record` is the datum `d` of the entry `e` of the table of XML ids, `e` is the first
/// entry for `xml_id`, and `d` its first record.
pub open spec fn is_record_at(
    odoo: SyncOdoo,
    from_file: SymbolId,
    xml_id: Seq<char>,
    record: OdooDataRecord,
    e: int,
    d: int,
) -> bool {
    &&& 0 <= e < odoo.xml_ids@.len()
    &&& odoo.xml_ids@[e].from_file == from_file
    &&& odoo.xml_ids@[e].xml_id@ == xml_id
    &&& forall|j: int|
        0 <= j < e ==> !((#[trigger] odoo.xml_ids@[j]).from_file == from_file
            && odoo.xml_ids@[j].xml_id@ == xml_id)
    &&& 0 <= d < odoo.xml_ids@[e].data@.len()
    &&& odoo.xml_ids@[e].data@[d] == OdooData::RECORD(record)
    &&& forall|j: int| 0 <= j < d ==> (#[trigger] odoo.xml_ids@[e].data@[j]) !is RECORD
}

/// Whether `k` is the place of the first field called `name`.
pub open spec fn is_first_field(fields: Seq<OdooDataField>, name: Seq<char>, k: int) -> bool {
    &&& 0 <= k < fields.len()
    &&& fields[k].name@ == name
    &&& forall|j: int| 0 <= j < k ==> (#[trigger] fields[j]).name@ != name
}

/// Whether no field is called `name`.
pub open spec fn has_no_field(fields: Seq<OdooDataField>, name: Seq<char>) -> bool {
    forall|j: int| 0 <= j < fields.len() ==> (#[trigger] fields[j]).name@ != name
}

/// Whether a record says nothing of its model: it has no field `model`, or the first one holds no
/// text.
pub open spec fn is_silent(record: OdooDataRecord) -> bool {
    ||| has_no_field(record.fields@, "model"@)
    ||| exists|k: int| #[trigger]
        is_first_field(record.fields@, "model"@, k) && record.fields@[k].text is None
}

proof fn lemma_first_field(fields: Seq<OdooDataField>, name: Seq<char>)
    ensures
        has_no_field(fields, name) ==> field_named(fields, name) is None,
        forall|k: int| #[trigger]
            is_first_field(fields, name, k) ==> field_named(fields, name) == Some(fields[k]),
{
    let p = |f: OdooDataField| f.is_named(name);
    if has_no_field(fields, name) {
        seqs::lemma_find_first_none(fields, p);
    }
    assert forall|k: int| #[trigger] is_first_field(fields, name, k) implies field_named(
        fields,
        name,
    ) == Some(fields[k]) by {
        seqs::lemma_find_first_at(fields, p, k);
    }
}

proof fn lemma_record_of(
    odoo: SyncOdoo,
    from_file: SymbolId,
    xml_id: Seq<char>,
    record: OdooDataRecord,
)
    requires
        is_record_of(odoo, from_file, xml_id, record),
    ensures
        view_step(odoo, from_file, xml_id) == record_step(record),
{
    let (e, d) = choose|e: int, d: int| #[trigger]
        is_record_at(odoo, from_file, xml_id, record, e, d);
    session::law_first_entry_of_an_xml_id(odoo, from_file, xml_id, e);
    let p = |x: OdooData| x is RECORD;
    seqs::lemma_find_first_at(odoo.xml_ids@[e].data@, p, d);
}

/// A view whose record names its model is for that model, whatever else the record says.
pub proof fn law_named_model_is_the_views(
    odoo: SyncOdoo,
    from_file: SymbolId,
    xml_id: Seq<char>,
    record: OdooDataRecord,
    k: int,
)
    requires
        is_record_of(odoo, from_file, xml_id, record),
        is_first_field(record.fields@, "model"@, k),
        record.fields@[k].text is Some,
    ensures
        ({
            let name = text::trimmed(record.fields@[k].text.unwrap()@);
            view_model(odoo, from_file, xml_id) == (if name.len() > 0 {
                Some(name)
            } else {
                None
            })
        }),
{
    let name = text::trimmed(record.fields@[k].text.unwrap()@);
    lemma_record_of(odoo, from_file, xml_id, record);
    lemma_first_field(record.fields@, "model"@);
    assert(ancestor(odoo, from_file, xml_id, 0) == Some(xml_id));
    if name.len() > 0 {
        assert(declares(odoo, from_file, xml_id, 0, name));
        lemma_view_model_found(odoo, from_file, xml_id, 0, name);
    } else {
        lemma_view_model_dead(odoo, from_file, xml_id, 0);
    }
}

/// A view whose record says nothing of its model is for the model of the view that its first
/// field `inherit_id` refers to, and for none if that refers to none.
pub proof fn law_silent_view_inherits(
    odoo: SyncOdoo,
    from_file: SymbolId,
    xml_id: Seq<char>,
    record: OdooDataRecord,
    k: int,
)
    requires
        is_record_of(odoo, from_file, xml_id, record),
        is_silent(record),
        is_first_field(record.fields@, "inherit_id"@, k) || has_no_field(
            record.fields@,
            "inherit_id"@,
        ),
    ensures
        is_first_field(record.fields@, "inherit_id"@, k) ==> (match record.fields@[k].ref_key {
            Some(next) => view_model(odoo, from_file, xml_id) == view_model(
                odoo,
                from_file,
                next@,
            ),
            None => view_model(odoo, from_file, xml_id) is None,
        }),
        has_no_field(record.fields@, "inherit_id"@) ==> view_model(odoo, from_file, xml_id) is None,
{
    lemma_record_of(odoo, from_file, xml_id, record);
    lemma_first_field(record.fields@, "model"@);
    lemma_first_field(record.fields@, "inherit_id"@);
    assert(ancestor(odoo, from_file, xml_id, 0) == Some(xml_id));
    if is_first_field(record.fields@, "inherit_id"@, k) && record.fields@[k].ref_key is Some {
        law_inherited_model(odoo, from_file, xml_id, record.fields@[k].ref_key.unwrap()@);
    } else {
        lemma_view_model_dead(odoo, from_file, xml_id, 0);
    }
}

/// An XML id that stands for no record is no view, and has no model.
pub proof fn law_no_record_no_model(odoo: SyncOdoo, from_file: SymbolId, xml_id: Seq<char>)
    requires
        forall|e: int, d: int|
            0 <= e < odoo.xml_ids@.len() && odoo.xml_ids@[e].from_file == from_file
                && odoo.xml_ids@[e].xml_id@ == xml_id && 0 <= d < odoo.xml_ids@[e].data@.len()
                ==> (#[trigger] odoo.xml_ids@[e].data@[d]) !is RECORD,
    ensures
        view_model(odoo, from_file, xml_id) is None,
{
    let p = |e: XmlIdEntry| e.is_for(from_file, xml_id);
    let q = |x: OdooData| x is RECORD;
    seqs::lemma_find_first_holds(odoo.xml_ids@, p);
    let data = odoo.xml_data(from_file, xml_id);
    assert forall|d: int| 0 <= d < data.len() implies !q(#[trigger] data[d]) by {
        let entry = seqs::find_first(odoo.xml_ids@, p).unwrap();
        let e = choose|e: int| 0 <= e < odoo.xml_ids@.len() && odoo.xml_ids@[e] == entry;
        assert(odoo.xml_ids@[e].data@[d] == data[d]);
    }
    seqs::lemma_find_first_none(data, q);
    assert(ancestor(odoo, from_file, xml_id, 0) == Some(xml_id));
    lemma_view_model_dead(odoo, from_file, xml_id, 0);
}

/// Whether the table of XML ids says anything of `xml_id`.
pub open spec fn has_entry(odoo: SyncOdoo, from_file: SymbolId, xml_id: Seq<char>) -> bool {
    exists|i: int|
        0 <= i < odoo.xml_ids@.len() && (#[trigger] odoo.xml_ids@[i]).is_for(from_file, xml_id)
}

/// A view that says something of its model is in the table.
proof fn lemma_step_has_entry(odoo: SyncOdoo, from_file: SymbolId, xml_id: Seq<char>)
    requires
        first_record(odoo.xml_data(from_file, xml_id)) is Some,
    ensures
        has_entry(odoo, from_file, xml_id),
{
    let p = |e: XmlIdEntry| e.is_for(from_file, xml_id);
    seqs::lemma_find_first_holds(odoo.xml_ids@, p);
    if let Some(e) = seqs::find_first(odoo.xml_ids@, p) {
        let i = choose|i: int| 0 <= i < odoo.xml_ids@.len() && odoo.xml_ids@[i] == e;
        assert(odoo.xml_ids@[i].is_for(from_file, xml_id));
    }
}

/// Distinct ids that are all in the table are no more than its entries.
proof fn lemma_distinct_entries(odoo: SyncOdoo, from_file: SymbolId, ids: Seq<Seq<char>>)
    requires
        ids.no_duplicates(),
        forall|k: int| 0 <= k < ids.len() ==> has_entry(odoo, from_file, #[trigger] ids[k]),
    ensures
        ids.len() <= odoo.xml_ids@.len(),
{
    let keys = odoo.xml_ids@.map_values(|e: XmlIdEntry| e.xml_id@);
    assert forall|id: Seq<char>| ids.to_set().contains(id) implies keys.to_set().contains(id) by {
        let k = choose|k: int| 0 <= k < ids.len() && ids[k] == id;
        assert(has_entry(odoo, from_file, ids[k]));
        let i = choose|i: int|
            0 <= i < odoo.xml_ids@.len() && (#[trigger] odoo.xml_ids@[i]).is_for(from_file, id);
        assert(keys[i] == id);
    }
    ids.unique_seq_to_set();
    keys.lemma_cardinality_of_set();
    vstd::set_lib::lemma_len_subset(ids.to_set(), keys.to_set());
}

/// The first field called `name`.
fn find_field<'a>(fields: &'a Vec<OdooDataField>, name: &str) -> (res: Option<&'a OdooDataField>)
    ensures
        res matches Some(f) ==> field_named(fields@, name@) == Some(*f),
        res is None ==> field_named(fields@, name@) is None,
{
    let ghost p = |f: OdooDataField| f.is_named(name@);
    let mut i: usize = 0;
    while i < fields.len()
        invariant
            i <= fields.len(),
            p == (|f: OdooDataField| f.is_named(name@)),
            forall|j: int| 0 <= j < i ==> !p(#[trigger] fields@[j]),
        decreases fields.len() - i,
    {
        if text::same_text(&fields[i].name, name) {
            proof {
                seqs::lemma_find_first_at(fields@, p, i as int);
            }
            return Some(&fields[i]);
        }
        i += 1;
    }
    proof {
        seqs::lemma_find_first_none(fields@, p);
    }
    None
}

/// The first record that `xml_id` stands for.
fn find_record<'a>(odoo: &'a SyncOdoo, from_file: SymbolId, xml_id: &str) -> (res: Option<
    &'a OdooDataRecord,
>)
    ensures
        res matches Some(r) ==> first_record(odoo.xml_data(from_file, xml_id@)) == Some(*r),
        res is None ==> first_record(odoo.xml_data(from_file, xml_id@)) is None,
{
    let ghost p = |d: OdooData| d is RECORD;
    match odoo.get_xml_ids(from_file, xml_id) {
        Some(data) => {
            let mut i: usize = 0;
            while i < data.len()
                invariant
                    i <= data.len(),
                    odoo.xml_data(from_file, xml_id@) == data@,
                    p == (|d: OdooData| d is RECORD),
                    forall|j: int| 0 <= j < i ==> !p(#[trigger] data@[j]),
                decreases data.len() - i,
            {
                if let OdooData::RECORD(record) = &data[i] {
                    proof {
                        seqs::lemma_find_first_at(data@, p, i as int);
                    }
                    return Some(record);
                }
                i += 1;
            }
            proof {
                seqs::lemma_find_first_none(data@, p);
            }
            None
        },
        None => None,
    }
}

/// The place of `id` among `ids`.
fn position_of(ids: &Vec<String>, id: &str) -> (res: Option<usize>)
    ensures
        res matches Some(i) ==> i < ids@.len() && ids@[i as int]@ == id@,
        res is None ==> forall|j: int| 0 <= j < ids@.len() ==> (#[trigger] ids@[j])@ != id@,
{
    let mut i: usize = 0;
    while i < ids.len()
        invariant
            i <= ids.len(),
            forall|j: int| 0 <= j < i ==> (#[trigger] ids@[j])@ != id@,
        decreases ids.len() - i,
    {
        if text::same_text(&ids[i], id) {
            return Some(i);
        }
        i += 1;
    }
    None
}

impl XmlAstUtils {
    /// Follows the `inherit_id` chain up to the view that declares a model, and returns its name
    /// without the white space around it. `None` if the chain ends without one, ends in a view
    /// whose model is blank, or runs in a circle.
    pub fn resolve_inherited_view_model(
        session: &SessionInfo,
        from_file: SymbolId,
        inherit_ref: &str,
    ) -> (res: Option<String>)
        ensures
            res matches Some(m) ==> view_model(session.sync_odoo, from_file, inherit_ref@) == Some(m@),
            res is None ==> view_model(session.sync_odoo, from_file, inherit_ref@) is None,
            res matches Some(m) ==> m@.len() > 0 && text::trimmed(m@) == m@,
    {
        let odoo = &session.sync_odoo;
        let mut visited: Vec<String> = Vec::new();
        let mut current: String = inherit_ref.to_owned();
        loop
            invariant
                odoo == session.sync_odoo,
                ancestor(*odoo, from_file, inherit_ref@, visited@.len()) == Some(current@),
                forall|k: int|
                    0 <= k < visited@.len() ==> ancestor(*odoo, from_file, inherit_ref@, k as nat)
                        == Some((#[trigger] visited@[k])@) && has_entry(
                        *odoo,
                        from_file,
                        visited@[k]@,
                    ),
                forall|i: int, j: int|
                    0 <= i < j < visited@.len() ==> (#[trigger] visited@[i])@ != (
                    #[trigger] visited@[j])@,
            decreases odoo.xml_ids@.len() - visited@.len(),
        {
            let ghost n = visited@.len();
            if let Some(i) = position_of(&visited, &current) {
                proof {
                    assert(visited@[i as int]@ == current@);
                    law_circular_chain_has_no_model(*odoo, from_file, inherit_ref@, i as nat, n);
                }
                return None;
            }
            visited.push(current.clone());
            let parent_record = match find_record(odoo, from_file, &current) {
                Some(record) => record,
                None => {
                    proof {
                        lemma_view_model_dead(*odoo, from_file, inherit_ref@, n);
                    }
                    return None;
                },
            };
            if let Some(field) = find_field(&parent_record.fields, "model") {
                if let Some(model) = &field.text {
                    let model = model.as_str().trim().to_owned();
                    if model.as_str().is_empty() {
                        proof {
                            lemma_view_model_dead(*odoo, from_file, inherit_ref@, n);
                        }
                        return None;
                    }
                    proof {
                        text::lemma_trimmed_twice(field.text.unwrap()@);
                        assert(declares(*odoo, from_file, inherit_ref@, n, model@));
                        lemma_view_model_found(*odoo, from_file, inherit_ref@, n, model@);
                    }
                    return Some(model);
                }
            }
            if let Some(field) = find_field(&parent_record.fields, "inherit_id") {
                if let Some(next) = &field.ref_key {
                    proof {
                        lemma_step_has_entry(*odoo, from_file, current@);
                        let ids = visited@.map_values(|s: String| s@);
                        assert(ids.no_duplicates());
                        assert forall|k: int| 0 <= k < ids.len() implies has_entry(
                            *odoo,
                            from_file,
                            #[trigger] ids[k],
                        ) by {
                            assert(ids[k] == visited@[k]@);
                        }
                        lemma_distinct_entries(*odoo, from_file, ids);
                        assert(ancestor(*odoo, from_file, inherit_ref@, (n + 1) as nat) == Some(next@));
                    }
                    current = next.clone();
                    continue;
                }
            }
            proof {
                lemma_view_model_dead(*odoo, from_file, inherit_ref@, n);
            }
            return None;
        }
    }
}

/// Whether the view `xml_id` says nothing of its model and inherits from `next`.
pub open spec fn inherits_from(
    odoo: SyncOdoo,
    from_file: SymbolId,
    xml_id: Seq<char>,
    next: Seq<char>,
) -> bool {
    exists|record: OdooDataRecord, k: int|
        #![trigger is_record_of(odoo, from_file, xml_id, record), is_first_field(
            record.fields@,
            "inherit_id"@,
            k,
        )]
        is_record_of(odoo, from_file, xml_id, record) && is_silent(record) && is_first_field(
            record.fields@,
            "inherit_id"@,
            k,
        ) && (record.fields@[k].ref_key matches Some(ref_key) && ref_key@ == next)
}

/// Views that inherit from each other in a circle have no model.
pub proof fn law_circle_of_views_has_no_model(
    odoo: SyncOdoo,
    from_file: SymbolId,
    views: Seq<Seq<char>>,
)
    requires
        views.len() > 1,
        forall|i: int|
            0 <= i < views.len() - 1 ==> inherits_from(
                odoo,
                from_file,
                #[trigger] views[i],
                views[i + 1],
            ),
        views[0] == views[views.len() - 1],
    ensures
        view_model(odoo, from_file, views[0]) is None,
{
    let n = (views.len() - 1) as nat;
    lemma_chain_of_views(odoo, from_file, views, n);
    assert(ancestor(odoo, from_file, views[0], 0) == Some(views[0]));
    law_circular_chain_has_no_model(odoo, from_file, views[0], 0, n);
}

proof fn lemma_chain_of_views(odoo: SyncOdoo, from_file: SymbolId, views: Seq<Seq<char>>, n: nat)
    requires
        n < views.len(),
        forall|i: int|
            0 <= i < views.len() - 1 ==> inherits_from(
                odoo,
                from_file,
                #[trigger] views[i],
                views[i + 1],
            ),
    ensures
        ancestor(odoo, from_file, views[0], n) == Some(views[n as int]),
    decreases n,
{
    if n > 0 {
        lemma_chain_of_views(odoo, from_file, views, (n - 1) as nat);
        assert(inherits_from(odoo, from_file, views[n - 1], views[n as int]));
        let (record, k) = choose|record: OdooDataRecord, k: int|
            #![trigger is_record_of(odoo, from_file, views[n - 1], record), is_first_field(
                record.fields@,
                "inherit_id"@,
                k,
            )]
            is_record_of(odoo, from_file, views[n - 1], record) && is_silent(record)
                && is_first_field(record.fields@, "inherit_id"@, k) && (
            record.fields@[k].ref_key matches Some(ref_key) && ref_key@ == views[n as int]);
        lemma_record_of(odoo, from_file, views[n - 1], record);
        lemma_first_field(record.fields@, "model"@);
        lemma_first_field(record.fields@, "inherit_id"@);
    }
}

} // verus!
