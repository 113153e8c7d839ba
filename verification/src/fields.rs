//! The fields of a header as they were read, and the records they make: which
//! fields a record needs, what stands in for those it may lack, and which
//! names its kinds have.

use vstd::prelude::*;
use vstd::string::*;

use crate::error::{NuggetError, NuggetErrorView};
use crate::model::{
    capture_method_name, capture_method_named, clamped, clone_relations, clone_text,
    knowledge_type_name, knowledge_type_named, relations_of, tags_of, text_of, texts_of,
    CaptureMethod, Confidence, Domain, InboxItem, InboxItemView, KnowledgeType, KnowledgeUnit,
    KnowledgeUnitView, Relation, RelationView, Tag, Timestamp,
};

verus! {

/// The fields of the header of a filed unit, each as it was read or `None`
/// where the header lacks it. The confidence is in millionths.
#[derive(Debug)]
pub struct UnitFields {
    pub id: Option<String>,
    pub knowledge_type: Option<String>,
    pub domain: Option<String>,
    pub tags: Option<Vec<String>>,
    pub confidence: Option<i64>,
    pub source: Option<String>,
    pub related: Option<Vec<Relation>>,
}

/// The fields of the header of a pending item, each as it was read or `None`
/// where the header lacks it. The confidence is in millionths.
#[derive(Debug)]
pub struct ItemFields {
    pub id: Option<String>,
    pub knowledge_type: Option<String>,
    pub tags: Option<Vec<String>>,
    pub confidence: Option<i64>,
    pub source: Option<String>,
    pub related: Option<Vec<Relation>>,
    pub suggested_domain: Option<String>,
    pub suggested_path: Option<String>,
    pub captured_at: Option<Timestamp>,
    pub capture_method: Option<String>,
    pub capture_context: Option<String>,
}

/// What a `UnitFields` holds.
pub struct UnitFieldsView {
    pub id: Option<Seq<char>>,
    pub knowledge_type: Option<Seq<char>>,
    pub domain: Option<Seq<char>>,
    pub tags: Option<Seq<Seq<char>>>,
    pub confidence: Option<int>,
    pub source: Option<Seq<char>>,
    pub related: Option<Seq<RelationView>>,
}

/// What an `ItemFields` holds.
pub struct ItemFieldsView {
    pub id: Option<Seq<char>>,
    pub knowledge_type: Option<Seq<char>>,
    pub tags: Option<Seq<Seq<char>>>,
    pub confidence: Option<int>,
    pub source: Option<Seq<char>>,
    pub related: Option<Seq<RelationView>>,
    pub suggested_domain: Option<Seq<char>>,
    pub suggested_path: Option<Seq<char>>,
    pub captured_at: Option<Timestamp>,
    pub capture_method: Option<Seq<char>>,
    pub capture_context: Option<Seq<char>>,
}

/// The texts of an optional list of strings.
pub open spec fn opt_texts(v: Option<Vec<String>>) -> Option<Seq<Seq<char>>> {
    match v {
        Some(names) => Some(texts_of(names@)),
        None => None,
    }
}

/// The contents of an optional list of relations.
pub open spec fn opt_relations(v: Option<Vec<Relation>>) -> Option<Seq<RelationView>> {
    match v {
        Some(r) => Some(relations_of(r@)),
        None => None,
    }
}

/// An optional number of millionths.
pub open spec fn opt_number(v: Option<i64>) -> Option<int> {
    match v {
        Some(n) => Some(n as int),
        None => None,
    }
}

impl View for UnitFields {
    type V = UnitFieldsView;

    open spec fn view(&self) -> UnitFieldsView {
        UnitFieldsView {
            id: text_of(self.id),
            knowledge_type: text_of(self.knowledge_type),
            domain: text_of(self.domain),
            tags: opt_texts(self.tags),
            confidence: opt_number(self.confidence),
            source: text_of(self.source),
            related: opt_relations(self.related),
        }
    }
}

impl View for ItemFields {
    type V = ItemFieldsView;

    open spec fn view(&self) -> ItemFieldsView {
        ItemFieldsView {
            id: text_of(self.id),
            knowledge_type: text_of(self.knowledge_type),
            tags: opt_texts(self.tags),
            confidence: opt_number(self.confidence),
            source: text_of(self.source),
            related: opt_relations(self.related),
            suggested_domain: text_of(self.suggested_domain),
            suggested_path: text_of(self.suggested_path),
            captured_at: self.captured_at,
            capture_method: text_of(self.capture_method),
            capture_context: text_of(self.capture_context),
        }
    }
}

/// The reason given where a header lacks the field `name`.
pub open spec fn missing_field(name: Seq<char>) -> Seq<char> {
    "missing field `"@ + name + "`"@
}

/// The reason given where the field `name` holds `value`, which names none of
/// its kinds.
pub open spec fn unknown_value(name: Seq<char>, value: Seq<char>) -> Seq<char> {
    "unknown "@ + name + " `"@ + value + "`"@
}

/// The list `v`, or the empty list where there is none.
pub open spec fn or_empty<A>(v: Option<Seq<A>>) -> Seq<A> {
    match v {
        Some(s) => s,
        None => Seq::empty(),
    }
}

/// The confidence of `millionths`, brought into the range from 0 to 1, or
/// `fallback` where none is given.
pub open spec fn confidence_or(millionths: Option<int>, fallback: Confidence) -> Confidence {
    match millionths {
        Some(n) => Confidence(clamped(n) as u32),
        None => fallback,
    }
}

/// The knowledge type that the field `knowledge_type` names, or the reason
/// why there is none.
pub open spec fn type_from(field: Option<Seq<char>>) -> Result<KnowledgeType, Seq<char>> {
    match field {
        None => Err(missing_field("type"@)),
        Some(name) => match knowledge_type_named(name) {
            Some(k) => Ok(k),
            None => Err(unknown_value("type"@, name)),
        },
    }
}

/// The capture method that the field `capture_method` names, or the reason
/// why there is none.
pub open spec fn method_from(field: Option<Seq<char>>) -> Result<CaptureMethod, Seq<char>> {
    match field {
        None => Err(missing_field("capture_method"@)),
        Some(name) => match capture_method_named(name) {
            Some(m) => Ok(m),
            None => Err(unknown_value("capture_method"@, name)),
        },
    }
}

/// The unit that the fields `f` and the body `body` make, or the reason why
/// they make none. A unit needs an identifier, a type that is known, and a
/// domain. Tags and relations that are not given are empty; a confidence that
/// is not given is `fallback`.
pub open spec fn unit_from(f: UnitFieldsView, body: Seq<char>, fallback: Confidence) -> Result<
    KnowledgeUnitView,
    Seq<char>,
> {
    if f.id is None {
        Err(missing_field("id"@))
    } else if type_from(f.knowledge_type) is Err {
        Err(type_from(f.knowledge_type)->Err_0)
    } else if f.domain is None {
        Err(missing_field("domain"@))
    } else {
        Ok(
            KnowledgeUnitView {
                id: f.id->Some_0,
                knowledge_type: type_from(f.knowledge_type)->Ok_0,
                domain: f.domain->Some_0,
                tags: or_empty(f.tags),
                confidence: confidence_or(f.confidence, fallback),
                source: f.source,
                related: or_empty(f.related),
                body,
            },
        )
    }
}

/// The pending item that the fields `f` and the body `body` make, or the
/// reason why they make none. An item needs an identifier, a type that is
/// known, a suggested domain, the time of its capture, and a capture method
/// that is known.
pub open spec fn item_from(f: ItemFieldsView, body: Seq<char>, fallback: Confidence) -> Result<
    InboxItemView,
    Seq<char>,
> {
    if f.id is None {
        Err(missing_field("id"@))
    } else if type_from(f.knowledge_type) is Err {
        Err(type_from(f.knowledge_type)->Err_0)
    } else if f.suggested_domain is None {
        Err(missing_field("suggested_domain"@))
    } else if f.captured_at is None {
        Err(missing_field("captured_at"@))
    } else if method_from(f.capture_method) is Err {
        Err(method_from(f.capture_method)->Err_0)
    } else {
        Ok(
            InboxItemView {
                id: f.id->Some_0,
                knowledge_type: type_from(f.knowledge_type)->Ok_0,
                tags: or_empty(f.tags),
                confidence: confidence_or(f.confidence, fallback),
                source: f.source,
                related: or_empty(f.related),
                suggested_domain: f.suggested_domain->Some_0,
                suggested_path: f.suggested_path,
                captured_at: f.captured_at->Some_0,
                capture_method: method_from(f.capture_method)->Ok_0,
                capture_context: f.capture_context,
                body,
            },
        )
    }
}

/// The fields that the header of `u` holds: a source only where the unit has
/// one, relations only where it has some.
pub open spec fn fields_of_unit(u: KnowledgeUnitView) -> UnitFieldsView {
    UnitFieldsView {
        id: Some(u.id),
        knowledge_type: Some(knowledge_type_name(u.knowledge_type)),
        domain: Some(u.domain),
        tags: Some(u.tags),
        confidence: Some(u.confidence.0 as int),
        source: u.source,
        related: if u.related.len() == 0 {
            None
        } else {
            Some(u.related)
        },
    }
}

/// The fields that the header of `i` holds.
pub open spec fn fields_of_item(i: InboxItemView) -> ItemFieldsView {
    ItemFieldsView {
        id: Some(i.id),
        knowledge_type: Some(knowledge_type_name(i.knowledge_type)),
        tags: Some(i.tags),
        confidence: Some(i.confidence.0 as int),
        source: i.source,
        related: if i.related.len() == 0 {
            None
        } else {
            Some(i.related)
        },
        suggested_domain: Some(i.suggested_domain),
        suggested_path: i.suggested_path,
        captured_at: Some(i.captured_at),
        capture_method: Some(capture_method_name(i.capture_method)),
        capture_context: i.capture_context,
    }
}

/// The fields of a record make that record again, field for field, whatever
/// stands in for a confidence that is not given: for every unit and every
/// item whose confidence lies between 0 and 1.
pub proof fn law_fields_make_the_record_again(
    u: KnowledgeUnitView,
    i: InboxItemView,
    fallback: Confidence,
)
    requires
        u.confidence.well_formed(),
        i.confidence.well_formed(),
    ensures
        unit_from(fields_of_unit(u), u.body, fallback) == Ok::<KnowledgeUnitView, Seq<char>>(u),
        item_from(fields_of_item(i), i.body, fallback) == Ok::<InboxItemView, Seq<char>>(i),
{
    crate::model::law_names_are_found_again(
        u.knowledge_type,
        i.capture_method,
        crate::model::RelationType::Uses,
    );
    crate::model::law_names_are_found_again(
        i.knowledge_type,
        i.capture_method,
        crate::model::RelationType::Uses,
    );
    assert(or_empty(fields_of_unit(u).related) =~= u.related);
    assert(or_empty(fields_of_item(i).related) =~= i.related);
    let made = unit_from(fields_of_unit(u), u.body, fallback)->Ok_0;
    assert(made.confidence == u.confidence);
    assert(made == u);
    let staged = item_from(fields_of_item(i), i.body, fallback)->Ok_0;
    assert(staged.confidence == i.confidence);
    assert(staged == i);
}

/// The error for the file `path` whose header cannot be decoded for the
/// reason `reason`.
fn invalid(path: &str, reason: Vec<char>) -> (e: NuggetError)
    ensures
        e@ == (NuggetErrorView::InvalidFrontmatter { path: path@, reason: reason@ }),
{
    NuggetError::InvalidFrontmatter {
        path: String::from_str(path),
        reason: crate::text::string_of(&reason),
    }
}

/// The reason given where a header lacks the field `name`.
fn reason_missing(name: &str) -> (r: Vec<char>)
    ensures
        r@ == missing_field(name@),
{
    let mut out = crate::text::chars_of("missing field `");
    let n = crate::text::chars_of(name);
    crate::text::push_range(&mut out, &n, 0, n.len());
    assert(n@.subrange(0, n@.len() as int) =~= n@);
    out.push('`');
    proof {
        reveal_strlit("`");
        assert("`"@ =~= seq!['`']);
        assert(out@ =~= missing_field(name@));
    }
    out
}

/// The reason given where the field `name` holds the unknown `value`.
fn reason_unknown(name: &str, value: &str) -> (r: Vec<char>)
    ensures
        r@ == unknown_value(name@, value@),
{
    let mut out = crate::text::chars_of("unknown ");
    let n = crate::text::chars_of(name);
    crate::text::push_range(&mut out, &n, 0, n.len());
    assert(n@.subrange(0, n@.len() as int) =~= n@);
    out.push(' ');
    out.push('`');
    let v = crate::text::chars_of(value);
    crate::text::push_range(&mut out, &v, 0, v.len());
    assert(v@.subrange(0, v@.len() as int) =~= v@);
    out.push('`');
    proof {
        reveal_strlit("`");
        reveal_strlit(" `");
        assert("`"@ =~= seq!['`']);
        assert(" `"@ =~= seq![' ', '`']);
        assert(out@ =~= unknown_value(name@, value@));
    }
    out
}

/// The knowledge type that the field `field` names.
fn read_type(field: &Option<String>) -> (r: Result<KnowledgeType, Vec<char>>)
    ensures
        match type_from(text_of(*field)) {
            Ok(k) => r == Ok::<KnowledgeType, Vec<char>>(k),
            Err(reason) => r matches Err(x) && x@ == reason,
        },
{
    match field {
        None => Err(reason_missing("type")),
        Some(name) => match KnowledgeType::from_name(name.as_str()) {
            Some(k) => Ok(k),
            None => Err(reason_unknown("type", name.as_str())),
        },
    }
}

/// The capture method that the field `field` names.
fn read_method(field: &Option<String>) -> (r: Result<CaptureMethod, Vec<char>>)
    ensures
        match method_from(text_of(*field)) {
            Ok(m) => r == Ok::<CaptureMethod, Vec<char>>(m),
            Err(reason) => r matches Err(x) && x@ == reason,
        },
{
    match field {
        None => Err(reason_missing("capture_method")),
        Some(name) => match CaptureMethod::from_name(name.as_str()) {
            Some(m) => Ok(m),
            None => Err(reason_unknown("capture_method", name.as_str())),
        },
    }
}

/// The tags named `names`, or none where no names are given.
fn read_tags(names: Option<Vec<String>>) -> (r: Vec<Tag>)
    ensures
        tags_of(r@) == or_empty(opt_texts(names)),
{
    let mut out: Vec<Tag> = Vec::new();
    match names {
        Some(list) => {
            let mut n: usize = 0;
            assert(tags_of(out@) =~= texts_of(list@).take(0));
            while n < list.len()
                invariant
                    n <= list.len(),
                    tags_of(out@) == texts_of(list@).take(n as int),
                decreases list.len() - n,
            {
                let ghost before = tags_of(out@);
                out.push(Tag(list[n].clone()));
                assert(tags_of(out@) =~= before.push(list@[n as int]@));
                assert(texts_of(list@).take(n + 1) =~= texts_of(list@).take(n as int).push(
                    list@[n as int]@,
                ));
                n += 1;
            }
            assert(texts_of(list@).take(list.len() as int) =~= texts_of(list@));
        },
        None => {
            assert(tags_of(out@) =~= Seq::empty());
        },
    }
    out
}

/// The relations `given`, or none where none are given.
fn read_relations(given: Option<Vec<Relation>>) -> (r: Vec<Relation>)
    ensures
        relations_of(r@) == or_empty(opt_relations(given)),
{
    match given {
        Some(list) => list,
        None => {
            let out: Vec<Relation> = Vec::new();
            assert(relations_of(out@) =~= Seq::empty());
            out
        },
    }
}

/// The confidence of `millionths`, or `fallback` where none is given.
fn read_confidence(millionths: Option<i64>, fallback: Confidence) -> (r: Confidence)
    ensures
        r == confidence_or(opt_number(millionths), fallback),
{
    match millionths {
        Some(n) => Confidence::new(n),
        None => fallback,
    }
}

/// The unit of the file `path` whose header holds the fields `fields` and
/// whose body is `body`. A confidence that the header lacks is `fallback`.
pub fn decode_unit(fields: UnitFields, body: String, path: &str, fallback: Confidence) -> (r:
    Result<KnowledgeUnit, NuggetError>)
    ensures
        match unit_from(fields@, body@, fallback) {
            Ok(unit) => r matches Ok(u) && u@ == unit,
            Err(reason) => r matches Err(e) && e@ == (NuggetErrorView::InvalidFrontmatter {
                path: path@,
                reason,
            }),
        },
{
    let id = match fields.id {
        Some(id) => id,
        None => {
            return Err(invalid(path, reason_missing("id")));
        },
    };
    let knowledge_type = match read_type(&fields.knowledge_type) {
        Ok(k) => k,
        Err(reason) => {
            return Err(invalid(path, reason));
        },
    };
    let domain = match fields.domain {
        Some(d) => d,
        None => {
            return Err(invalid(path, reason_missing("domain")));
        },
    };
    Ok(
        KnowledgeUnit {
            id,
            knowledge_type,
            domain: Domain(domain),
            tags: read_tags(fields.tags),
            confidence: read_confidence(fields.confidence, fallback),
            source: fields.source,
            related: read_relations(fields.related),
            body,
        },
    )
}

/// The pending item of the file `path` whose header holds the fields
/// `fields` and whose body is `body`. A confidence that the header lacks is
/// `fallback`.
pub fn decode_item(fields: ItemFields, body: String, path: &str, fallback: Confidence) -> (r:
    Result<InboxItem, NuggetError>)
    ensures
        match item_from(fields@, body@, fallback) {
            Ok(item) => r matches Ok(i) && i@ == item,
            Err(reason) => r matches Err(e) && e@ == (NuggetErrorView::InvalidFrontmatter {
                path: path@,
                reason,
            }),
        },
{
    let id = match fields.id {
        Some(id) => id,
        None => {
            return Err(invalid(path, reason_missing("id")));
        },
    };
    let knowledge_type = match read_type(&fields.knowledge_type) {
        Ok(k) => k,
        Err(reason) => {
            return Err(invalid(path, reason));
        },
    };
    let suggested_domain = match fields.suggested_domain {
        Some(d) => d,
        None => {
            return Err(invalid(path, reason_missing("suggested_domain")));
        },
    };
    let captured_at = match fields.captured_at {
        Some(t) => t,
        None => {
            return Err(invalid(path, reason_missing("captured_at")));
        },
    };
    let capture_method = match read_method(&fields.capture_method) {
        Ok(m) => m,
        Err(reason) => {
            return Err(invalid(path, reason));
        },
    };
    Ok(
        InboxItem {
            id,
            knowledge_type,
            tags: read_tags(fields.tags),
            confidence: read_confidence(fields.confidence, fallback),
            source: fields.source,
            related: read_relations(fields.related),
            suggested_domain: Domain(suggested_domain),
            suggested_path: fields.suggested_path,
            captured_at,
            capture_method,
            capture_context: fields.capture_context,
            body,
        },
    )
}

/// The names of the tags `tags`.
fn tag_names(tags: &Vec<Tag>) -> (r: Vec<String>)
    ensures
        texts_of(r@) == tags_of(tags@),
{
    let mut out: Vec<String> = Vec::new();
    let mut n: usize = 0;
    assert(texts_of(out@) =~= tags_of(tags@).take(0));
    while n < tags.len()
        invariant
            n <= tags.len(),
            texts_of(out@) == tags_of(tags@).take(n as int),
        decreases tags.len() - n,
    {
        let ghost before = texts_of(out@);
        out.push(tags[n].to_string());
        assert(texts_of(out@) =~= before.push(tags@[n as int]@));
        assert(tags_of(tags@).take(n + 1) =~= tags_of(tags@).take(n as int).push(
            tags@[n as int]@,
        ));
        n += 1;
    }
    assert(tags_of(tags@).take(tags.len() as int) =~= tags_of(tags@));
    out
}

/// The relations `related` as a field: none where there are none.
fn relations_field(related: &Vec<Relation>) -> (r: Option<Vec<Relation>>)
    ensures
        opt_relations(r) == if relations_of(related@).len() == 0 {
            None::<Seq<RelationView>>
        } else {
            Some(relations_of(related@))
        },
{
    if related.len() == 0 {
        None
    } else {
        Some(clone_relations(related))
    }
}

/// The fields that the header of `unit` holds.
pub fn encode_unit(unit: &KnowledgeUnit) -> (r: UnitFields)
    ensures
        r@ == fields_of_unit(unit@),
{
    UnitFields {
        id: Some(unit.id.clone()),
        knowledge_type: Some(unit.knowledge_type.to_string()),
        domain: Some(unit.domain.to_string()),
        tags: Some(tag_names(&unit.tags)),
        confidence: Some(unit.confidence.0 as i64),
        source: clone_text(&unit.source),
        related: relations_field(&unit.related),
    }
}

/// The fields that the header of `item` holds.
pub fn encode_item(item: &InboxItem) -> (r: ItemFields)
    ensures
        r@ == fields_of_item(item@),
{
    ItemFields {
        id: Some(item.id.clone()),
        knowledge_type: Some(item.knowledge_type.to_string()),
        tags: Some(tag_names(&item.tags)),
        confidence: Some(item.confidence.0 as i64),
        source: clone_text(&item.source),
        related: relations_field(&item.related),
        suggested_domain: Some(item.suggested_domain.to_string()),
        suggested_path: clone_text(&item.suggested_path),
        captured_at: Some(item.captured_at),
        capture_method: Some(item.capture_method.to_string()),
        capture_context: clone_text(&item.capture_context),
    }
}

} // verus!
