//! The records of the store: knowledge units, inbox items and what they are
//! made of.

use vstd::prelude::*;
use vstd::string::*;

use crate::clock::now;

verus! {

/// What kind of knowledge a record holds.
#[derive(Debug, Clone, Copy, PartialEq, Eq, Structural)]
pub enum KnowledgeType {
    Concept,
    Pattern,
    Decision,
    Bug,
    Belief,
}

/// How an inbox item came to be.
#[derive(Debug, Clone, Copy, PartialEq, Eq, Structural)]
pub enum CaptureMethod {
    ClipboardUrl,
    ClipboardText,
    AiSession,
    WebCapture,
    Manual,
    Import,
}

/// A slash-delimited category path, such as `coding/rust`.
#[derive(Debug, PartialEq, Eq)]
pub struct Domain(pub String);

/// A short label.
#[derive(Debug, PartialEq, Eq)]
pub struct Tag(pub String);

/// A confidence between 0 and 1, in millionths.
#[derive(Debug, Clone, Copy, PartialEq, Eq, Structural)]
pub struct Confidence(pub u32);

/// A link to another record.
#[derive(Debug, PartialEq, Eq)]
pub struct Relation {
    pub target_id: String,
    pub kind: String,
}

/// A point in time: seconds since 1970-01-01T00:00:00Z and the nanoseconds
/// within that second.
#[derive(Debug, Clone, Copy, PartialEq, Eq, Structural)]
pub struct Timestamp {
    pub seconds: i64,
    pub nanos: u32,
}

/// A filed piece of knowledge.
#[derive(Debug)]
pub struct KnowledgeUnit {
    pub id: String,
    pub knowledge_type: KnowledgeType,
    pub domain: Domain,
    pub tags: Vec<Tag>,
    pub confidence: Confidence,
    pub source: Option<String>,
    pub related: Vec<Relation>,
    pub body: String,
}

/// A candidate that awaits review.
#[derive(Debug)]
pub struct InboxItem {
    pub id: String,
    pub knowledge_type: KnowledgeType,
    pub tags: Vec<Tag>,
    pub confidence: Confidence,
    pub source: Option<String>,
    pub related: Vec<Relation>,
    pub suggested_domain: Domain,
    pub suggested_path: Option<String>,
    pub captured_at: Timestamp,
    pub capture_method: CaptureMethod,
    pub capture_context: Option<String>,
    pub body: String,
}

/// What a `Relation` holds.
pub struct RelationView {
    pub target_id: Seq<char>,
    pub kind: Seq<char>,
}

/// What a `KnowledgeUnit` holds.
pub struct KnowledgeUnitView {
    pub id: Seq<char>,
    pub knowledge_type: KnowledgeType,
    pub domain: Seq<char>,
    pub tags: Seq<Seq<char>>,
    pub confidence: Confidence,
    pub source: Option<Seq<char>>,
    pub related: Seq<RelationView>,
    pub body: Seq<char>,
}

/// What an `InboxItem` holds.
pub struct InboxItemView {
    pub id: Seq<char>,
    pub knowledge_type: KnowledgeType,
    pub tags: Seq<Seq<char>>,
    pub confidence: Confidence,
    pub source: Option<Seq<char>>,
    pub related: Seq<RelationView>,
    pub suggested_domain: Seq<char>,
    pub suggested_path: Option<Seq<char>>,
    pub captured_at: Timestamp,
    pub capture_method: CaptureMethod,
    pub capture_context: Option<Seq<char>>,
    pub body: Seq<char>,
}

/// The characters of an optional string.
pub open spec fn text_of(s: Option<String>) -> Option<Seq<char>> {
    match s {
        Some(t) => Some(t@),
        None => None,
    }
}

/// The texts of a list of strings.
pub open spec fn texts_of(v: Seq<String>) -> Seq<Seq<char>> {
    v.map_values(|s: String| s@)
}

/// The texts of a list of tags.
pub open spec fn tags_of(v: Seq<Tag>) -> Seq<Seq<char>> {
    v.map_values(|t: Tag| t@)
}

/// The contents of a list of relations.
pub open spec fn relations_of(v: Seq<Relation>) -> Seq<RelationView> {
    v.map_values(|r: Relation| r@)
}

impl View for Domain {
    type V = Seq<char>;

    open spec fn view(&self) -> Seq<char> {
        self.0@
    }
}

impl View for Tag {
    type V = Seq<char>;

    open spec fn view(&self) -> Seq<char> {
        self.0@
    }
}

impl View for Relation {
    type V = RelationView;

    open spec fn view(&self) -> RelationView {
        RelationView { target_id: self.target_id@, kind: self.kind@ }
    }
}

impl View for KnowledgeUnit {
    type V = KnowledgeUnitView;

    open spec fn view(&self) -> KnowledgeUnitView {
        KnowledgeUnitView {
            id: self.id@,
            knowledge_type: self.knowledge_type,
            domain: self.domain@,
            tags: tags_of(self.tags@),
            confidence: self.confidence,
            source: text_of(self.source),
            related: relations_of(self.related@),
            body: self.body@,
        }
    }
}

impl View for InboxItem {
    type V = InboxItemView;

    open spec fn view(&self) -> InboxItemView {
        InboxItemView {
            id: self.id@,
            knowledge_type: self.knowledge_type,
            tags: tags_of(self.tags@),
            confidence: self.confidence,
            source: text_of(self.source),
            related: relations_of(self.related@),
            suggested_domain: self.suggested_domain@,
            suggested_path: text_of(self.suggested_path),
            captured_at: self.captured_at,
            capture_method: self.capture_method,
            capture_context: text_of(self.capture_context),
            body: self.body@,
        }
    }
}

impl Clone for Domain {
    fn clone(&self) -> (r: Self)
        ensures
            r == *self,
    {
        Domain(self.0.clone())
    }
}

impl Clone for Tag {
    fn clone(&self) -> (r: Self)
        ensures
            r == *self,
    {
        Tag(self.0.clone())
    }
}

impl Clone for Relation {
    fn clone(&self) -> (r: Self)
        ensures
            r == *self,
    {
        Relation { target_id: self.target_id.clone(), kind: self.kind.clone() }
    }
}

/// A copy of an optional string.
pub(crate) fn clone_text(s: &Option<String>) -> (r: Option<String>)
    ensures
        r == *s,
{
    match s {
        Some(t) => Some(t.clone()),
        None => None,
    }
}

/// A copy of a list of tags.
pub(crate) fn clone_tags(v: &Vec<Tag>) -> (r: Vec<Tag>)
    ensures
        r@ == v@,
{
    let mut r: Vec<Tag> = Vec::new();
    let mut i: usize = 0;
    while i < v.len()
        invariant
            i <= v.len(),
            r@ == v@.take(i as int),
        decreases v.len() - i,
    {
        r.push(v[i].clone());
        i += 1;
    }
    r
}

/// A copy of a list of relations.
pub(crate) fn clone_relations(v: &Vec<Relation>) -> (r: Vec<Relation>)
    ensures
        r@ == v@,
{
    let mut r: Vec<Relation> = Vec::new();
    let mut i: usize = 0;
    while i < v.len()
        invariant
            i <= v.len(),
            r@ == v@.take(i as int),
        decreases v.len() - i,
    {
        r.push(v[i].clone());
        i += 1;
    }
    r
}

impl Clone for KnowledgeUnit {
    fn clone(&self) -> (r: Self)
        ensures
            r@ == self@,
    {
        KnowledgeUnit {
            id: self.id.clone(),
            knowledge_type: self.knowledge_type,
            domain: self.domain.clone(),
            tags: clone_tags(&self.tags),
            confidence: self.confidence,
            source: clone_text(&self.source),
            related: clone_relations(&self.related),
            body: self.body.clone(),
        }
    }
}

impl Clone for InboxItem {
    fn clone(&self) -> (r: Self)
        ensures
            r@ == self@,
    {
        InboxItem {
            id: self.id.clone(),
            knowledge_type: self.knowledge_type,
            tags: clone_tags(&self.tags),
            confidence: self.confidence,
            source: clone_text(&self.source),
            related: clone_relations(&self.related),
            suggested_domain: self.suggested_domain.clone(),
            suggested_path: clone_text(&self.suggested_path),
            captured_at: self.captured_at,
            capture_method: self.capture_method,
            capture_context: clone_text(&self.capture_context),
            body: self.body.clone(),
        }
    }
}

/// The name of a knowledge type, as it is written in a record's header.
pub open spec fn knowledge_type_name(k: KnowledgeType) -> Seq<char> {
    match k {
        KnowledgeType::Concept => "concept"@,
        KnowledgeType::Pattern => "pattern"@,
        KnowledgeType::Decision => "decision"@,
        KnowledgeType::Bug => "bug"@,
        KnowledgeType::Belief => "belief"@,
    }
}

/// The name of a capture method, as it is written in a record's header.
pub open spec fn capture_method_name(m: CaptureMethod) -> Seq<char> {
    match m {
        CaptureMethod::ClipboardUrl => "clipboard-url"@,
        CaptureMethod::ClipboardText => "clipboard-text"@,
        CaptureMethod::AiSession => "ai-session"@,
        CaptureMethod::WebCapture => "web-capture"@,
        CaptureMethod::Manual => "manual"@,
        CaptureMethod::Import => "import"@,
    }
}

impl KnowledgeType {
    /// The name of this knowledge type.
    pub fn to_string(&self) -> (r: String)
        ensures
            r@ == knowledge_type_name(*self),
    {
        match self {
            KnowledgeType::Concept => String::from_str("concept"),
            KnowledgeType::Pattern => String::from_str("pattern"),
            KnowledgeType::Decision => String::from_str("decision"),
            KnowledgeType::Bug => String::from_str("bug"),
            KnowledgeType::Belief => String::from_str("belief"),
        }
    }
}

impl CaptureMethod {
    /// The name of this capture method.
    pub fn to_string(&self) -> (r: String)
        ensures
            r@ == capture_method_name(*self),
    {
        match self {
            CaptureMethod::ClipboardUrl => String::from_str("clipboard-url"),
            CaptureMethod::ClipboardText => String::from_str("clipboard-text"),
            CaptureMethod::AiSession => String::from_str("ai-session"),
            CaptureMethod::WebCapture => String::from_str("web-capture"),
            CaptureMethod::Manual => String::from_str("manual"),
            CaptureMethod::Import => String::from_str("import"),
        }
    }
}

impl Domain {
    /// The path of this domain.
    pub fn to_string(&self) -> (r: String)
        ensures
            r@ == self@,
    {
        self.0.clone()
    }
}

impl Tag {
    /// The text of this tag.
    pub fn to_string(&self) -> (r: String)
        ensures
            r@ == self@,
    {
        self.0.clone()
    }
}

/// The largest confidence: one, in millionths.
pub const FULL_CONFIDENCE: u32 = 1_000_000;

/// `value` brought into the range from 0 to `FULL_CONFIDENCE`.
pub open spec fn clamped(value: int) -> int {
    if value < 0 {
        0
    } else if value > FULL_CONFIDENCE {
        FULL_CONFIDENCE as int
    } else {
        value
    }
}

impl Confidence {
    /// Whether this confidence lies between 0 and 1.
    pub open spec fn well_formed(self) -> bool {
        self.0 <= FULL_CONFIDENCE
    }

    /// The confidence of `millionths` millionths, brought into the range
    /// from 0 to 1.
    pub fn new(millionths: i64) -> (r: Self)
        ensures
            r.0 == clamped(millionths as int),
            r.well_formed(),
    {
        if millionths < 0 {
            Confidence(0)
        } else if millionths > 1_000_000 {
            Confidence(FULL_CONFIDENCE)
        } else {
            Confidence(millionths as u32)
        }
    }
}

/// The confidence of a unit whose header names none.
pub const DEFAULT_UNIT_CONFIDENCE: u32 = 800_000;

/// The confidence of an inbox item whose header names none.
pub const DEFAULT_ITEM_CONFIDENCE: u32 = 700_000;

impl Timestamp {
    /// Whether `self` is earlier than `other`.
    pub open spec fn before(self, other: Timestamp) -> bool {
        self.seconds < other.seconds || (self.seconds == other.seconds && self.nanos
            < other.nanos)
    }

    /// Whether `self` is `other` or earlier.
    pub open spec fn not_after(self, other: Timestamp) -> bool {
        !other.before(self)
    }

    /// Whether `self` is earlier than `other`.
    pub fn is_before(&self, other: &Timestamp) -> (r: bool)
        ensures
            r == self.before(*other),
    {
        self.seconds < other.seconds || (self.seconds == other.seconds && self.nanos
            < other.nanos)
    }
}

/// The length of an identifier in text form: 32 hexadecimal digits and 4
/// hyphens.
pub const ID_LENGTH: usize = 36;

/// `uuid::Uuid::new_v4`, in the text form of `Display`: a random identifier.
/// Of the value only its length is claimed, which is that of the hyphenated
/// form.
#[verifier::external_body]
pub(crate) fn fresh_id() -> (id: String)
    ensures
        id@.len() == ID_LENGTH,
{
    uuid::Uuid::new_v4().to_string()
}

impl KnowledgeUnitView {
    /// A unit as it is first made: full confidence, no tags, no source, no
    /// relations.
    pub open spec fn fresh(
        id: Seq<char>,
        knowledge_type: KnowledgeType,
        domain: Seq<char>,
        body: Seq<char>,
    ) -> KnowledgeUnitView {
        KnowledgeUnitView {
            id,
            knowledge_type,
            domain,
            tags: Seq::empty(),
            confidence: Confidence(FULL_CONFIDENCE),
            source: None,
            related: Seq::empty(),
            body,
        }
    }
}

impl InboxItemView {
    /// An item as it is first made: the default confidence of a candidate, no
    /// tags, no source, no relations, no path, no context.
    pub open spec fn fresh(
        id: Seq<char>,
        captured_at: Timestamp,
        knowledge_type: KnowledgeType,
        suggested_domain: Seq<char>,
        capture_method: CaptureMethod,
        body: Seq<char>,
    ) -> InboxItemView {
        InboxItemView {
            id,
            knowledge_type,
            tags: Seq::empty(),
            confidence: Confidence(DEFAULT_ITEM_CONFIDENCE),
            source: None,
            related: Seq::empty(),
            suggested_domain,
            suggested_path: None,
            captured_at,
            capture_method,
            capture_context: None,
            body,
        }
    }

    /// The unit that this item becomes when it is filed under `domain`.
    pub open spec fn filed(self, domain: Seq<char>) -> KnowledgeUnitView {
        KnowledgeUnitView {
            id: self.id,
            knowledge_type: self.knowledge_type,
            domain,
            tags: self.tags,
            confidence: self.confidence,
            source: self.source,
            related: self.related,
            body: self.body,
        }
    }
}

impl KnowledgeUnit {
    /// A new unit with the identifier `id`.
    pub fn with_id(id: String, knowledge_type: KnowledgeType, domain: Domain, body: String) -> (r:
        Self)
        ensures
            r@ == KnowledgeUnitView::fresh(id@, knowledge_type, domain@, body@),
    {
        let r = KnowledgeUnit {
            id,
            knowledge_type,
            domain,
            tags: Vec::new(),
            confidence: Confidence(FULL_CONFIDENCE),
            source: None,
            related: Vec::new(),
            body,
        };
        assert(r@.tags =~= Seq::empty());
        assert(r@.related =~= Seq::empty());
        r
    }

    /// A new unit with a random identifier.
    pub fn new(knowledge_type: KnowledgeType, domain: Domain, body: String) -> (r: Self)
        ensures
            r@ == KnowledgeUnitView::fresh(r@.id, knowledge_type, domain@, body@),
            r@.id.len() == ID_LENGTH,
    {
        KnowledgeUnit::with_id(fresh_id(), knowledge_type, domain, body)
    }
}

impl InboxItem {
    /// A new item with the identifier `id`, captured at `captured_at`.
    pub fn with_identity(
        id: String,
        captured_at: Timestamp,
        knowledge_type: KnowledgeType,
        suggested_domain: Domain,
        capture_method: CaptureMethod,
        body: String,
    ) -> (r: Self)
        ensures
            r@ == InboxItemView::fresh(
                id@,
                captured_at,
                knowledge_type,
                suggested_domain@,
                capture_method,
                body@,
            ),
    {
        let r = InboxItem {
            id,
            knowledge_type,
            tags: Vec::new(),
            confidence: Confidence(DEFAULT_ITEM_CONFIDENCE),
            source: None,
            related: Vec::new(),
            suggested_domain,
            suggested_path: None,
            captured_at,
            capture_method,
            capture_context: None,
            body,
        };
        assert(r@.tags =~= Seq::empty());
        assert(r@.related =~= Seq::empty());
        r
    }

    /// A new item with a random identifier, captured now.
    pub fn new(
        knowledge_type: KnowledgeType,
        suggested_domain: Domain,
        capture_method: CaptureMethod,
        body: String,
    ) -> (r: Self)
        ensures
            r@ == InboxItemView::fresh(
                r@.id,
                r@.captured_at,
                knowledge_type,
                suggested_domain@,
                capture_method,
                body@,
            ),
            r@.id.len() == ID_LENGTH,
    {
        InboxItem::with_identity(
            fresh_id(),
            now(),
            knowledge_type,
            suggested_domain,
            capture_method,
            body,
        )
    }

    /// The unit that this item becomes when it is accepted into `domain`.
    pub fn into_knowledge_unit(self, domain: Domain) -> (r: KnowledgeUnit)
        ensures
            r@ == self@.filed(domain@),
    {
        KnowledgeUnit {
            id: self.id,
            knowledge_type: self.knowledge_type,
            domain,
            tags: self.tags,
            confidence: self.confidence,
            source: self.source,
            related: self.related,
            body: self.body,
        }
    }
}

/// A kind of relation between two records that the store knows by name.
#[derive(Debug, Clone, Copy, PartialEq, Eq, Structural)]
pub enum RelationType {
    Uses,
    Implements,
    RequiresUnderstandingOf,
    InformedBy,
    OftenCombinedWith,
}

/// The name of a kind of relation, as it is written in a record's header.
pub open spec fn relation_type_name(k: RelationType) -> Seq<char> {
    match k {
        RelationType::Uses => "uses"@,
        RelationType::Implements => "implements"@,
        RelationType::RequiresUnderstandingOf => "requires_understanding_of"@,
        RelationType::InformedBy => "informed_by"@,
        RelationType::OftenCombinedWith => "often_combined_with"@,
    }
}

/// The knowledge type named `name`, if there is one.
pub open spec fn knowledge_type_named(name: Seq<char>) -> Option<KnowledgeType> {
    if name == "concept"@ {
        Some(KnowledgeType::Concept)
    } else if name == "pattern"@ {
        Some(KnowledgeType::Pattern)
    } else if name == "decision"@ {
        Some(KnowledgeType::Decision)
    } else if name == "bug"@ {
        Some(KnowledgeType::Bug)
    } else if name == "belief"@ {
        Some(KnowledgeType::Belief)
    } else {
        None
    }
}

/// The capture method named `name`, if there is one.
pub open spec fn capture_method_named(name: Seq<char>) -> Option<CaptureMethod> {
    if name == "clipboard-url"@ {
        Some(CaptureMethod::ClipboardUrl)
    } else if name == "clipboard-text"@ {
        Some(CaptureMethod::ClipboardText)
    } else if name == "ai-session"@ {
        Some(CaptureMethod::AiSession)
    } else if name == "web-capture"@ {
        Some(CaptureMethod::WebCapture)
    } else if name == "manual"@ {
        Some(CaptureMethod::Manual)
    } else if name == "import"@ {
        Some(CaptureMethod::Import)
    } else {
        None
    }
}

/// The kind of relation named `name`, if there is one.
pub open spec fn relation_type_named(name: Seq<char>) -> Option<RelationType> {
    if name == "uses"@ {
        Some(RelationType::Uses)
    } else if name == "implements"@ {
        Some(RelationType::Implements)
    } else if name == "requires_understanding_of"@ {
        Some(RelationType::RequiresUnderstandingOf)
    } else if name == "informed_by"@ {
        Some(RelationType::InformedBy)
    } else if name == "often_combined_with"@ {
        Some(RelationType::OftenCombinedWith)
    } else {
        None
    }
}

/// Whether `name` reads `word`.
fn reads(name: &Vec<char>, word: &str) -> (r: bool)
    ensures
        r == (name@ == word@),
{
    let w = crate::text::chars_of(word);
    crate::text::same_text(name, &w)
}

impl KnowledgeType {
    /// The knowledge type named `name`, if there is one.
    pub fn from_name(name: &str) -> (r: Option<Self>)
        ensures
            r == knowledge_type_named(name@),
    {
        let n = crate::text::chars_of(name);
        if reads(&n, "concept") {
            Some(KnowledgeType::Concept)
        } else if reads(&n, "pattern") {
            Some(KnowledgeType::Pattern)
        } else if reads(&n, "decision") {
            Some(KnowledgeType::Decision)
        } else if reads(&n, "bug") {
            Some(KnowledgeType::Bug)
        } else if reads(&n, "belief") {
            Some(KnowledgeType::Belief)
        } else {
            None
        }
    }
}

impl CaptureMethod {
    /// The capture method named `name`, if there is one.
    pub fn from_name(name: &str) -> (r: Option<Self>)
        ensures
            r == capture_method_named(name@),
    {
        let n = crate::text::chars_of(name);
        if reads(&n, "clipboard-url") {
            Some(CaptureMethod::ClipboardUrl)
        } else if reads(&n, "clipboard-text") {
            Some(CaptureMethod::ClipboardText)
        } else if reads(&n, "ai-session") {
            Some(CaptureMethod::AiSession)
        } else if reads(&n, "web-capture") {
            Some(CaptureMethod::WebCapture)
        } else if reads(&n, "manual") {
            Some(CaptureMethod::Manual)
        } else if reads(&n, "import") {
            Some(CaptureMethod::Import)
        } else {
            None
        }
    }
}

impl RelationType {
    /// The name of this kind of relation.
    pub fn to_string(&self) -> (r: String)
        ensures
            r@ == relation_type_name(*self),
    {
        match self {
            RelationType::Uses => String::from_str("uses"),
            RelationType::Implements => String::from_str("implements"),
            RelationType::RequiresUnderstandingOf => String::from_str("requires_understanding_of"),
            RelationType::InformedBy => String::from_str("informed_by"),
            RelationType::OftenCombinedWith => String::from_str("often_combined_with"),
        }
    }

    /// The kind of relation named `name`, if there is one.
    pub fn from_name(name: &str) -> (r: Option<Self>)
        ensures
            r == relation_type_named(name@),
    {
        let n = crate::text::chars_of(name);
        if reads(&n, "uses") {
            Some(RelationType::Uses)
        } else if reads(&n, "implements") {
            Some(RelationType::Implements)
        } else if reads(&n, "requires_understanding_of") {
            Some(RelationType::RequiresUnderstandingOf)
        } else if reads(&n, "informed_by") {
            Some(RelationType::InformedBy)
        } else if reads(&n, "often_combined_with") {
            Some(RelationType::OftenCombinedWith)
        } else {
            None
        }
    }
}

/// Each knowledge type, each capture method and each kind of relation is
/// found again by its name.
pub proof fn law_names_are_found_again(k: KnowledgeType, m: CaptureMethod, t: RelationType)
    ensures
        knowledge_type_named(knowledge_type_name(k)) == Some(k),
        capture_method_named(capture_method_name(m)) == Some(m),
        relation_type_named(relation_type_name(t)) == Some(t),
{
    reveal_strlit("concept");
    reveal_strlit("pattern");
    reveal_strlit("decision");
    reveal_strlit("bug");
    reveal_strlit("belief");
    reveal_strlit("clipboard-url");
    reveal_strlit("clipboard-text");
    reveal_strlit("ai-session");
    reveal_strlit("web-capture");
    reveal_strlit("manual");
    reveal_strlit("import");
    reveal_strlit("uses");
    reveal_strlit("implements");
    reveal_strlit("requires_understanding_of");
    reveal_strlit("informed_by");
    reveal_strlit("often_combined_with");
    assert("concept"@.len() == 7 && "pattern"@.len() == 7 && "decision"@.len() == 8 && "bug"@.len()
        == 3 && "belief"@.len() == 6);
    assert("concept"@[0] != "pattern"@[0]);
    assert("clipboard-url"@.len() == 13 && "clipboard-text"@.len() == 14 && "ai-session"@.len()
        == 10 && "web-capture"@.len() == 11 && "manual"@.len() == 6 && "import"@.len() == 6);
    assert("manual"@[0] != "import"@[0]);
    assert("uses"@.len() == 4 && "implements"@.len() == 10 && "requires_understanding_of"@.len()
        == 25 && "informed_by"@.len() == 11 && "often_combined_with"@.len() == 19);
}

} // verus!
