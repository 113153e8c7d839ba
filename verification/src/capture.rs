//! Candidates made from what a caller hands over: the findings of a
//! conversation, a web page, a piece of text.

use vstd::prelude::*;
use vstd::string::*;

use crate::model::{
    tags_of, text_of, texts_of, CaptureMethod, Domain, InboxItem, InboxItemView, KnowledgeType, Tag,
    Timestamp,
};
use crate::text::{chars_of, contains, contains_text, ends_with, has_prefix, has_suffix, lowercase, matches_at};

verus! {

/// The domain for a context that, in lower case, reads `ctx`: the first of
/// the programming languages Rust, Python, JavaScript and Go that it speaks
/// of, or `general`.
pub open spec fn domain_for(ctx: Seq<char>) -> Seq<char> {
    if contains_text(ctx, "rust"@) {
        "coding/rust"@
    } else if contains_text(ctx, "python"@) {
        "coding/python"@
    } else if contains_text(ctx, "javascript"@) || contains_text(ctx, "typescript"@)
        || contains_text(ctx, "react"@) {
        "coding/javascript"@
    } else if contains_text(ctx, "golang"@) || contains_text(ctx, " go "@) || has_prefix(
        ctx,
        "go "@,
    ) || has_suffix(ctx, " go"@) {
        "coding/go"@
    } else {
        "general"@
    }
}

/// The domain suggested for the context `context`: `general` where there is
/// none.
pub open spec fn suggested_domain(context: Option<Seq<char>>) -> Seq<char> {
    match context {
        Some(ctx) => domain_for(lowercase(ctx)),
        None => "general"@,
    }
}

/// The domain `d`, where one is given, else `general`.
pub open spec fn domain_or_general(d: Option<Seq<char>>) -> Seq<char> {
    match d {
        Some(name) => name,
        None => "general"@,
    }
}

/// The characters of an optional text.
pub open spec fn opt_text(s: Option<&str>) -> Option<Seq<char>> {
    match s {
        Some(t) => Some(t@),
        None => None,
    }
}

/// The domain for a context that is in lower case already.
pub fn domain_for_lowered(ctx: &str) -> (r: Domain)
    ensures
        r@ == domain_for(ctx@),
{
    let v = chars_of(ctx);
    let name: &str = if contains(&v, &chars_of("rust")) {
        "coding/rust"
    } else if contains(&v, &chars_of("python")) {
        "coding/python"
    } else if contains(&v, &chars_of("javascript")) || contains(&v, &chars_of("typescript"))
        || contains(&v, &chars_of("react")) {
        "coding/javascript"
    } else if contains(&v, &chars_of("golang")) || contains(&v, &chars_of(" go ")) || matches_at(
        &v,
        0,
        &chars_of("go "),
    ) || ends_with(&v, &chars_of(" go")) {
        "coding/go"
    } else {
        "general"
    };
    Domain(String::from_str(name))
}

/// The domain suggested for the context `context`.
pub fn suggest_domain(context: Option<&str>) -> (r: Domain)
    ensures
        r@ == suggested_domain(opt_text(context)),
{
    match context {
        Some(ctx) => {
            let lowered = ctx.to_lowercase();
            domain_for_lowered(lowered.as_str())
        },
        None => Domain(String::from_str("general")),
    }
}

/// An optional text as a string of its own.
fn to_owned_text(s: Option<&str>) -> (r: Option<String>)
    ensures
        text_of(r) == opt_text(s),
{
    match s {
        Some(t) => Some(String::from_str(t)),
        None => None,
    }
}

/// The item staged for a finding of a conversation: the finding is its body,
/// the summary of the conversation its context, the context of the
/// conversation its source.
pub open spec fn conversation_item(
    id: Seq<char>,
    at: Timestamp,
    kind: KnowledgeType,
    finding: Seq<char>,
    summary: Seq<char>,
    context: Option<Seq<char>>,
) -> InboxItemView {
    InboxItemView {
        capture_context: Some(summary),
        source: context,
        ..InboxItemView::fresh(
            id,
            at,
            kind,
            suggested_domain(context),
            CaptureMethod::AiSession,
            finding,
        )
    }
}

/// Whether `items`, from `from` on, are the items staged for `findings`, in
/// their order.
pub open spec fn stages_findings(
    items: Seq<InboxItem>,
    from: int,
    kind: KnowledgeType,
    findings: Seq<String>,
    summary: Seq<char>,
    context: Option<Seq<char>>,
) -> bool {
    forall|j: int|
        from <= j < from + findings.len() ==> (#[trigger] items[j])@ == conversation_item(
            items[j]@.id,
            items[j]@.captured_at,
            kind,
            findings[j - from]@,
            summary,
            context,
        )
}

/// Adds to `out` the items staged for `findings`.
fn stage_findings(
    out: &mut Vec<InboxItem>,
    kind: KnowledgeType,
    findings: &[String],
    summary: &str,
    context: Option<&str>,
)
    ensures
        final(out)@.len() == old(out)@.len() + findings@.len(),
        final(out)@.take(old(out)@.len() as int) == old(out)@,
        stages_findings(
            final(out)@,
            old(out)@.len() as int,
            kind,
            findings@,
            summary@,
            opt_text(context),
        ),
{
    let ghost start = out@.len() as int;
    let mut n: usize = 0;
    while n < findings.len()
        invariant
            n <= findings.len(),
            out@.len() == start + n,
            start == old(out)@.len(),
            out@.take(start) == old(out)@,
            forall|j: int|
                start <= j < start + n ==> (#[trigger] out@[j])@ == conversation_item(
                    out@[j]@.id,
                    out@[j]@.captured_at,
                    kind,
                    findings@[j - start]@,
                    summary@,
                    opt_text(context),
                ),
        decreases findings.len() - n,
    {
        let mut item = InboxItem::new(
            kind,
            suggest_domain(context),
            CaptureMethod::AiSession,
            findings[n].clone(),
        );
        item.capture_context = Some(String::from_str(summary));
        item.source = to_owned_text(context);
        let ghost before = out@;
        out.push(item);
        assert(out@.take(start) =~= before.take(start));
        n += 1;
    }
}

/// The items staged for a conversation: a pattern for each of `learnings`,
/// then a decision for each of `decisions`, in their order. Each has a fresh
/// identifier and the time of its making.
pub fn capture_from_conversation(
    summary: &str,
    learnings: &[String],
    decisions: &[String],
    context: Option<&str>,
) -> (r: Vec<InboxItem>)
    ensures
        r@.len() == learnings@.len() + decisions@.len(),
        stages_findings(r@, 0, KnowledgeType::Pattern, learnings@, summary@, opt_text(context)),
        stages_findings(
            r@,
            learnings@.len() as int,
            KnowledgeType::Decision,
            decisions@,
            summary@,
            opt_text(context),
        ),
{
    let mut out: Vec<InboxItem> = Vec::new();
    stage_findings(&mut out, KnowledgeType::Pattern, learnings, summary, context);
    let ghost first = out@;
    stage_findings(&mut out, KnowledgeType::Decision, decisions, summary, context);
    proof {
        assert forall|j: int| 0 <= j < learnings@.len() implies #[trigger] out@[j] == first[j] by {
            assert(out@.take(first.len() as int)[j] == out@[j]);
        }
    }
    out
}

/// The body of an item staged for a web page: its title as a heading, an
/// empty line, and its summary.
pub open spec fn page_body(title: Seq<char>, summary: Seq<char>) -> Seq<char> {
    seq!['#', ' '] + title + seq!['\n', '\n'] + summary
}

/// The item staged for a web page.
pub open spec fn page_item(
    id: Seq<char>,
    at: Timestamp,
    url: Seq<char>,
    title: Seq<char>,
    summary: Seq<char>,
    tags: Seq<Seq<char>>,
    domain: Option<Seq<char>>,
) -> InboxItemView {
    InboxItemView {
        source: Some(url),
        tags,
        ..InboxItemView::fresh(
            id,
            at,
            KnowledgeType::Concept,
            domain_or_general(domain),
            CaptureMethod::WebCapture,
            page_body(title, summary),
        )
    }
}

/// The item staged for a piece of text.
pub open spec fn text_item(
    id: Seq<char>,
    at: Timestamp,
    text: Seq<char>,
    source: Option<Seq<char>>,
    domain: Option<Seq<char>>,
) -> InboxItemView {
    InboxItemView {
        source,
        ..InboxItemView::fresh(
            id,
            at,
            KnowledgeType::Concept,
            domain_or_general(domain),
            CaptureMethod::Manual,
            text,
        )
    }
}

/// The domain named `domain`, or `general` where none is named.
fn named_domain(domain: Option<&str>) -> (r: Domain)
    ensures
        r@ == domain_or_general(opt_text(domain)),
{
    match domain {
        Some(name) => Domain(String::from_str(name)),
        None => Domain(String::from_str("general")),
    }
}

/// The item staged for the web page at `url`: a concept with the URL as its
/// source, the tags `tags`, and the title and the summary as its body. It has
/// a fresh identifier and the time of its making.
pub fn capture_from_url(
    url: &str,
    title: &str,
    summary: &str,
    tags: &[String],
    domain: Option<&str>,
) -> (r: InboxItem)
    ensures
        r@ == page_item(
            r@.id,
            r@.captured_at,
            url@,
            title@,
            summary@,
            texts_of(tags@),
            opt_text(domain),
        ),
        r@.id.len() == crate::model::ID_LENGTH,
{
    let mut body = String::from_str("# ");
    body.append(title);
    body.append("\n\n");
    body.append(summary);
    proof {
        reveal_strlit("# ");
        reveal_strlit("\n\n");
        assert(body@ =~= page_body(title@, summary@));
    }
    let mut item = InboxItem::new(
        KnowledgeType::Concept,
        named_domain(domain),
        CaptureMethod::WebCapture,
        body,
    );
    item.source = Some(String::from_str(url));
    let mut labels: Vec<Tag> = Vec::new();
    let mut n: usize = 0;
    while n < tags.len()
        invariant
            n <= tags.len(),
            tags_of(labels@) == texts_of(tags@).take(n as int),
        decreases tags.len() - n,
    {
        let ghost before = tags_of(labels@);
        labels.push(Tag(tags[n].clone()));
        assert(tags_of(labels@) =~= before.push(tags@[n as int]@));
        assert(texts_of(tags@).take(n + 1) =~= texts_of(tags@).take(n as int).push(
            tags@[n as int]@,
        ));
        n += 1;
    }
    assert(texts_of(tags@).take(tags.len() as int) =~= texts_of(tags@));
    item.tags = labels;
    item
}

/// The item staged for the piece of text `text`: a concept, captured by
/// hand. It has a fresh identifier and the time of its making.
pub fn capture_from_text(text: &str, source: Option<&str>, domain: Option<&str>) -> (r: InboxItem)
    ensures
        r@ == text_item(r@.id, r@.captured_at, text@, opt_text(source), opt_text(domain)),
        r@.id.len() == crate::model::ID_LENGTH,
{
    let mut item = InboxItem::new(
        KnowledgeType::Concept,
        named_domain(domain),
        CaptureMethod::Manual,
        String::from_str(text),
    );
    item.source = to_owned_text(source);
    item
}

} // verus!
