//! Coverage tracking: which discovered components are documented versus
//! not yet, with the discovered set as the denominator. An item counts as
//! documented exactly when the render pipeline produced its preview; every
//! uncovered item gets an explicit "not yet documented" placeholder page
//! naming the item and the honest reason.

use vstd::prelude::*;
use vstd::string::*;
use crate::intelligence::RenderedComponent;
use crate::mdx::kind_label;
use crate::registry::{DiscoveredItem, DiscoveredKind};
use crate::text::{owned, push_str, views};
use crate::traits::{transform_error_message, TransformError};
use crate::ts_helpers::{kebab, kebab_case};

verus! {

/// Coverage of a discovered set: documented versus not-yet-documented.
#[derive(Debug, Clone, PartialEq, Eq)]
pub struct CoverageReport {
    /// Names of discovered items whose preview rendered.
    pub documented: Vec<String>,
    /// Names of discovered items not yet documented.
    pub not_yet_documented: Vec<String>,
    /// Size of the discovered set: always
    /// `documented.len() + not_yet_documented.len()`.
    pub total: usize,
}

/// The coverage state of one discovered item.
#[derive(Debug, Clone, PartialEq, Eq)]
pub enum CoverageState {
    /// The render pipeline produced the item's preview.
    Documented,
    /// Not documented yet, with the honest reason.
    NotYetDocumented { reason: String },
}

/// One discovered item together with its assessed coverage state.
#[derive(Debug, Clone)]
pub struct AssessedItem {
    pub item: DiscoveredItem,
    pub state: CoverageState,
    /// The rendered preview and intelligence, present exactly when the
    /// item is documented.
    pub rendered: Option<RenderedComponent>,
}

/// The names of the assessed items in one bucket, in order.
pub open spec fn bucket(assessed: Seq<AssessedItem>, documented: bool) -> Seq<Seq<char>>
    decreases assessed.len(),
{
    if assessed.len() == 0 {
        seq![]
    } else {
        let rest = bucket(assessed.drop_last(), documented);
        if (assessed.last().state is Documented) == documented {
            rest.push(assessed.last().item.name@)
        } else {
            rest
        }
    }
}

/// Every item lands in exactly one bucket.
pub proof fn lemma_buckets_partition(assessed: Seq<AssessedItem>)
    ensures
        bucket(assessed, true).len() + bucket(assessed, false).len() == assessed.len(),
    decreases assessed.len(),
{
    if assessed.len() > 0 {
        lemma_buckets_partition(assessed.drop_last());
    }
}

impl CoverageReport {
    /// Fold assessed items into the report. Every assessed item lands in
    /// exactly one bucket, so the totals cannot drift from the item states.
    pub fn from_assessed(assessed: &[AssessedItem]) -> (r: Self)
        ensures
            views(r.documented@) == bucket(assessed@, true),
            views(r.not_yet_documented@) == bucket(assessed@, false),
            r.total == assessed@.len(),
            r.total == r.documented@.len() + r.not_yet_documented@.len(),
    {
        let mut documented: Vec<String> = Vec::new();
        let mut not_yet: Vec<String> = Vec::new();
        let mut i: usize = 0;
        while i < assessed.len()
            invariant
                i <= assessed@.len(),
                views(documented@) == bucket(assessed@.take(i as int), true),
                views(not_yet@) == bucket(assessed@.take(i as int), false),
                documented@.len() + not_yet@.len() == i,
            decreases assessed@.len() - i,
        {
            proof {
                assert(assessed@.take(i + 1).drop_last() =~= assessed@.take(i as int));
                lemma_buckets_partition(assessed@.take(i as int));
            }
            let ghost d0 = views(documented@);
            let ghost n0 = views(not_yet@);
            match &assessed[i].state {
                CoverageState::Documented => {
                    documented.push(owned(assessed[i].item.name.as_str()));
                    assert(views(documented@) =~= d0.push(assessed@[i as int].item.name@));
                },
                CoverageState::NotYetDocumented { .. } => {
                    not_yet.push(owned(assessed[i].item.name.as_str()));
                    assert(views(not_yet@) =~= n0.push(assessed@[i as int].item.name@));
                },
            }
            i = i + 1;
        }
        assert(assessed@.take(assessed@.len() as int) =~= assessed@);
        CoverageReport { total: documented.len() + not_yet.len(), documented, not_yet_documented: not_yet }
    }
}

/// The honest reason an item under an unsupported declared framework is
/// not documented.
pub open spec fn unsupported_reason(declared: Seq<char>) -> Seq<char> {
    "componentTarget \""@ + declared
        + "\" has no adapter; props are not read from a source shape veneer cannot parse"@
}

/// Assess one discovered item. An item under a declared, unsupported
/// framework is never rendered: it is not yet documented, naming the
/// framework. Otherwise the render's outcome decides: a preview is
/// documented; a failure is not yet documented with the failure's text.
pub fn assess_item(item: DiscoveredItem, render: Option<Result<RenderedComponent, TransformError>>) -> (r: AssessedItem)
    requires
        item.unsupported_framework is None ==> render is Some,
    ensures
        r.item == item,
        match item.unsupported_framework {
            Some(f) => r.rendered is None && (r.state matches CoverageState::NotYetDocumented { reason }
                && reason@ == unsupported_reason(f@)),
            None => match render.unwrap() {
                Ok(rc) => r.state is Documented && r.rendered == Some(rc),
                Err(e) => r.rendered is None && (r.state matches CoverageState::NotYetDocumented { reason }
                    && reason@ == transform_error_message(e)),
            },
        },
{
    let state;
    let mut rendered: Option<RenderedComponent> = None;
    match &item.unsupported_framework {
        Some(f) => {
            let mut reason = owned("componentTarget \"");
            push_str(&mut reason, f.as_str());
            push_str(&mut reason, "\" has no adapter; props are not read from a source shape veneer cannot parse");
            state = CoverageState::NotYetDocumented { reason };
        },
        None => {
            match render {
                Some(Ok(rc)) => {
                    state = CoverageState::Documented;
                    rendered = Some(rc);
                },
                Some(Err(e)) => {
                    state = CoverageState::NotYetDocumented { reason: e.message() };
                },
                None => {
                    state = CoverageState::Documented;
                },
            }
        },
    }
    AssessedItem { item, state, rendered }
}

/// The frontmatter line that marks a page as a coverage placeholder.
pub const NOT_YET_DOCUMENTED_STATUS: &'static str = "status: not-yet-documented";

/// A placeholder artifact ready to be written alongside generator output.
#[derive(Debug, Clone, PartialEq, Eq)]
pub struct PlaceholderArtifact {
    /// Kebab-cased file name, for example `ghost-widget.mdx`.
    pub file_name: String,
    /// Complete MDX page content.
    pub content: String,
}

/// The placeholder page for an item, its reason and the host layout.
pub open spec fn placeholder_page(item: DiscoveredItem, reason: Seq<char>, layout: Option<Seq<char>>) -> Seq<char> {
    let name = item.name@;
    let kind = kind_label(item.kind);
    "---\n"@ + (match layout {
        Some(l) => "layout: "@ + l + "\n"@,
        None => Seq::<char>::empty(),
    }) + "title: "@ + name + "\ndescription: "@ + name + " is not yet documented.\nstatus: not-yet-documented\n---\n\n# "@
        + name + "\n\n## Not yet documented\n\nVeneer discovered this "@ + kind + " at `"@ + item.source_path@
        + "` but has not documented\nit yet.\n\nReason: "@ + reason
        + "\n\nThis page exists so the gap is explicit: an uncovered "@ + kind
        + " surfaces as\nthis placeholder, never as a blank page or a 404.\n"@
}

/// Build the explicit "not yet documented" placeholder artifact for one
/// uncovered item: an MDX page that names the item, where it was
/// discovered, and the honest reason it is not documented yet.
pub fn not_yet_documented_placeholder(item: &DiscoveredItem, reason: &str, layout: Option<&str>) -> (r: PlaceholderArtifact)
    ensures
        r.file_name@ == kebab(item.name@) + ".mdx"@,
        r.content@ == placeholder_page(*item, reason@, match layout {
            Some(l) => Some(l@),
            None => None,
        }),
{
    let name = item.name.as_str();
    let kind = match item.kind {
        DiscoveredKind::Component => "component",
        DiscoveredKind::Composite => "composite",
    };
    let mut c = owned("---\n");
    if let Some(l) = layout {
        push_str(&mut c, "layout: ");
        push_str(&mut c, l);
        push_str(&mut c, "\n");
    }
    push_str(&mut c, "title: ");
    push_str(&mut c, name);
    push_str(&mut c, "\ndescription: ");
    push_str(&mut c, name);
    push_str(&mut c, " is not yet documented.\nstatus: not-yet-documented\n---\n\n# ");
    push_str(&mut c, name);
    push_str(&mut c, "\n\n## Not yet documented\n\nVeneer discovered this ");
    push_str(&mut c, kind);
    push_str(&mut c, " at `");
    push_str(&mut c, item.source_path.as_str());
    push_str(&mut c, "` but has not documented\nit yet.\n\nReason: ");
    push_str(&mut c, reason);
    push_str(&mut c, "\n\nThis page exists so the gap is explicit: an uncovered ");
    push_str(&mut c, kind);
    push_str(&mut c, " surfaces as\nthis placeholder, never as a blank page or a 404.\n");
    let mut file_name = kebab_case(name);
    push_str(&mut file_name, ".mdx");
    PlaceholderArtifact { file_name, content: c }
}

} // verus!
