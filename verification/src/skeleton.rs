//! Skeleton page generator: editorial MDX templates with slot markers.

use vstd::prelude::*;
use vstd::string::*;
use crate::mdx_reference::GeneratedPage;
use crate::sidebar::{capitalize, capitalized};
use crate::text::{join_path, owned, path_join, push_str, views};

verus! {

/// Page template type.
#[derive(Debug, Clone)]
pub enum PageTemplate {
    GettingStarted,
    Concept { topic: String },
    Architecture,
}

/// Errors from skeleton generation.
#[derive(Debug, Clone, PartialEq, Eq)]
pub enum SkeletonError {
    WriteError(String),
}

/// The getting-started page of a project.
pub open spec fn getting_started_page(project: Seq<char>) -> Seq<char> {
    "---\ntitle: Getting Started\ndescription: Install and start using "@ + project
        + ".\norder: 0\n---\n\n{/* veneer:prerequisites */}\n\n## Install\n\n{/* veneer:install */}\n\n## First Use\n\n{/* veneer:first-use */}\n\n## Next Steps\n\n{/* veneer:next-steps */}\n"@
}

/// The architecture page of a project.
pub open spec fn architecture_page(project: Seq<char>) -> Seq<char> {
    "---\ntitle: Architecture\ndescription: How "@ + project
        + " is structured and how the pieces fit together.\norder: 1\n---\n\n{/* veneer:overview */}\n\n## Project Structure\n\n{/* veneer:project-structure */}\n\n## Data Flow\n\n{/* veneer:data-flow */}\n\n## Key Design Decisions\n\n{/* veneer:design-decisions */}\n"@
}

/// The concept page of one topic.
pub open spec fn concept_page(topic: Seq<char>, project: Seq<char>) -> Seq<char> {
    "---\ntitle: "@ + capitalized(topic) + "\ndescription: How "@ + topic + " works in "@ + project
        + ".\norder: 10\n---\n\n{/* veneer:overview */}\n\n## How It Works\n\n{/* veneer:how-it-works */}\n\n## Key Concepts\n\n{/* veneer:key-concepts */}\n\n## Related\n\n{/* veneer:related */}\n"@
}

pub open spec fn skeleton(template: PageTemplate, project: Seq<char>) -> Seq<char> {
    match template {
        PageTemplate::GettingStarted => getting_started_page(project),
        PageTemplate::Architecture => architecture_page(project),
        PageTemplate::Concept { topic } => concept_page(topic@, project),
    }
}

/// Generate a skeleton MDX page.
pub fn generate_skeleton(template: &PageTemplate, project_name: &str) -> (r: String)
    ensures
        r@ == skeleton(*template, project_name@),
{
    match template {
        PageTemplate::GettingStarted => {
            let mut out = owned("---\ntitle: Getting Started\ndescription: Install and start using ");
            push_str(&mut out, project_name);
            push_str(
                &mut out,
                ".\norder: 0\n---\n\n{/* veneer:prerequisites */}\n\n## Install\n\n{/* veneer:install */}\n\n## First Use\n\n{/* veneer:first-use */}\n\n## Next Steps\n\n{/* veneer:next-steps */}\n",
            );
            out
        },
        PageTemplate::Architecture => {
            let mut out = owned("---\ntitle: Architecture\ndescription: How ");
            push_str(&mut out, project_name);
            push_str(
                &mut out,
                " is structured and how the pieces fit together.\norder: 1\n---\n\n{/* veneer:overview */}\n\n## Project Structure\n\n{/* veneer:project-structure */}\n\n## Data Flow\n\n{/* veneer:data-flow */}\n\n## Key Design Decisions\n\n{/* veneer:design-decisions */}\n",
            );
            out
        },
        PageTemplate::Concept { topic } => {
            let title = capitalize(topic.as_str());
            let mut out = owned("---\ntitle: ");
            push_str(&mut out, title.as_str());
            push_str(&mut out, "\ndescription: How ");
            push_str(&mut out, topic.as_str());
            push_str(&mut out, " works in ");
            push_str(&mut out, project_name);
            push_str(
                &mut out,
                ".\norder: 10\n---\n\n{/* veneer:overview */}\n\n## How It Works\n\n{/* veneer:how-it-works */}\n\n## Key Concepts\n\n{/* veneer:key-concepts */}\n\n## Related\n\n{/* veneer:related */}\n",
            );
            out
        },
    }
}

/// One planned skeleton page: where it goes, its title, and its content.
pub struct SkeletonView {
    pub path: Seq<char>,
    pub title: Seq<char>,
    pub content: Seq<char>,
}

pub open spec fn skeleton_views(v: Seq<(GeneratedPage, String)>) -> Seq<SkeletonView> {
    v.map_values(
        |p: (GeneratedPage, String)|
            SkeletonView { path: p.0.path@, title: p.0.title@, content: p.1@ },
    )
}

/// The default skeleton pages of a project, in order: getting-started,
/// architecture, and one concept page per command group under `concepts/`.
pub open spec fn default_skeletons(project: Seq<char>, groups: Seq<Seq<char>>, dir: Seq<char>) -> Seq<SkeletonView> {
    seq![
        SkeletonView {
            path: path_join(dir, "getting-started.mdx"@),
            title: "Getting Started"@,
            content: getting_started_page(project),
        },
        SkeletonView {
            path: path_join(dir, "architecture.mdx"@),
            title: "Architecture"@,
            content: architecture_page(project),
        },
    ] + Seq::new(
        groups.len(),
        |k: int|
            SkeletonView {
                path: path_join(path_join(dir, "concepts"@), groups[k] + ".mdx"@),
                title: capitalized(groups[k]),
                content: concept_page(groups[k], project),
            },
    )
}

fn push_skeleton(pages: &mut Vec<(GeneratedPage, String)>, path: String, title: String, content: String)
    ensures
        skeleton_views(final(pages)@) == skeleton_views(old(pages)@).push(
            SkeletonView { path: path@, title: title@, content: content@ },
        ),
        final(pages)@.len() == old(pages)@.len() + 1,
        final(pages)@.drop_last() == old(pages)@,
        final(pages)@.last().0.command_name@.len() == 0,
{
    let ghost before = pages@;
    pages.push((GeneratedPage { path, title, command_name: String::new() }, content));
    assert(pages@.drop_last() =~= before);
    assert(skeleton_views(pages@) =~= skeleton_views(before).push(
        SkeletonView { path: path@, title: title@, content: content@ },
    ));
}

/// The default skeleton pages for a project: getting-started, architecture,
/// and a concept page per command group, each with its content. Writing
/// them, and leaving any existing file alone, is the caller's.
pub fn generate_default_skeletons(
    project_name: &str,
    command_groups: &Vec<String>,
    output_dir: &str,
) -> (r: Vec<(GeneratedPage, String)>)
    ensures
        skeleton_views(r@) == default_skeletons(project_name@, views(command_groups@), output_dir@),
        forall|i: int| 0 <= i < r@.len() ==> (#[trigger] r@[i]).0.command_name@.len() == 0,
{
    let ghost target = default_skeletons(project_name@, views(command_groups@), output_dir@);
    let mut pages: Vec<(GeneratedPage, String)> = Vec::new();
    let gs_path = join_path(output_dir, "getting-started.mdx");
    push_skeleton(
        &mut pages,
        gs_path,
        owned("Getting Started"),
        generate_skeleton(&PageTemplate::GettingStarted, project_name),
    );
    let arch_path = join_path(output_dir, "architecture.mdx");
    push_skeleton(
        &mut pages,
        arch_path,
        owned("Architecture"),
        generate_skeleton(&PageTemplate::Architecture, project_name),
    );
    let concepts_dir = join_path(output_dir, "concepts");
    assert(skeleton_views(pages@) =~= target.take(2));
    let mut i: usize = 0;
    while i < command_groups.len()
        invariant
            i <= command_groups@.len(),
            target == default_skeletons(project_name@, views(command_groups@), output_dir@),
            concepts_dir@ == path_join(output_dir@, "concepts"@),
            skeleton_views(pages@) == target.take(i + 2),
            forall|j: int| 0 <= j < pages@.len() ==> (#[trigger] pages@[j]).0.command_name@.len() == 0,
        decreases command_groups@.len() - i,
    {
        let group = &command_groups[i];
        let mut file = owned(group.as_str());
        push_str(&mut file, ".mdx");
        let concept_path = join_path(concepts_dir.as_str(), file.as_str());
        let template = PageTemplate::Concept { topic: group.clone() };
        let content = generate_skeleton(&template, project_name);
        let ghost before = pages@;
        push_skeleton(&mut pages, concept_path, capitalize(group.as_str()), content);
        assert forall|j: int| 0 <= j < pages@.len() implies (#[trigger] pages@[j]).0.command_name@.len() == 0 by {
            if j < before.len() {
                assert(pages@[j] == pages@.drop_last()[j]);
            }
        }
        assert(target.take(i + 3) =~= target.take(i + 2).push(target[i + 2]));
        i = i + 1;
    }
    assert(target.take(command_groups@.len() + 2int) =~= target);
    pages
}

} // verus!
