//! MDX reference page generation from parsed CLI command data.

use vstd::prelude::*;
use vstd::string::*;
use crate::cli_parser::{lemma_command_view, CommandView, FlagView, ParsedCommand, ParsedFlag, flag_views, opt_view};
use crate::text::{ends_with, escaped, join_path, occurs_at, owned, path_join, push_escaped, push_str, Escape};

verus! {

/// A generated MDX reference page.
#[derive(Debug, Clone)]
pub struct GeneratedPage {
    /// Path to the generated MDX file.
    pub path: String,
    /// Page title (e.g., "kanban create").
    pub title: String,
    /// Raw command name (e.g., "create").
    pub command_name: String,
}

/// Errors from MDX generation.
#[derive(Debug, Clone, PartialEq, Eq)]
pub enum MdxGenError {
    WriteError(String),
    IoError(String),
}

pub open spec fn opt_str(o: Option<&str>) -> Option<Seq<char>> {
    match o {
        Some(l) => Some(l@),
        None => None,
    }
}

/// -h/--help is left out of the flag table.
pub open spec fn is_help(f: FlagView) -> bool {
    f.long == Some("--help"@) || f.short == Some("-h"@)
}

/// Returns true if the flag is -h/--help and should be skipped from the table.
pub fn is_help_flag(flag: &ParsedFlag) -> (b: bool)
    ensures
        b == is_help(flag@),
{
    let long_help = match &flag.long {
        Some(l) => crate::text::str_eq(l.as_str(), "--help"),
        None => false,
    };
    let short_help = match &flag.short {
        Some(s) => crate::text::str_eq(s.as_str(), "-h"),
        None => false,
    };
    long_help || short_help
}

/// A table cell for an optional name: the name in backticks, or `-`.
pub open spec fn code_or_dash(o: Option<Seq<char>>) -> Seq<char> {
    match o {
        Some(s) => "`"@ + s + "`"@,
        None => "-"@,
    }
}

/// One row of the flag table.
pub open spec fn flag_row(f: FlagView) -> Seq<char> {
    "| "@ + code_or_dash(f.long) + " | "@ + code_or_dash(f.short) + " | "@ + (if f.required {
        "Yes"@
    } else {
        "No"@
    }) + " | "@ + (match f.default {
        Some(d) => d,
        None => "-"@,
    }) + " | "@ + f.description + " |\n"@
}

/// A flag's table row ends with its Default and Description cells: the
/// Default cell holds the flag's default value when it has one, and `-`
/// only when it has none.
pub proof fn lemma_flag_row_default_cell(f: FlagView)
    ensures
        match f.default {
            Some(d) => ends_with(flag_row(f), " | "@ + d + " | "@ + f.description + " |\n"@),
            None => ends_with(flag_row(f), " | -"@ + " | "@ + f.description + " |\n"@),
        },
{
    let head = "| "@ + code_or_dash(f.long) + " | "@ + code_or_dash(f.short) + " | "@ + (if f.required {
        "Yes"@
    } else {
        "No"@
    });
    let cell = match f.default {
        Some(d) => d,
        None => "-"@,
    };
    let tail = " | "@ + cell + " | "@ + f.description + " |\n"@;
    let row = flag_row(f);
    assert(row =~= head + tail);
    assert(row.skip(row.len() - tail.len()) =~= tail);
    match f.default {
        Some(d) => {},
        None => {
            assert(tail =~= " | -"@ + " | "@ + f.description + " |\n"@) by {
                reveal_strlit(" | ");
                reveal_strlit(" | -");
                reveal_strlit("-");
            }
        },
    }
}

/// The rows of the visible (non-help) flags, in order.
pub open spec fn flag_rows(flags: Seq<FlagView>) -> Seq<char>
    decreases flags.len(),
{
    if flags.len() == 0 {
        seq![]
    } else {
        flag_rows(flags.drop_last()) + if is_help(flags.last()) {
            seq![]
        } else {
            flag_row(flags.last())
        }
    }
}

pub open spec fn has_visible_flag(flags: Seq<FlagView>) -> bool {
    exists|i: int| 0 <= i < flags.len() && !is_help(flags[i])
}

/// The Flags section: present exactly when some flag is not -h/--help.
pub open spec fn flags_section(flags: Seq<FlagView>) -> Seq<char> {
    if has_visible_flag(flags) {
        "## Flags\n\n"@ + "| Flag | Short | Required | Default | Description |\n"@
            + "| --- | --- | --- | --- | --- |\n"@ + flag_rows(flags) + "\n"@
    } else {
        seq![]
    }
}

/// The page title: the command name, after the parent's name when given.
pub open spec fn page_title(c: CommandView, parent: Option<Seq<char>>) -> Seq<char> {
    match parent {
        Some(p) => p + " "@ + c.name,
        None => c.name,
    }
}

pub open spec fn layout_line(layout: Option<Seq<char>>) -> Seq<char> {
    match layout {
        Some(l) => "layout: "@ + l + "\n"@,
        None => seq![],
    }
}

/// The frontmatter block and the blank line after it.
pub open spec fn frontmatter(c: CommandView, parent: Option<Seq<char>>, layout: Option<Seq<char>>) -> Seq<char> {
    "---\n"@ + layout_line(layout) + "title: \""@ + page_title(c, parent) + "\"\n"@
        + "description: \""@ + escaped(Escape::Quote, c.description) + "\"\n"@ + "---\n"@ + "\n"@
}

/// The overview slot and the usage block.
pub open spec fn usage_block(c: CommandView) -> Seq<char> {
    "{/* veneer:overview */}\n"@ + "\n"@ + "## Usage\n"@ + "\n"@ + "```bash\n"@ + c.usage + "\n"@
        + "```\n"@ + "\n"@
}

/// The remaining editorial slots.
pub open spec fn editorial_slots() -> Seq<char> {
    "{/* veneer:when-to-use */}\n"@ + "\n"@ + "{/* veneer:examples */}\n"@ + "\n"@
        + "{/* veneer:gotchas */}\n"@
}

proof fn lemma_occurs_within(x: Seq<char>, a: Seq<char>, y: Seq<char>, p: Seq<char>, k: int)
    requires
        occurs_at(a, p, k),
    ensures
        occurs_at(x + a + y, p, x.len() + k),
{
    assert((x + a + y).subrange(x.len() + k, x.len() + k + p.len()) =~= a.subrange(k, k + p.len()));
}

proof fn lemma_row_in_rows(flags: Seq<FlagView>, i: int)
    requires
        0 <= i < flags.len(),
        !is_help(flags[i]),
    ensures
        exists|k: int| occurs_at(flag_rows(flags), flag_row(flags[i]), k),
    decreases flags.len(),
{
    let dl = flags.drop_last();
    let tail = if is_help(flags.last()) {
        seq![]
    } else {
        flag_row(flags.last())
    };
    assert(flag_rows(flags) == flag_rows(dl) + tail);
    if i < flags.len() - 1 {
        lemma_row_in_rows(dl, i);
        let k = choose|k: int| occurs_at(flag_rows(dl), flag_row(dl[i]), k);
        lemma_occurs_within(seq![], flag_rows(dl), tail, flag_row(flags[i]), k);
        assert(seq![] + flag_rows(dl) + tail =~= flag_rows(flags));
    } else {
        let row = flag_row(flags[i]);
        assert(occurs_at(tail, row, 0)) by {
            assert(tail.subrange(0, row.len() as int) =~= row);
        }
        lemma_occurs_within(flag_rows(dl), tail, seq![], row, 0);
        assert(flag_rows(dl) + tail + seq![] =~= flag_rows(flags));
    }
}

/// The reference page of a command shows the table row of each of its
/// flags but -h/--help.
pub proof fn lemma_page_shows_flag_rows(c: CommandView, parent: Option<Seq<char>>, layout: Option<Seq<char>>, i: int)
    requires
        0 <= i < c.flags.len(),
        !is_help(c.flags[i]),
    ensures
        exists|k: int| occurs_at(command_mdx(c, parent, layout), flag_row(c.flags[i]), k),
{
    lemma_row_in_rows(c.flags, i);
    let k = choose|k: int| occurs_at(flag_rows(c.flags), flag_row(c.flags[i]), k);
    assert(has_visible_flag(c.flags));
    let head = frontmatter(c, parent, layout) + usage_block(c) + "## Flags\n\n"@
        + "| Flag | Short | Required | Default | Description |\n"@ + "| --- | --- | --- | --- | --- |\n"@;
    let tail = "\n"@ + editorial_slots();
    assert(command_mdx(c, parent, layout) =~= head + flag_rows(c.flags) + tail);
    lemma_occurs_within(head, flag_rows(c.flags), tail, flag_row(c.flags[i]), k);
}

/// The MDX reference page of one command.
pub open spec fn command_mdx(
    c: CommandView,
    parent: Option<Seq<char>>,
    layout: Option<Seq<char>>,
) -> Seq<char> {
    frontmatter(c, parent, layout) + usage_block(c) + flags_section(c.flags) + editorial_slots()
}

fn push_code_or_dash(out: &mut String, o: &Option<String>)
    ensures
        final(out)@ == old(out)@ + code_or_dash(opt_view(*o)),
{
    match o {
        Some(s) => {
            let ghost o0 = out@;
            push_str(out, "`");
            push_str(out, s.as_str());
            push_str(out, "`");
            assert(out@ =~= o0 + ("`"@ + s@ + "`"@));
        },
        None => push_str(out, "-"),
    }
}

fn push_flag_row(out: &mut String, f: &ParsedFlag)
    ensures
        final(out)@ == old(out)@ + flag_row(f@),
{
    let ghost o0 = out@;
    push_str(out, "| ");
    push_code_or_dash(out, &f.long);
    push_str(out, " | ");
    push_code_or_dash(out, &f.short);
    push_str(out, " | ");
    if f.required {
        push_str(out, "Yes");
    } else {
        push_str(out, "No");
    }
    push_str(out, " | ");
    match &f.default {
        Some(d) => push_str(out, d.as_str()),
        None => push_str(out, "-"),
    }
    push_str(out, " | ");
    push_str(out, f.description.as_str());
    push_str(out, " |\n");
    assert(out@ =~= o0 + flag_row(f@));
}

fn push_flags_section(out: &mut String, flags: &Vec<ParsedFlag>)
    ensures
        final(out)@ == old(out)@ + flags_section(flag_views(flags@)),
{
    let ghost fv = flag_views(flags@);
    let mut any = false;
    let mut i: usize = 0;
    while i < flags.len()
        invariant
            i <= flags@.len(),
            fv == flag_views(flags@),
            any == exists|j: int| 0 <= j < i && !is_help(fv[j]),
        decreases flags@.len() - i,
    {
        assert(fv[i as int] == flags@[i as int]@);
        if !is_help_flag(&flags[i]) {
            any = true;
        }
        assert(any == exists|j: int| 0 <= j < i + 1 && !is_help(fv[j])) by {
            if any && !(exists|j: int| 0 <= j < i && !is_help(fv[j])) {
                assert(!is_help(fv[i as int]));
            }
        }
        i = i + 1;
    }
    if !any {
        return;
    }
    let ghost o0 = out@;
    push_str(out, "## Flags\n\n");
    push_str(out, "| Flag | Short | Required | Default | Description |\n");
    push_str(out, "| --- | --- | --- | --- | --- |\n");
    let ghost o1 = out@;
    let mut k: usize = 0;
    while k < flags.len()
        invariant
            k <= flags@.len(),
            fv == flag_views(flags@),
            out@ == o1 + flag_rows(fv.take(k as int)),
        decreases flags@.len() - k,
    {
        if !is_help_flag(&flags[k]) {
            push_flag_row(out, &flags[k]);
        }
        assert(fv.take(k + 1).drop_last() =~= fv.take(k as int));
        k = k + 1;
    }
    assert(fv.take(flags@.len() as int) =~= fv);
    push_str(out, "\n");
    assert(out@ =~= o0 + flags_section(fv));
}

#[verifier::spinoff_prover]
#[verifier::rlimit(40)]
fn push_frontmatter(out: &mut String, command: &ParsedCommand, parent_name: Option<&str>, layout: Option<&str>)
    ensures
        final(out)@ == old(out)@ + frontmatter(command@, opt_str(parent_name), opt_str(layout)),
{
    proof {
        lemma_command_view(*command);
    }
    let ghost o0 = out@;
    push_str(out, "---\n");
    if let Some(layout_path) = layout {
        push_str(out, "layout: ");
        push_str(out, layout_path);
        push_str(out, "\n");
    }
    let ghost o1 = out@;
    assert(o1 =~= o0 + "---\n"@ + layout_line(opt_str(layout)));
    push_str(out, "title: \"");
    if let Some(parent) = parent_name {
        push_str(out, parent);
        push_str(out, " ");
    }
    push_str(out, command.name.as_str());
    let ghost o2 = out@;
    assert(o2 =~= o1 + "title: \""@ + page_title(command@, opt_str(parent_name)));
    push_str(out, "\"\n");
    push_str(out, "description: \"");
    push_escaped(out, Escape::Quote, command.description.as_str());
    push_str(out, "\"\n");
    push_str(out, "---\n");
    push_str(out, "\n");
    assert(out@ =~= o0 + frontmatter(command@, opt_str(parent_name), opt_str(layout)));
}

fn push_usage_block(out: &mut String, command: &ParsedCommand)
    ensures
        final(out)@ == old(out)@ + usage_block(command@),
{
    proof {
        lemma_command_view(*command);
    }
    let ghost o0 = out@;
    push_str(out, "{/* veneer:overview */}\n");
    push_str(out, "\n");
    push_str(out, "## Usage\n");
    push_str(out, "\n");
    push_str(out, "```bash\n");
    push_str(out, command.usage.as_str());
    push_str(out, "\n");
    push_str(out, "```\n");
    push_str(out, "\n");
    assert(out@ =~= o0 + usage_block(command@));
}

fn push_editorial_slots(out: &mut String)
    ensures
        final(out)@ == old(out)@ + editorial_slots(),
{
    let ghost o0 = out@;
    push_str(out, "{/* veneer:when-to-use */}\n");
    push_str(out, "\n");
    push_str(out, "{/* veneer:examples */}\n");
    push_str(out, "\n");
    push_str(out, "{/* veneer:gotchas */}\n");
    assert(out@ =~= o0 + editorial_slots());
}

/// Generate an MDX reference page for a single command.
///
/// If `parent_name` is provided, the title becomes "parent_name command_name".
pub fn generate_command_mdx(
    command: &ParsedCommand,
    parent_name: Option<&str>,
    layout: Option<&str>,
) -> (r: String)
    ensures
        r@ == command_mdx(command@, opt_str(parent_name), opt_str(layout)),
{
    proof {
        lemma_command_view(*command);
    }
    let mut out = String::new();
    push_frontmatter(&mut out, command, parent_name, layout);
    push_usage_block(&mut out, command);
    push_flags_section(&mut out, &command.flags);
    push_editorial_slots(&mut out);
    assert(out@ =~= command_mdx(command@, opt_str(parent_name), opt_str(layout)));
    out
}

/// One page of the reference tree: where it goes, its title, the command
/// it documents, and its content.
pub struct PageView {
    pub path: Seq<char>,
    pub title: Seq<char>,
    pub command_name: Seq<char>,
    pub content: Seq<char>,
}

pub open spec fn mdx_name(name: Seq<char>) -> Seq<char> {
    name + ".mdx"@
}

pub open spec fn page_of(page: (GeneratedPage, String)) -> PageView {
    PageView {
        path: page.0.path@,
        title: page.0.title@,
        command_name: page.0.command_name@,
        content: page.1@,
    }
}

/// The pages of the nested subcommands of `sub`, the `k`-th child of root.
pub open spec fn nested_pages(
    root: CommandView,
    sub: CommandView,
    dir: Seq<char>,
    layout: Option<Seq<char>>,
) -> Seq<PageView> {
    Seq::new(
        sub.subcommands.len(),
        |j: int|
            PageView {
                path: path_join(path_join(path_join(dir, root.name), sub.name), mdx_name(sub.subcommands[j].name)),
                title: root.name + " "@ + sub.name + " "@ + sub.subcommands[j].name,
                command_name: sub.subcommands[j].name,
                content: command_mdx(sub.subcommands[j], Some(root.name + " "@ + sub.name), layout),
            },
    )
}

/// The pages for one subcommand and then its nested subcommands.
pub open spec fn sub_pages(root: CommandView, sub: CommandView, dir: Seq<char>, layout: Option<Seq<char>>) -> Seq<PageView> {
    seq![
        PageView {
            path: path_join(path_join(dir, root.name), mdx_name(sub.name)),
            title: root.name + " "@ + sub.name,
            command_name: sub.name,
            content: command_mdx(sub, Some(root.name), layout),
        },
    ] + nested_pages(root, sub, dir, layout)
}

/// The pages of the subcommands `subs`, in order.
pub open spec fn subs_pages(root: CommandView, subs: Seq<CommandView>, dir: Seq<char>, layout: Option<Seq<char>>) -> Seq<PageView>
    decreases subs.len(),
{
    if subs.len() == 0 {
        seq![]
    } else {
        subs_pages(root, subs.drop_last(), dir, layout) + sub_pages(root, subs.last(), dir, layout)
    }
}

/// The reference tree of a root command under `output_dir/reference`:
/// the root page, then each subcommand's page followed by its nested pages.
pub open spec fn reference_pages(root: CommandView, output_dir: Seq<char>, layout: Option<Seq<char>>) -> Seq<PageView> {
    let dir = path_join(output_dir, "reference"@);
    seq![
        PageView {
            path: path_join(dir, mdx_name(root.name)),
            title: root.name,
            command_name: root.name,
            content: command_mdx(root, None, layout),
        },
    ] + subs_pages(root, root.subcommands, dir, layout)
}

fn mdx_file_name(name: &str) -> (r: String)
    ensures
        r@ == mdx_name(name@),
{
    let mut r = owned(name);
    push_str(&mut r, ".mdx");
    r
}

fn spaced(a: &str, b: &str) -> (r: String)
    ensures
        r@ == a@ + " "@ + b@,
{
    let mut r = owned(a);
    push_str(&mut r, " ");
    push_str(&mut r, b);
    r
}

pub open spec fn pages_view(v: Seq<(GeneratedPage, String)>) -> Seq<PageView> {
    v.map_values(|p: (GeneratedPage, String)| page_of(p))
}

fn push_page(pages: &mut Vec<(GeneratedPage, String)>, path: String, title: String, command_name: String, content: String)
    ensures
        pages_view(final(pages)@) == pages_view(old(pages)@).push(
            PageView { path: path@, title: title@, command_name: command_name@, content: content@ },
        ),
{
    let ghost before = pages@;
    pages.push((GeneratedPage { path, title, command_name }, content));
    assert(pages_view(pages@) =~= pages_view(before).push(
        PageView { path: path@, title: title@, command_name: command_name@, content: content@ },
    ));
}

fn push_sub_pages(
    pages: &mut Vec<(GeneratedPage, String)>,
    root: &ParsedCommand,
    sub: &ParsedCommand,
    reference_dir: &str,
    layout: Option<&str>,
)
    ensures
        pages_view(final(pages)@) == pages_view(old(pages)@) + sub_pages(root@, sub@, reference_dir@, opt_str(layout)),
{
    proof {
        lemma_command_view(*sub);
        lemma_command_view(*root);
    }
    let ghost lv = opt_str(layout);
    let ghost sp = sub_pages(root@, sub@, reference_dir@, lv);
    let sub_dir = join_path(reference_dir, root.name.as_str());
    let sub_path = join_path(sub_dir.as_str(), mdx_file_name(sub.name.as_str()).as_str());
    let sub_mdx = generate_command_mdx(sub, Some(root.name.as_str()), layout);
    let ghost before = pages_view(pages@);
    push_page(pages, sub_path, spaced(root.name.as_str(), sub.name.as_str()), sub.name.clone(), sub_mdx);
    assert(pages_view(pages@) =~= before + sp.take(1));
    let mut j: usize = 0;
    while j < sub.subcommands.len()
        invariant
            j <= sub.subcommands@.len(),
            sp == sub_pages(root@, sub@, reference_dir@, lv),
            lv == opt_str(layout),
            sub_dir@ == path_join(reference_dir@, root@.name),
            root.name@ == root@.name,
            sub.name@ == sub@.name,
            sub@.subcommands.len() == sub.subcommands@.len(),
            forall|k: int| 0 <= k < sub.subcommands@.len() ==> #[trigger] sub@.subcommands[k] == sub.subcommands@[k]@,
            pages_view(pages@) == before + sp.take(j + 1),
        decreases sub.subcommands@.len() - j,
    {
        let nested = &sub.subcommands[j];
        proof {
            lemma_command_view(*nested);
        }
        let nested_dir = join_path(sub_dir.as_str(), sub.name.as_str());
        let nested_path = join_path(nested_dir.as_str(), mdx_file_name(nested.name.as_str()).as_str());
        let parent_title = spaced(root.name.as_str(), sub.name.as_str());
        let nested_mdx = generate_command_mdx(nested, Some(parent_title.as_str()), layout);
        let title = spaced(parent_title.as_str(), nested.name.as_str());
        let ghost b2 = pages_view(pages@);
        push_page(pages, nested_path, title, nested.name.clone(), nested_mdx);
        assert(sp[j + 1] == nested_pages(root@, sub@, reference_dir@, lv)[j as int]);
        assert(sp.take(j + 2) =~= sp.take(j + 1).push(sp[j + 1]));
        j = j + 1;
    }
    assert(sp.take(sub.subcommands@.len() + 1int) =~= sp);
}

/// Generate MDX reference pages for a command tree: one page per command
/// under `output_dir/reference/`, subcommands in subdirectories
/// (`reference/kanban/create.mdx`). Each page comes with its content;
/// writing the files is the caller's.
pub fn generate_reference_pages(
    root: &ParsedCommand,
    output_dir: &str,
    layout: Option<&str>,
) -> (r: Vec<(GeneratedPage, String)>)
    ensures
        pages_view(r@) == reference_pages(root@, output_dir@, opt_str(layout)),
{
    let ghost lv = opt_str(layout);
    proof {
        lemma_command_view(*root);
    }
    let reference_dir = join_path(output_dir, "reference");
    let mut pages: Vec<(GeneratedPage, String)> = Vec::new();
    let root_path = join_path(reference_dir.as_str(), mdx_file_name(root.name.as_str()).as_str());
    let root_mdx = generate_command_mdx(root, None, layout);
    push_page(&mut pages, root_path, root.name.clone(), root.name.clone(), root_mdx);
    let ghost rv = root@;
    let ghost dir = reference_dir@;
    let ghost first = pages_view(pages@);
    assert(pages_view(pages@) =~= first + subs_pages(rv, rv.subcommands.take(0), dir, lv));
    let mut i: usize = 0;
    while i < root.subcommands.len()
        invariant
            i <= root.subcommands@.len(),
            rv == root@,
            dir == reference_dir@,
            lv == opt_str(layout),
            rv.subcommands.len() == root.subcommands@.len(),
            forall|j: int| 0 <= j < root.subcommands@.len() ==> #[trigger] rv.subcommands[j] == root.subcommands@[j]@,
            pages_view(pages@) == first + subs_pages(rv, rv.subcommands.take(i as int), dir, lv),
        decreases root.subcommands@.len() - i,
    {
        push_sub_pages(&mut pages, root, &root.subcommands[i], reference_dir.as_str(), layout);
        assert(rv.subcommands.take(i + 1).drop_last() =~= rv.subcommands.take(i as int));
        i = i + 1;
    }
    assert(rv.subcommands.take(root.subcommands@.len() as int) =~= rv.subcommands);
    assert(pages_view(pages@) =~= reference_pages(root@, output_dir@, lv));
    pages
}

} // verus!
