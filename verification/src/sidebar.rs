//! Sidebar generation: the navigation tree built from parsed CLI commands
//! and editorial pages.

use vstd::prelude::*;
use vstd::string::*;
use crate::cli_parser::{lemma_command_view, CommandView, ParsedCommand};
use crate::text::{
    chars_of, char_upper, join, owned, push_range, push_str, push_upper, split, split_chars,
    views, vviews,
};

verus! {

/// A node in the sidebar tree.
#[derive(Debug)]
pub struct SidebarNode {
    /// Display title
    pub title: String,
    /// URL path (e.g., "/docs/getting-started/install")
    pub path: Option<String>,
    /// Icon identifier (optional)
    pub icon: Option<String>,
    /// Child nodes for groups
    pub children: Vec<SidebarNode>,
    /// Sort order within the parent group
    pub order: u32,
    /// Logical group name (e.g., "getting-started", "commands")
    pub group: Option<String>,
}

/// An editorial (hand-written) page to include in the sidebar.
#[derive(Debug, Clone)]
pub struct EditorialPage {
    /// Display title
    pub title: String,
    /// URL path
    pub path: String,
    /// Section slug (e.g., "getting-started", "concepts")
    pub section: String,
    /// Sort order within the section
    pub order: u32,
}

/// Errors from sidebar generation and writing.
#[derive(Debug, Clone, PartialEq, Eq)]
pub enum SidebarError {
    WriteError(String),
}

pub open spec fn opt_view(o: Option<String>) -> Option<Seq<char>> {
    match o {
        Some(s) => Some(s@),
        None => None,
    }
}

/// The model of a sidebar node.
pub struct NodeView {
    pub title: Seq<char>,
    pub path: Option<Seq<char>>,
    pub icon: Option<Seq<char>>,
    pub children: Seq<NodeView>,
    pub order: u32,
    pub group: Option<Seq<char>>,
}

impl View for SidebarNode {
    type V = NodeView;

    open spec fn view(&self) -> NodeView
        decreases self,
    {
        NodeView {
            title: self.title@,
            path: opt_view(self.path),
            icon: opt_view(self.icon),
            children: Seq::new(
                self.children@.len(),
                |i: int|
                    {
                        if 0 <= i < self.children@.len() {
                            self.children@[i].view()
                        } else {
                            arbitrary()
                        }
                    },
            ),
            order: self.order,
            group: opt_view(self.group),
        }
    }
}

pub open spec fn node_views(v: Seq<SidebarNode>) -> Seq<NodeView> {
    v.map_values(|n: SidebarNode| n@)
}

/// A node's view unfolds to its title, order and children's views.
pub proof fn lemma_node_view(n: SidebarNode)
    ensures
        n@.children == node_views(n.children@),
        n@.title == n.title@,
        n@.order == n.order,
{
    reveal_with_fuel(<SidebarNode as View>::view, 2);
    assert(n@.children =~= node_views(n.children@));
}

/// The model of an editorial page.
pub struct PageModel {
    pub title: Seq<char>,
    pub path: Seq<char>,
    pub section: Seq<char>,
    pub order: u32,
}

impl View for EditorialPage {
    type V = PageModel;

    open spec fn view(&self) -> PageModel {
        PageModel { title: self.title@, path: self.path@, section: self.section@, order: self.order }
    }
}

pub open spec fn page_models(v: Seq<EditorialPage>) -> Seq<PageModel> {
    v.map_values(|p: EditorialPage| p@)
}

// ---- names ----

/// The first character upper-cased (`char::to_uppercase`), the rest as is.
pub open spec fn capitalized(s: Seq<char>) -> Seq<char> {
    if s.len() == 0 {
        seq![]
    } else {
        char_upper(s[0]) + s.drop_first()
    }
}

fn push_capitalized(out: &mut String, v: &Vec<char>)
    ensures
        final(out)@ == old(out)@ + capitalized(v@),
{
    if v.len() > 0 {
        push_upper(out, v[0]);
        push_range(out, v, 1, v.len());
        assert(v@.subrange(1, v@.len() as int) =~= v@.drop_first());
    }
}

/// Capitalize the first character of a string.
pub fn capitalize(s: &str) -> (r: String)
    ensures
        r@ == capitalized(s@),
{
    let v = chars_of(s);
    let mut r = String::new();
    push_capitalized(&mut r, &v);
    r
}

/// "getting-started" becomes "Getting Started".
pub open spec fn section_title(slug: Seq<char>) -> Seq<char> {
    join(split(slug, '-').map_values(|w: Seq<char>| capitalized(w)), " "@)
}

/// Convert a section slug like "getting-started" to "Getting Started".
pub fn section_to_title(slug: &str) -> (r: String)
    ensures
        r@ == section_title(slug@),
{
    let v = chars_of(slug);
    let parts = split_chars(&v, '-');
    let ghost caps = vviews(parts@).map_values(|w: Seq<char>| capitalized(w));
    let mut r = String::new();
    let mut i: usize = 0;
    while i < parts.len()
        invariant
            i <= parts@.len(),
            caps == vviews(parts@).map_values(|w: Seq<char>| capitalized(w)),
            r@ == join(caps.take(i as int), " "@),
        decreases parts@.len() - i,
    {
        let ghost before = r@;
        if i > 0 {
            push_str(&mut r, " ");
        }
        push_capitalized(&mut r, &parts[i]);
        assert(caps.take(i + 1).drop_last() =~= caps.take(i as int));
        assert(caps[i as int] == capitalized(parts@[i as int]@));
        i = i + 1;
    }
    assert(caps.take(parts@.len() as int) =~= caps);
    r
}

// ---- editorial sections ----

/// The distinct sections of the pages, in order of first appearance.
pub open spec fn sections_of(pages: Seq<PageModel>) -> Seq<Seq<char>>
    decreases pages.len(),
{
    if pages.len() == 0 {
        seq![]
    } else {
        let prev = sections_of(pages.drop_last());
        if prev.contains(pages.last().section) {
            prev
        } else {
            prev.push(pages.last().section)
        }
    }
}

/// The pages of one section, in page order.
pub open spec fn pages_in(pages: Seq<PageModel>, section: Seq<char>) -> Seq<PageModel>
    decreases pages.len(),
{
    if pages.len() == 0 {
        seq![]
    } else {
        let prev = pages_in(pages.drop_last(), section);
        if pages.last().section == section {
            prev.push(pages.last())
        } else {
            prev
        }
    }
}

/// `p` inserted into `sorted` after every page whose order is not greater.
pub open spec fn insert_by_order(sorted: Seq<PageModel>, p: PageModel) -> Seq<PageModel>
    decreases sorted.len(),
{
    if sorted.len() == 0 {
        seq![p]
    } else if sorted.last().order <= p.order {
        sorted.push(p)
    } else {
        insert_by_order(sorted.drop_last(), p).push(sorted.last())
    }
}

/// The pages stably sorted by order (`sort_by_key(|p| p.order)`).
pub open spec fn sorted_by_order(pages: Seq<PageModel>) -> Seq<PageModel>
    decreases pages.len(),
{
    if pages.len() == 0 {
        seq![]
    } else {
        insert_by_order(sorted_by_order(pages.drop_last()), pages.last())
    }
}

/// Orders never decrease along `s`.
pub open spec fn orders_ascending(s: Seq<PageModel>) -> bool {
    forall|i: int, j: int| 0 <= i < j < s.len() ==> (#[trigger] s[i]).order <= (#[trigger] s[j]).order
}

proof fn lemma_insert_by_order(r: Seq<PageModel>, p: PageModel)
    requires
        orders_ascending(r),
    ensures
        orders_ascending(insert_by_order(r, p)),
        insert_by_order(r, p).to_multiset() == r.to_multiset().insert(p),
    decreases r.len(),
{
    broadcast use vstd::seq_lib::group_to_multiset_ensures;

    if r.len() == 0 {
        assert(insert_by_order(r, p) =~= r.push(p));
    } else if r.last().order <= p.order {
        let s = r.push(p);
        assert forall|i: int, j: int| 0 <= i < j < s.len() implies (#[trigger] s[i]).order <= (#[trigger] s[j]).order by {
            if j == r.len() {
                if i < r.len() - 1 {
                    assert(r[i].order <= r[r.len() - 1].order);
                }
            } else {
                assert(s[i] == r[i] && s[j] == r[j]);
            }
        }
    } else {
        let q0 = r.drop_last();
        let l = r.last();
        assert(orders_ascending(q0)) by {
            assert forall|i: int, j: int| 0 <= i < j < q0.len() implies (#[trigger] q0[i]).order <= (#[trigger] q0[j]).order by {
                assert(q0[i] == r[i] && q0[j] == r[j]);
            }
        }
        lemma_insert_by_order(q0, p);
        let q = insert_by_order(q0, p);
        let s = q.push(l);
        assert forall|i: int, j: int| 0 <= i < j < s.len() implies (#[trigger] s[i]).order <= (#[trigger] s[j]).order by {
            if j == q.len() {
                let e = q[i];
                assert(q.to_multiset().count(e) > 0);
                if e != p {
                    assert(q0.to_multiset().count(e) > 0);
                    assert(q0.contains(e));
                    let k = choose|k: int| 0 <= k < q0.len() && q0[k] == e;
                    assert(r[k].order <= r[r.len() - 1].order);
                }
            } else {
                assert(s[i] == q[i] && s[j] == q[j]);
            }
        }
        assert(r =~= q0.push(l));
        assert(s.to_multiset() =~= r.to_multiset().insert(p));
    }
}

/// Sorting pages by order yields ascending orders and the same pages,
/// neither lost nor added.
pub proof fn lemma_sorted_by_order(pages: Seq<PageModel>)
    ensures
        orders_ascending(sorted_by_order(pages)),
        sorted_by_order(pages).to_multiset() == pages.to_multiset(),
    decreases pages.len(),
{
    broadcast use vstd::seq_lib::group_to_multiset_ensures;

    if pages.len() > 0 {
        let p = pages.drop_last();
        lemma_sorted_by_order(p);
        lemma_insert_by_order(sorted_by_order(p), pages.last());
        assert(pages =~= p.push(pages.last()));
    } else {
        assert(pages.to_multiset() =~= vstd::multiset::Multiset::empty());
        assert(sorted_by_order(pages).to_multiset() =~= vstd::multiset::Multiset::empty());
    }
}

/// The leaf node of one editorial page.
pub open spec fn page_node(p: PageModel, section: Seq<char>) -> NodeView {
    NodeView {
        title: p.title,
        path: Some(p.path),
        icon: None,
        children: seq![],
        order: p.order,
        group: Some(section),
    }
}

/// The group node of the `k`-th section.
pub open spec fn section_node(pages: Seq<PageModel>, section: Seq<char>, k: int) -> NodeView {
    NodeView {
        title: section_title(section),
        path: None,
        icon: None,
        children: sorted_by_order(pages_in(pages, section)).map_values(
            |p: PageModel| page_node(p, section),
        ),
        order: k as u32,
        group: Some(section),
    }
}

pub open spec fn editorial_nodes(pages: Seq<PageModel>) -> Seq<NodeView> {
    let secs = sections_of(pages);
    Seq::new(secs.len(), |k: int| section_node(pages, secs[k], k))
}

// ---- command groups ----

/// The leaf node of one command.
pub open spec fn command_node(c: CommandView, order: u32) -> NodeView {
    NodeView {
        title: capitalized(c.name),
        path: Some("/docs/cli/"@ + c.name),
        icon: None,
        children: seq![],
        order,
        group: Some("commands"@),
    }
}

/// The groups built from the commands that have subcommands, and the leaf
/// nodes of the flat commands, after reading `subs` in order.
pub struct CommandNodes {
    pub groups: Seq<NodeView>,
    pub flat: Seq<NodeView>,
}

pub open spec fn command_nodes(subs: Seq<CommandView>, first_order: int) -> CommandNodes
    decreases subs.len(),
{
    if subs.len() == 0 {
        CommandNodes { groups: seq![], flat: seq![] }
    } else {
        let prev = command_nodes(subs.drop_last(), first_order);
        let sub = subs.last();
        if sub.subcommands.len() == 0 {
            CommandNodes {
                flat: prev.flat.push(command_node(sub, prev.flat.len() as u32)),
                ..prev
            }
        } else {
            CommandNodes {
                groups: prev.groups.push(
                    NodeView {
                        title: capitalized(sub.name),
                        path: Some("/docs/cli/"@ + sub.name),
                        icon: None,
                        children: Seq::new(
                            sub.subcommands.len(),
                            |i: int| command_node(sub.subcommands[i], i as u32),
                        ),
                        order: (first_order + prev.groups.len()) as u32,
                        group: Some("commands"@),
                    },
                ),
                ..prev
            }
        }
    }
}

/// The whole sidebar: the editorial sections, then a group for each command
/// with subcommands, then one "Commands" group of the flat commands.
pub open spec fn sidebar(commands: CommandView, pages: Seq<PageModel>) -> Seq<NodeView> {
    let ed = editorial_nodes(pages);
    let cn = command_nodes(commands.subcommands, ed.len() as int);
    ed + cn.groups + if cn.flat.len() > 0 {
        seq![
            NodeView {
                title: "Commands"@,
                path: None,
                icon: None,
                children: cn.flat,
                order: (ed.len() + cn.groups.len()) as u32,
                group: Some("commands"@),
            },
        ]
    } else {
        seq![]
    }
}

/// The subcommands that have no subcommands of their own, in order.
pub open spec fn flat_subcommands(subs: Seq<CommandView>) -> Seq<CommandView>
    decreases subs.len(),
{
    if subs.len() == 0 {
        seq![]
    } else if subs.last().subcommands.len() == 0 {
        flat_subcommands(subs.drop_last()).push(subs.last())
    } else {
        flat_subcommands(subs.drop_last())
    }
}

/// The subcommands that have subcommands of their own, in order.
pub open spec fn nested_subcommands(subs: Seq<CommandView>) -> Seq<CommandView>
    decreases subs.len(),
{
    if subs.len() == 0 {
        seq![]
    } else if subs.last().subcommands.len() == 0 {
        nested_subcommands(subs.drop_last())
    } else {
        nested_subcommands(subs.drop_last()).push(subs.last())
    }
}

/// Every command entry links to its own page: the `k`-th flat command's
/// leaf and the `g`-th nested command's group link to `/docs/cli/` followed
/// by that command's name, and each child of a group to `/docs/cli/`
/// followed by that subcommand's name, in order.
pub proof fn lemma_command_links(subs: Seq<CommandView>, first_order: int)
    ensures
        command_nodes(subs, first_order).flat.len() == flat_subcommands(subs).len(),
        command_nodes(subs, first_order).groups.len() == nested_subcommands(subs).len(),
        forall|k: int| 0 <= k < flat_subcommands(subs).len() ==> {
            let n = #[trigger] command_nodes(subs, first_order).flat[k];
            &&& n.path == Some("/docs/cli/"@ + flat_subcommands(subs)[k].name)
            &&& n.title == capitalized(flat_subcommands(subs)[k].name)
            &&& n.children.len() == 0
        },
        forall|g: int| 0 <= g < nested_subcommands(subs).len() ==> {
            let n = #[trigger] command_nodes(subs, first_order).groups[g];
            let c = nested_subcommands(subs)[g];
            &&& n.path == Some("/docs/cli/"@ + c.name)
            &&& n.children.len() == c.subcommands.len()
            &&& forall|i: int| 0 <= i < c.subcommands.len() ==> (#[trigger] n.children[i]).path == Some(
                "/docs/cli/"@ + c.subcommands[i].name,
            )
        },
    decreases subs.len(),
{
    if subs.len() > 0 {
        lemma_command_links(subs.drop_last(), first_order);
    }
}

/// In the sidebar, the "Commands" group comes last whenever some subcommand
/// is flat, and its `k`-th entry links to `/docs/cli/` followed by the name
/// of the `k`-th flat subcommand; with no flat subcommand there is no such
/// group.
pub proof fn lemma_sidebar_command_links(commands: CommandView, pages: Seq<PageModel>)
    ensures
        ({
            let flat = flat_subcommands(commands.subcommands);
            let nested = nested_subcommands(commands.subcommands);
            let ed = editorial_nodes(pages);
            let bar = sidebar(commands, pages);
            &&& flat.len() == 0 ==> bar.len() == ed.len() + nested.len()
            &&& flat.len() > 0 ==> {
                &&& bar.len() == ed.len() + nested.len() + 1
                &&& bar.last().title == "Commands"@
                &&& bar.last().children.len() == flat.len()
                &&& forall|k: int| 0 <= k < flat.len() ==> (#[trigger] bar.last().children[k]).path == Some(
                    "/docs/cli/"@ + flat[k].name,
                )
            }
        }),
{
    let ed = editorial_nodes(pages);
    lemma_command_links(commands.subcommands, ed.len() as int);
}

fn command_to_node(cmd: &ParsedCommand, order: u32) -> (r: SidebarNode)
    ensures
        r@ == command_node(cmd@, order),
{
    proof {
        lemma_command_view(*cmd);
    }
    let mut path = owned("/docs/cli/");
    push_str(&mut path, cmd.name.as_str());
    let r = SidebarNode {
        title: capitalize(cmd.name.as_str()),
        path: Some(path),
        icon: None,
        children: Vec::new(),
        order,
        group: Some(owned("commands")),
    };
    proof {
        lemma_node_view(r);
    }
    assert(r@.children =~= Seq::<NodeView>::empty());
    r
}

fn contains_string(v: &Vec<String>, s: &String) -> (b: bool)
    ensures
        b == views(v@).contains(s@),
{
    let mut i: usize = 0;
    while i < v.len()
        invariant
            i <= v@.len(),
            forall|j: int| 0 <= j < i ==> v@[j]@ != s@,
        decreases v@.len() - i,
    {
        if crate::text::str_eq(v[i].as_str(), s.as_str()) {
            assert(views(v@)[i as int] == s@);
            return true;
        }
        i = i + 1;
    }
    assert(!views(v@).contains(s@)) by {
        if views(v@).contains(s@) {
            let j = choose|j: int| 0 <= j < v@.len() && #[trigger] views(v@)[j] == s@;
            assert(v@[j]@ == s@);
        }
    }
    false
}

fn copy_page(p: &EditorialPage) -> (r: EditorialPage)
    ensures
        r@ == p@,
{
    EditorialPage {
        title: p.title.clone(),
        path: p.path.clone(),
        section: p.section.clone(),
        order: p.order,
    }
}

/// The section's pages, stably sorted by order.
fn sorted_section_pages(pages: &[EditorialPage], section: &String) -> (r: Vec<EditorialPage>)
    ensures
        page_models(r@) == sorted_by_order(pages_in(page_models(pages@), section@)),
{
    let mut sorted: Vec<EditorialPage> = Vec::new();
    let mut i: usize = 0;
    while i < pages.len()
        invariant
            i <= pages@.len(),
            page_models(sorted@) == sorted_by_order(pages_in(page_models(pages@).take(i as int), section@)),
        decreases pages@.len() - i,
    {
        let ghost pm = page_models(pages@);
        assert(pm.take(i + 1).drop_last() =~= pm.take(i as int));
        assert(pm.take(i + 1).last() == pages@[i as int]@);
        let ghost prev = pages_in(pm.take(i as int), section@);
        if crate::text::str_eq(pages[i].section.as_str(), section.as_str()) {
            let p = copy_page(&pages[i]);
            assert(pages_in(pm.take(i + 1), section@) == prev.push(p@));
            assert(prev.push(p@).drop_last() =~= prev);
            let ghost s0 = page_models(sorted@);
            assert(s0.take(s0.len() as int) =~= s0);
            assert(s0.skip(s0.len() as int) =~= Seq::<PageModel>::empty());
            assert(insert_by_order(s0, p@) =~= insert_by_order(s0.take(sorted@.len() as int), p@) + s0.skip(sorted@.len() as int));
            // insertion: walk back over pages with a greater order
            let mut k = sorted.len();
            while k > 0 && sorted[k - 1].order > p.order
                invariant
                    k <= sorted@.len(),
                    page_models(sorted@) == s0,
                    insert_by_order(s0, p@) == insert_by_order(s0.take(k as int), p@) + s0.skip(k as int),
                decreases k,
            {
                assert(s0.take(k as int).drop_last() =~= s0.take(k - 1));
                assert(s0.take(k as int).last() == s0[k - 1]);
                assert(insert_by_order(s0.take(k - 1), p@) + s0.skip(k - 1) =~= insert_by_order(s0.take(k - 1), p@).push(s0[k - 1]) + s0.skip(k as int));
                k = k - 1;
            }
            assert(insert_by_order(s0.take(k as int), p@) =~= s0.take(k as int).push(p@));
            sorted.insert(k, p);
            assert(page_models(sorted@) =~= s0.take(k as int).push(p@) + s0.skip(k as int));
        }
        i = i + 1;
    }
    assert(page_models(pages@).take(pages@.len() as int) =~= page_models(pages@));
    sorted
}


fn page_to_node(p: &EditorialPage, section: &String) -> (r: SidebarNode)
    ensures
        r@ == page_node(p@, section@),
{
    let r = SidebarNode {
        title: p.title.clone(),
        path: Some(p.path.clone()),
        icon: None,
        children: Vec::new(),
        order: p.order,
        group: Some(section.clone()),
    };
    proof {
        lemma_node_view(r);
    }
    assert(r@.children =~= Seq::<NodeView>::empty());
    r
}

/// Generate sidebar nodes from parsed CLI commands and editorial pages.
///
/// Editorial pages come first, grouped by section. Commands follow, grouped
/// by category: commands with subcommands become their own group, flat commands
/// collect under a "Commands" group.
pub fn generate_sidebar(commands: &ParsedCommand, editorial_pages: &[EditorialPage]) -> (r: Vec<SidebarNode>)
    requires
        editorial_pages@.len() + commands.subcommands@.len() < u32::MAX,
    ensures
        node_views(r@) == sidebar(commands@, page_models(editorial_pages@)),
{
    proof {
        lemma_command_view(*commands);
    }
    let ghost pm = page_models(editorial_pages@);
    let mut nodes: Vec<SidebarNode> = Vec::new();
    let mut group_order: u32 = 0;

    // -- Editorial pages first, grouped by section --
    let mut sections: Vec<String> = Vec::new();
    let mut i: usize = 0;
    while i < editorial_pages.len()
        invariant
            i <= editorial_pages@.len(),
            pm == page_models(editorial_pages@),
            views(sections@) == sections_of(pm.take(i as int)),
            sections@.len() <= i,
        decreases editorial_pages@.len() - i,
    {
        assert(pm.take(i + 1).drop_last() =~= pm.take(i as int));
        assert(pm.take(i + 1).last() == editorial_pages@[i as int]@);
        if !contains_string(&sections, &editorial_pages[i].section) {
            let ghost before = sections@;
            sections.push(editorial_pages[i].section.clone());
            assert(views(sections@) =~= views(before).push(editorial_pages@[i as int].section@));
        }
        i = i + 1;
    }
    assert(pm.take(editorial_pages@.len() as int) =~= pm);
    let ghost secs = sections_of(pm);
    let mut k: usize = 0;
    while k < sections.len()
        invariant
            k <= sections@.len(),
            sections@.len() <= editorial_pages@.len(),
            pm == page_models(editorial_pages@),
            secs == sections_of(pm),
            views(sections@) == secs,
            editorial_pages@.len() + commands.subcommands@.len() < u32::MAX,
            group_order == k,
            node_views(nodes@) == editorial_nodes(pm).take(k as int),
        decreases sections@.len() - k,
    {
        let section = &sections[k];
        assert(section@ == secs[k as int]);
        let children = sorted_section_pages(editorial_pages, section);
        let mut child_nodes: Vec<SidebarNode> = Vec::new();
        let mut c: usize = 0;
        while c < children.len()
            invariant
                c <= children@.len(),
                node_views(child_nodes@) == page_models(children@).take(c as int).map_values(|p: PageModel| page_node(p, section@)),
            decreases children@.len() - c,
        {
            let n = page_to_node(&children[c], section);
            let ghost before = node_views(child_nodes@);
            child_nodes.push(n);
            assert(node_views(child_nodes@) =~= before.push(n@));
            assert(page_models(children@).take(c + 1) =~= page_models(children@).take(c as int).push(children@[c as int]@));
            assert(page_models(children@).take(c + 1).map_values(|p: PageModel| page_node(p, section@)) =~= page_models(children@).take(c as int).map_values(|p: PageModel| page_node(p, section@)).push(page_node(children@[c as int]@, section@)));
            c = c + 1;
        }
        assert(page_models(children@).take(children@.len() as int) =~= page_models(children@));
        let node = SidebarNode {
            title: section_to_title(section.as_str()),
            path: None,
            icon: None,
            children: child_nodes,
            order: group_order,
            group: Some(section.clone()),
        };
        proof {
            lemma_node_view(node);
        }
        let ghost before = node_views(nodes@);
        nodes.push(node);
        assert(node_views(nodes@) =~= before.push(section_node(pm, secs[k as int], k as int)));
        assert(editorial_nodes(pm).take(k + 1) =~= editorial_nodes(pm).take(k as int).push(section_node(pm, secs[k as int], k as int)));
        group_order = group_order + 1;
        k = k + 1;
    }
    assert(editorial_nodes(pm).take(sections@.len() as int) =~= editorial_nodes(pm));
    let ghost ed = editorial_nodes(pm);
    let ghost subs = commands@.subcommands;

    // -- Commands from parsed CLI output --
    let mut flat_commands: Vec<SidebarNode> = Vec::new();
    let mut j: usize = 0;
    while j < commands.subcommands.len()
        invariant
            j <= commands.subcommands@.len(),
            subs == commands@.subcommands,
            subs.len() == commands.subcommands@.len(),
            forall|q: int| 0 <= q < subs.len() ==> #[trigger] subs[q] == commands.subcommands@[q]@,
            ed.len() <= editorial_pages@.len(),
            editorial_pages@.len() + commands.subcommands@.len() < u32::MAX,
            group_order == ed.len() + command_nodes(subs.take(j as int), ed.len() as int).groups.len(),
            node_views(nodes@) == ed + command_nodes(subs.take(j as int), ed.len() as int).groups,
            node_views(flat_commands@) == command_nodes(subs.take(j as int), ed.len() as int).flat,
            command_nodes(subs.take(j as int), ed.len() as int).groups.len() + command_nodes(subs.take(j as int), ed.len() as int).flat.len() == j,
        decreases commands.subcommands@.len() - j,
    {
        let sub = &commands.subcommands[j];
        proof {
            lemma_command_view(*sub);
        }
        assert(subs.take(j + 1).drop_last() =~= subs.take(j as int));
        assert(subs.take(j + 1).last() == sub@);
        if sub.subcommands.len() == 0 {
            let n = command_to_node(sub, flat_commands.len() as u32);
            let ghost before = node_views(flat_commands@);
            flat_commands.push(n);
            assert(node_views(flat_commands@) =~= before.push(n@));
        } else {
            let mut children: Vec<SidebarNode> = Vec::new();
            let mut q: usize = 0;
            while q < sub.subcommands.len()
                invariant
                    q <= sub.subcommands@.len(),
                    sub@.subcommands.len() == sub.subcommands@.len(),
                    forall|t: int| 0 <= t < sub.subcommands@.len() ==> #[trigger] sub@.subcommands[t] == sub.subcommands@[t]@,
                    node_views(children@) == Seq::new(q as nat, |t: int| command_node(sub@.subcommands[t], t as u32)),
                decreases sub.subcommands@.len() - q,
            {
                let n = command_to_node(&sub.subcommands[q], q as u32);
                let ghost before = node_views(children@);
                children.push(n);
                assert(node_views(children@) =~= before.push(n@));
                assert(n@ == command_node(sub@.subcommands[q as int], q as u32));
                assert(node_views(children@) =~= Seq::new((q + 1) as nat, |t: int| command_node(sub@.subcommands[t], t as u32)));
                q = q + 1;
            }
            let mut path = owned("/docs/cli/");
            push_str(&mut path, sub.name.as_str());
            let node = SidebarNode {
                title: capitalize(sub.name.as_str()),
                path: Some(path),
                icon: None,
                children,
                order: group_order,
                group: Some(owned("commands")),
            };
            proof {
                lemma_node_view(node);
            }
            let ghost before = node_views(nodes@);
            nodes.push(node);
            assert(node_views(nodes@) =~= before.push(node@));
            assert(node@.children =~= Seq::new(sub@.subcommands.len(), |t: int| command_node(sub@.subcommands[t], t as u32)));
            group_order = group_order + 1;
        }
        j = j + 1;
    }
    assert(subs.take(commands.subcommands@.len() as int) =~= subs);
    if flat_commands.len() > 0 {
        let node = SidebarNode {
            title: owned("Commands"),
            path: None,
            icon: None,
            children: flat_commands,
            order: group_order,
            group: Some(owned("commands")),
        };
        proof {
            lemma_node_view(node);
        }
        let ghost before = node_views(nodes@);
        nodes.push(node);
        assert(node_views(nodes@) =~= before.push(node@));
    }
    assert(node_views(nodes@) =~= sidebar(commands@, pm));
    nodes
}

} // verus!
