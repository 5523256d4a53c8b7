//! A component behavior's exported `Config` interface: the prop/API
//! surface of a component, whose keys become the Web Component's
//! kebab-cased observed attributes (`delayDuration` -> `delay-duration`).
//! The full surface is the interface's own properties plus the properties
//! of the `Config` interfaces it extends; a base that cannot be resolved is
//! named, never dropped silently.

use vstd::prelude::*;
use crate::intelligence::PropDoc;
use crate::text::{contains_string, copy_strings, ends_with, str_ends_with, str_eq, views};
use crate::ts_helpers::{kebab, kebab_case};
use crate::ts_syntax::{parse_ts_module, parsed_module, TsInterface, TsModule, TsPropSig, TsStatement};
use crate::ts_read::{key_name, key_name_exec};

verus! {

/// One component's `Config` interface as declared in its `.behavior.ts`.
#[derive(Debug, Clone, PartialEq, Eq)]
pub struct ConfigInterface {
    /// The interface name, for example `ButtonConfig`.
    pub name: String,
    /// The properties declared directly on this interface, in source order.
    pub own_props: Vec<PropDoc>,
    /// The base `Config` interfaces this one extends, by name.
    pub extends: Vec<String>,
}

/// The full prop/API surface of a component's `Config` interface.
#[derive(Debug, Clone, PartialEq, Eq)]
pub struct ResolvedConfig {
    /// The component's own Config interface name.
    pub name: String,
    /// Own properties first, then inherited ones in resolution order; a
    /// nearer property shadows an inherited one of the same name.
    pub props: Vec<PropDoc>,
    /// Bases that could not be resolved to a local interface.
    pub unresolved_extends: Vec<String>,
}

/// Bound on how deep the extends chain is followed: a backstop against a
/// pathological or cyclic type graph.
pub const MAX_EXTENDS_DEPTH: usize = 8;

/// The Web Component observed-attribute name for a config property: the
/// property key kebab-cased (`delayDuration` -> `delay-duration`).
pub fn attribute_name(property: &str) -> (r: String)
    ensures
        r@ == kebab(property@),
{
    kebab_case(property)
}

/// `p` appended unless a property of its name is already there.
pub open spec fn merge_step(into: Seq<PropDoc>, p: PropDoc) -> Seq<PropDoc> {
    if exists|i: int| 0 <= i < into.len() && into[i].name@ == p.name@ {
        into
    } else {
        into.push(p)
    }
}

/// Each of `from` merged in order.
pub open spec fn merged(into: Seq<PropDoc>, from: Seq<PropDoc>) -> Seq<PropDoc>
    decreases from.len(),
{
    if from.len() == 0 {
        into
    } else {
        merge_step(merged(into, from.drop_last()), from.last())
    }
}

/// No two properties of `ps` share a name.
pub open spec fn names_unique(ps: Seq<PropDoc>) -> bool {
    forall|i: int, j: int| 0 <= i < ps.len() && 0 <= j < ps.len() && i != j ==> (#[trigger] ps[i]).name@ != (#[trigger] ps[j]).name@
}

/// Merging inherited properties drops none of them and overrides nothing:
/// the properties already there stay, in place; every inherited name is
/// present afterwards; each property after the merge was there or is
/// inherited; and names stay unique.
pub proof fn lemma_merged(into: Seq<PropDoc>, from: Seq<PropDoc>)
    ensures
        into.is_prefix_of(merged(into, from)),
        forall|k: int| 0 <= k < from.len() ==> exists|i: int| 0 <= i < merged(into, from).len()
            && (#[trigger] merged(into, from)[i]).name@ == (#[trigger] from[k]).name@,
        forall|i: int| 0 <= i < merged(into, from).len() ==> into.contains(#[trigger] merged(into, from)[i])
            || from.contains(merged(into, from)[i]),
        names_unique(into) ==> names_unique(merged(into, from)),
    decreases from.len(),
{
    if from.len() == 0 {
        assert(into.is_prefix_of(into));
    } else {
        let f0 = from.drop_last();
        let p = from.last();
        lemma_merged(into, f0);
        let m = merged(into, f0);
        let r = merged(into, from);
        assert(r == merge_step(m, p));
        assert(into.is_prefix_of(r)) by {
            assert forall|i: int| 0 <= i < into.len() implies into[i] == r[i] by {
                assert(into[i] == m[i]);
            }
        }
        assert forall|k: int| 0 <= k < from.len() implies exists|i: int| 0 <= i < r.len()
            && (#[trigger] r[i]).name@ == (#[trigger] from[k]).name@ by {
            if k < from.len() - 1 {
                assert(from[k] == f0[k]);
                let i = choose|i: int| 0 <= i < m.len() && (#[trigger] m[i]).name@ == (#[trigger] f0[k]).name@;
                assert(r[i] == m[i]);
            } else if exists|i: int| 0 <= i < m.len() && m[i].name@ == p.name@ {
                let i = choose|i: int| 0 <= i < m.len() && m[i].name@ == p.name@;
                assert(r[i] == m[i]);
            } else {
                assert(r[m.len() as int] == p);
            }
        }
        assert forall|i: int| 0 <= i < r.len() implies into.contains(#[trigger] r[i]) || from.contains(r[i]) by {
            if i < m.len() {
                assert(r[i] == m[i]);
                if f0.contains(m[i]) {
                    let k = choose|k: int| 0 <= k < f0.len() && f0[k] == m[i];
                    assert(from[k] == f0[k]);
                }
            } else {
                assert(from[from.len() - 1] == p);
            }
        }
        if names_unique(into) {
            assert forall|i: int, j: int| 0 <= i < r.len() && 0 <= j < r.len() && i != j implies (#[trigger] r[i]).name@ != (#[trigger] r[j]).name@ by {
                if i < m.len() && j < m.len() {
                    assert(r[i] == m[i] && r[j] == m[j]);
                } else if i < m.len() {
                    assert(r[i] == m[i]);
                } else {
                    assert(r[j] == m[j]);
                }
            }
        }
    }
}

/// A copy of a property.
pub fn copy_prop(p: &PropDoc) -> (r: PropDoc)
    ensures
        r == *p,
{
    PropDoc {
        name: p.name.clone(),
        type_text: match &p.type_text {
            Some(t) => Some(t.clone()),
            None => None,
        },
        optional: p.optional,
    }
}

/// Append the properties of `from` that are not already present by name:
/// an own or nearer property shadows an inherited one.
pub fn merge_props(into: &mut Vec<PropDoc>, from: &[PropDoc])
    ensures
        final(into)@ == merged(old(into)@, from@),
{
    let ghost i0 = into@;
    let mut k: usize = 0;
    while k < from.len()
        invariant
            k <= from@.len(),
            into@ == merged(i0, from@.take(k as int)),
        decreases from@.len() - k,
    {
        assert(from@.take(k + 1).drop_last() =~= from@.take(k as int));
        assert(from@.take(k + 1).last() == from@[k as int]);
        let mut present = false;
        let mut j: usize = 0;
        while j < into.len()
            invariant
                k < from@.len(),
                j <= into@.len(),
                present ==> exists|m: int| 0 <= m < into@.len() && into@[m].name@ == from@[k as int].name@,
                !present ==> forall|m: int| 0 <= m < j ==> into@[m].name@ != from@[k as int].name@,
            decreases into@.len() - j,
        {
            if str_eq(into[j].name.as_str(), from[k].name.as_str()) {
                present = true;
            }
            j = j + 1;
        }
        if !present {
            into.push(copy_prop(&from[k]));
        }
        k = k + 1;
    }
    assert(from@.take(from@.len() as int) =~= from@);
}

// ---------------------------------------------------------------------------
// Following the extends chain
// ---------------------------------------------------------------------------

/// Every interface a module declares, and its named imports as
/// `(local name, module specifier)`.
#[derive(Debug, Clone)]
pub struct ParsedModule {
    pub interfaces: Vec<ConfigInterface>,
    pub imports: Vec<(String, String)>,
}

/// The index of the first interface at or after `i` named `name`, or -1.
pub open spec fn iface_from(ifaces: Seq<ConfigInterface>, name: Seq<char>, i: int) -> int
    decreases ifaces.len() - i,
{
    if i < 0 || i >= ifaces.len() {
        -1
    } else if ifaces[i].name@ == name {
        i
    } else {
        iface_from(ifaces, name, i + 1)
    }
}

/// The index of the first interface named `name`, or -1.
pub open spec fn iface_index(ifaces: Seq<ConfigInterface>, name: Seq<char>) -> int {
    iface_from(ifaces, name, 0)
}

/// The index of the first import at or after `i` binding `name`, or -1.
pub open spec fn import_from(imports: Seq<(String, String)>, name: Seq<char>, i: int) -> int
    decreases imports.len() - i,
{
    if i < 0 || i >= imports.len() {
        -1
    } else if imports[i].0@ == name {
        i
    } else {
        import_from(imports, name, i + 1)
    }
}

/// The index of the first import binding `name`, or -1.
pub open spec fn import_index(imports: Seq<(String, String)>, name: Seq<char>) -> int {
    import_from(imports, name, 0)
}

/// The index of the first interface at or after `i` whose name ends in
/// `Config`, or -1.
pub open spec fn primary_from(ifaces: Seq<ConfigInterface>, i: int) -> int
    decreases ifaces.len() - i,
{
    if i < 0 || i >= ifaces.len() {
        -1
    } else if ends_with(ifaces[i].name@, "Config"@) {
        i
    } else {
        primary_from(ifaces, i + 1)
    }
}

/// The index of a module's `Config` interface (the first whose name ends in
/// `Config`), or -1.
pub open spec fn primary_index(ifaces: Seq<ConfigInterface>) -> int {
    primary_from(ifaces, 0)
}

proof fn lemma_iface_from(ifaces: Seq<ConfigInterface>, name: Seq<char>, i: int)
    requires
        0 <= i,
    ensures
        iface_from(ifaces, name, i) == -1 || (i <= iface_from(ifaces, name, i) < ifaces.len()
            && ifaces[iface_from(ifaces, name, i)].name@ == name),
    decreases ifaces.len() - i,
{
    if i < ifaces.len() && ifaces[i].name@ != name {
        lemma_iface_from(ifaces, name, i + 1);
    }
}

proof fn lemma_import_from(imports: Seq<(String, String)>, name: Seq<char>, i: int)
    requires
        0 <= i,
    ensures
        import_from(imports, name, i) == -1 || (i <= import_from(imports, name, i) < imports.len()
            && imports[import_from(imports, name, i)].0@ == name),
    decreases imports.len() - i,
{
    if i < imports.len() && imports[i].0@ != name {
        lemma_import_from(imports, name, i + 1);
    }
}

proof fn lemma_primary_from(ifaces: Seq<ConfigInterface>, i: int)
    requires
        0 <= i,
    ensures
        primary_from(ifaces, i) == -1 || i <= primary_from(ifaces, i) < ifaces.len(),
    decreases ifaces.len() - i,
{
    if i < ifaces.len() && !ends_with(ifaces[i].name@, "Config"@) {
        lemma_primary_from(ifaces, i + 1);
    }
}

fn find_iface(ifaces: &Vec<ConfigInterface>, name: &str) -> (r: Option<usize>)
    ensures
        match r {
            Some(i) => i == iface_index(ifaces@, name@) && i < ifaces@.len(),
            None => iface_index(ifaces@, name@) == -1,
        },
{
    proof {
        lemma_iface_from(ifaces@, name@, 0);
    }
    let mut i: usize = 0;
    while i < ifaces.len()
        invariant
            i <= ifaces@.len(),
            iface_index(ifaces@, name@) == iface_from(ifaces@, name@, i as int),
        decreases ifaces@.len() - i,
    {
        if str_eq(ifaces[i].name.as_str(), name) {
            return Some(i);
        }
        i = i + 1;
    }
    None
}

fn find_import(imports: &Vec<(String, String)>, name: &str) -> (r: Option<usize>)
    ensures
        match r {
            Some(i) => i == import_index(imports@, name@) && i < imports@.len(),
            None => import_index(imports@, name@) == -1,
        },
{
    let mut i: usize = 0;
    while i < imports.len()
        invariant
            i <= imports@.len(),
            import_index(imports@, name@) == import_from(imports@, name@, i as int),
        decreases imports@.len() - i,
    {
        if str_eq(imports[i].0.as_str(), name) {
            return Some(i);
        }
        i = i + 1;
    }
    None
}

fn find_primary(ifaces: &Vec<ConfigInterface>) -> (r: Option<usize>)
    ensures
        match r {
            Some(i) => i == primary_index(ifaces@) && i < ifaces@.len(),
            None => primary_index(ifaces@) == -1,
        },
{
    proof {
        lemma_primary_from(ifaces@, 0);
    }
    let mut i: usize = 0;
    while i < ifaces.len()
        invariant
            i <= ifaces@.len(),
            primary_index(ifaces@) == primary_from(ifaces@, i as int),
        decreases ifaces@.len() - i,
    {
        if str_ends_with(ifaces[i].name.as_str(), "Config") {
            return Some(i);
        }
        i = i + 1;
    }
    None
}

proof fn lemma_push_fresh(v: Seq<Seq<char>>, x: Seq<char>)
    requires
        v.no_duplicates(),
        !v.contains(x),
    ensures
        v.push(x).no_duplicates(),
{
    let w = v.push(x);
    assert forall|a: int, b: int| 0 <= a < w.len() && 0 <= b < w.len() && a != b implies w[a] != w[b] by {
        if a < v.len() && b < v.len() {
            assert(w[a] == v[a] && w[b] == v[b]);
        } else if a < v.len() {
            assert(w[a] == v[a]);
            assert(v.contains(v[a]));
        } else {
            assert(w[b] == v[b]);
            assert(v.contains(v[b]));
        }
    }
}

proof fn lemma_push_subset(u: Seq<Seq<char>>, v: Seq<Seq<char>>, x: Seq<char>)
    requires
        forall|y: Seq<char>| #[trigger] u.contains(y) ==> v.contains(y),
        v.contains(x),
    ensures
        forall|y: Seq<char>| #[trigger] u.push(x).contains(y) ==> v.contains(y),
{
    assert forall|y: Seq<char>| #[trigger] u.push(x).contains(y) implies v.contains(y) by {
        if y != x {
            let k = choose|k: int| 0 <= k < u.push(x).len() && u.push(x)[k] == y;
            assert(u[k] == y);
            assert(u.contains(y));
        }
    }
}

/// A copy of each property, in order.
fn copy_props(v: &Vec<PropDoc>) -> (r: Vec<PropDoc>)
    ensures
        r@ == v@,
{
    let mut r: Vec<PropDoc> = Vec::new();
    let mut i: usize = 0;
    while i < v.len()
        invariant
            i <= v@.len(),
            r@ == v@.take(i as int),
        decreases v@.len() - i,
    {
        r.push(copy_prop(&v[i]));
        assert(r@ =~= v@.take(i + 1));
        i = i + 1;
    }
    assert(v@.take(v@.len() as int) =~= v@);
    r
}

/// A base whose module must be read before it can be resolved: where its
/// own extends will stand in the chain, and which module imports it from
/// where.
struct PendingLoad {
    base: String,
    depth: usize,
    from: usize,
    specifier: String,
}

/// The bases of one interface still to be resolved, the module that names
/// them, and their depth in the chain.
struct Frame {
    bases: Vec<String>,
    next: usize,
    module: usize,
    depth: usize,
}

/// What the resolver asks for next.
#[derive(Debug)]
pub enum ResolveStep {
    /// One base was decided, or a finished list of bases left: step again.
    Continue,
    /// The module numbered `from` imports the next base from `specifier`:
    /// read and parse that module and hand it to `loaded`, or hand over
    /// nothing when it cannot be found or read.
    Load { from: usize, specifier: String },
    /// The chain is resolved.
    Done,
}

/// Follows a `Config` interface's extends chain, depth first and in
/// declaration order, across the modules it is handed. Modules are numbered
/// in the order they are handed over, the one declaring the `Config`
/// interface first. A base declared in the same module is merged and
/// followed in place; an imported one is merged and followed once its module
/// is read; any other is named as unresolved. A base is visited once, and
/// the chain is not followed deeper than `MAX_EXTENDS_DEPTH`.
pub struct ExtendsResolver {
    name: String,
    props: Vec<PropDoc>,
    unresolved: Vec<String>,
    visited: Vec<String>,
    modules: Vec<ParsedModule>,
    stack: Vec<Frame>,
    pending: Option<PendingLoad>,
}

impl ExtendsResolver {
    /// Every pending list of bases names a module already read; a base is
    /// visited once and named unresolved at most once, only after it was
    /// visited; a base waiting for its module is visited and not unresolved.
    #[verifier::type_invariant]
    pub closed spec fn consistent(self) -> bool {
        &&& forall|k: int| 0 <= k < self.stack@.len() ==> (#[trigger] self.stack@[k]).module < self.modules@.len()
        &&& views(self.visited@).no_duplicates()
        &&& views(self.unresolved@).no_duplicates()
        &&& forall|x: Seq<char>| #[trigger] views(self.unresolved@).contains(x) ==> views(self.visited@).contains(x)
        &&& match self.pending {
            Some(p) => p.from < self.modules@.len() && views(self.visited@).contains(p.base@) && !views(
                self.unresolved@,
            ).contains(p.base@),
            None => true,
        }
    }

    /// The `Config` interface's name.
    pub closed spec fn name_view(self) -> Seq<char> {
        self.name@
    }

    /// The properties gathered so far: own ones first, then inherited ones.
    pub closed spec fn props_seq(self) -> Seq<PropDoc> {
        self.props@
    }

    /// The bases named as unresolved so far, in order.
    pub closed spec fn unresolved_seq(self) -> Seq<Seq<char>> {
        views(self.unresolved@)
    }

    /// The interfaces visited so far, in order, the `Config` one first.
    pub closed spec fn visited_seq(self) -> Seq<Seq<char>> {
        views(self.visited@)
    }

    /// The modules handed over so far, by number.
    pub closed spec fn modules_seq(self) -> Seq<ParsedModule> {
        self.modules@
    }

    /// The pending lists of bases, innermost last: each as its bases, the
    /// index of the next one, its module's number and its depth.
    pub closed spec fn frames(self) -> Seq<(Seq<Seq<char>>, int, int, int)> {
        self.stack@.map_values(|f: Frame| (views(f.bases@), f.next as int, f.module as int, f.depth as int))
    }

    /// The base waiting for its module, as the base, the depth its extends
    /// will stand at, the importing module's number and the specifier.
    pub closed spec fn pending_view(self) -> Option<(Seq<char>, int, int, Seq<char>)> {
        match self.pending {
            Some(p) => Some((p.base@, p.depth as int, p.from as int, p.specifier@)),
            None => None,
        }
    }
}

/// The resolver state `t` and request `r` after one step from `s`.
pub open spec fn stepped(s: ExtendsResolver, t: ExtendsResolver, r: ResolveStep) -> bool {
    let fs = s.frames();
    &&& t.name_view() == s.name_view()
    &&& t.modules_seq() == s.modules_seq()
    &&& match s.pending_view() {
        Some(p) => {
            &&& r matches ResolveStep::Load { from, specifier } && from == p.2 && specifier@ == p.3
            &&& t.frames() == fs
            &&& t.props_seq() == s.props_seq()
            &&& t.unresolved_seq() == s.unresolved_seq()
            &&& t.visited_seq() == s.visited_seq()
            &&& t.pending_view() == s.pending_view()
        },
        None => if fs.len() == 0 {
            &&& r is Done
            &&& t.frames() == fs
            &&& t.props_seq() == s.props_seq()
            &&& t.unresolved_seq() == s.unresolved_seq()
            &&& t.visited_seq() == s.visited_seq()
            &&& t.pending_view() is None
        } else {
            let f = fs.last();
            if f.3 > MAX_EXTENDS_DEPTH || f.1 >= f.0.len() {
                &&& r is Continue
                &&& t.frames() == fs.drop_last()
                &&& t.props_seq() == s.props_seq()
                &&& t.unresolved_seq() == s.unresolved_seq()
                &&& t.visited_seq() == s.visited_seq()
                &&& t.pending_view() is None
            } else {
                let base = f.0[f.1];
                let adv = fs.drop_last().push((f.0, f.1 + 1, f.2, f.3));
                let m = s.modules_seq()[f.2];
                let li = iface_index(m.interfaces@, base);
                let ii = import_index(m.imports@, base);
                if s.visited_seq().contains(base) {
                    &&& r is Continue
                    &&& t.frames() == adv
                    &&& t.props_seq() == s.props_seq()
                    &&& t.unresolved_seq() == s.unresolved_seq()
                    &&& t.visited_seq() == s.visited_seq()
                    &&& t.pending_view() is None
                } else if li >= 0 {
                    &&& r is Continue
                    &&& t.visited_seq() == s.visited_seq().push(base)
                    &&& t.props_seq() == merged(s.props_seq(), m.interfaces@[li].own_props@)
                    &&& t.frames() == adv.push((views(m.interfaces@[li].extends@), 0, f.2, f.3 + 1))
                    &&& t.unresolved_seq() == s.unresolved_seq()
                    &&& t.pending_view() is None
                } else if ii >= 0 {
                    &&& r matches ResolveStep::Load { from, specifier } && from == f.2 && specifier@
                        == m.imports@[ii].1@
                    &&& t.visited_seq() == s.visited_seq().push(base)
                    &&& t.props_seq() == s.props_seq()
                    &&& t.frames() == adv
                    &&& t.unresolved_seq() == s.unresolved_seq()
                    &&& t.pending_view() == Some((base, f.3 + 1, f.2, m.imports@[ii].1@))
                } else {
                    &&& r is Continue
                    &&& t.visited_seq() == s.visited_seq().push(base)
                    &&& t.props_seq() == s.props_seq()
                    &&& t.frames() == adv
                    &&& t.unresolved_seq() == s.unresolved_seq().push(base)
                    &&& t.pending_view() is None
                }
            }
        },
    }
}

/// The resolver state `t` after `s` is handed `module` for the base it
/// waits on.
pub open spec fn after_load(s: ExtendsResolver, t: ExtendsResolver, module: Option<ParsedModule>) -> bool {
    &&& t.name_view() == s.name_view()
    &&& t.visited_seq() == s.visited_seq()
    &&& t.pending_view() is None
    &&& match s.pending_view() {
        None => {
            &&& t.modules_seq() == s.modules_seq()
            &&& t.frames() == s.frames()
            &&& t.props_seq() == s.props_seq()
            &&& t.unresolved_seq() == s.unresolved_seq()
        },
        Some(p) => match module {
            None => {
                &&& t.modules_seq() == s.modules_seq()
                &&& t.frames() == s.frames()
                &&& t.props_seq() == s.props_seq()
                &&& t.unresolved_seq() == s.unresolved_seq().push(p.0)
            },
            Some(m) => {
                let li = iface_index(m.interfaces@, p.0);
                &&& t.modules_seq() == s.modules_seq().push(m)
                &&& if li >= 0 {
                    &&& t.props_seq() == merged(s.props_seq(), m.interfaces@[li].own_props@)
                    &&& t.frames() == s.frames().push(
                        (views(m.interfaces@[li].extends@), 0, s.modules_seq().len() as int, p.1),
                    )
                    &&& t.unresolved_seq() == s.unresolved_seq()
                } else {
                    &&& t.props_seq() == s.props_seq()
                    &&& t.frames() == s.frames()
                    &&& t.unresolved_seq() == s.unresolved_seq().push(p.0)
                }
            },
        },
    }
}

impl ExtendsResolver {
    /// A resolver for the `Config` interface of `module` (the first of its
    /// interfaces whose name ends in `Config`), holding that interface's own
    /// properties and its bases to follow at depth one; `None` when the
    /// module declares no such interface.
    pub fn start(module: ParsedModule) -> (r: Option<ExtendsResolver>)
        ensures
            r is None <==> primary_index(module.interfaces@) == -1,
            r matches Some(z) ==> {
                let p = module.interfaces@[primary_index(module.interfaces@)];
                &&& z.name_view() == p.name@
                &&& z.props_seq() == p.own_props@
                &&& z.unresolved_seq() == Seq::<Seq<char>>::empty()
                &&& z.visited_seq() == seq![p.name@]
                &&& z.modules_seq() == seq![module]
                &&& z.frames() == seq![(views(p.extends@), 0int, 0int, 1int)]
                &&& z.pending_view() is None
            },
    {
        let i = match find_primary(&module.interfaces) {
            Some(i) => i,
            None => {
                return None;
            },
        };
        let name = module.interfaces[i].name.clone();
        let props = copy_props(&module.interfaces[i].own_props);
        let bases = copy_strings(&module.interfaces[i].extends);
        let ghost p = module.interfaces@[i as int];
        let mut visited: Vec<String> = Vec::new();
        visited.push(name.clone());
        let mut modules: Vec<ParsedModule> = Vec::new();
        modules.push(module);
        let mut stack: Vec<Frame> = Vec::new();
        stack.push(Frame { bases, next: 0, module: 0, depth: 1 });
        let ghost u: Seq<String> = seq![];
        assert(views(u) =~= Seq::<Seq<char>>::empty());
        assert(views(visited@) =~= seq![p.name@]);
        let r = ExtendsResolver { name, props, unresolved: Vec::new(), visited, modules, stack, pending: None };
        assert(r.frames() =~= seq![(views(p.extends@), 0int, 0int, 1int)]);
        assert(r.unresolved_seq() =~= Seq::<Seq<char>>::empty());
        Some(r)
    }

    /// A resolver holding nothing: no name, properties, bases, modules or
    /// pending lists, and no base waiting for its module.
    fn empty() -> (r: ExtendsResolver)
        ensures
            r.name_view() == Seq::<char>::empty(),
            r.props_seq() == Seq::<PropDoc>::empty(),
            r.unresolved_seq() == Seq::<Seq<char>>::empty(),
            r.visited_seq() == Seq::<Seq<char>>::empty(),
            r.modules_seq() == Seq::<ParsedModule>::empty(),
            r.frames() == Seq::<(Seq<Seq<char>>, int, int, int)>::empty(),
            r.pending_view() is None,
            r.pending is None,
    {
        let r = ExtendsResolver {
            name: String::new(),
            props: Vec::new(),
            unresolved: Vec::new(),
            visited: Vec::new(),
            modules: Vec::new(),
            stack: Vec::new(),
            pending: None,
        };
        assert(r.unresolved_seq() =~= Seq::<Seq<char>>::empty());
        assert(r.visited_seq() =~= Seq::<Seq<char>>::empty());
        assert(r.frames() =~= Seq::<(Seq<Seq<char>>, int, int, int)>::empty());
        r
    }

    /// One decision: while a base waits for its module, the request for
    /// that module again; otherwise the next base of the innermost pending
    /// list is visited (unless it already was), merged and followed in
    /// place, asked for by its import, or named as unresolved; a list that
    /// is done, or deeper than `MAX_EXTENDS_DEPTH`, is dropped; nothing
    /// pending means the chain is resolved.
    pub fn step(&mut self) -> (r: ResolveStep)
        ensures
            stepped(*old(self), *final(self), r),
    {
        let mut s = ExtendsResolver::empty();
        std::mem::swap(&mut s, self);
        let (t, r) = Self::advance(s);
        *self = t;
        r
    }

    /// Hands over the module read for the base waiting on it, or nothing
    /// when it could not be found or read: the base is merged and followed
    /// in that module when the module declares it, and named as unresolved
    /// otherwise. With no base waiting, nothing changes.
    pub fn loaded(&mut self, module: Option<ParsedModule>)
        ensures
            after_load(*old(self), *final(self), module),
    {
        let mut s = ExtendsResolver::empty();
        std::mem::swap(&mut s, self);
        *self = Self::take_module(s, module);
    }

    fn advance(s: ExtendsResolver) -> (r: (ExtendsResolver, ResolveStep))
        ensures
            stepped(s, r.0, r.1),
    {
        proof {
            use_type_invariant(&s);
        }
        let ghost fs = s.frames();
        let ExtendsResolver { name, mut props, mut unresolved, mut visited, modules, mut stack, pending } = s;
        if let Some(p) = &pending {
            let r = ResolveStep::Load { from: p.from, specifier: p.specifier.clone() };
            return (ExtendsResolver { name, props, unresolved, visited, modules, stack, pending }, r);
        }
        let n = stack.len();
        if n == 0 {
            return (ExtendsResolver { name, props, unresolved, visited, modules, stack, pending }, ResolveStep::Done);
        }
        assert(stack@[n - 1].module < modules@.len());
        let mut f = stack.pop().unwrap();
        let ghost st0 = stack@;
        if f.depth > MAX_EXTENDS_DEPTH || f.next >= f.bases.len() {
            let t = ExtendsResolver { name, props, unresolved, visited, modules, stack, pending };
            assert(t.frames() =~= fs.drop_last());
            return (t, ResolveStep::Continue);
        }
        let base = f.bases[f.next].clone();
        f.next = f.next + 1;
        let module = f.module;
        let depth = f.depth;
        stack.push(f);
        assert forall|k: int| 0 <= k < stack@.len() implies (#[trigger] stack@[k]).module < modules@.len() by {
            if k < st0.len() {
                assert(stack@[k] == s.stack@[k]);
            }
        }
        let ghost adv = fs.drop_last().push((fs.last().0, fs.last().1 + 1, fs.last().2, fs.last().3));
        if contains_string(&visited, base.as_str()) {
            let t = ExtendsResolver { name, props, unresolved, visited, modules, stack, pending };
            assert(t.frames() =~= adv);
            return (t, ResolveStep::Continue);
        }
        let ghost v0 = views(visited@);
        assert(!views(unresolved@).contains(base@));
        visited.push(base.clone());
        assert(views(visited@) =~= v0.push(base@));
        proof {
            lemma_push_fresh(v0, base@);
        }
        assert forall|x: Seq<char>| #[trigger] views(unresolved@).contains(x) implies views(visited@).contains(x) by {
            assert(v0.contains(x));
            let k = choose|k: int| 0 <= k < v0.len() && v0[k] == x;
            assert(views(visited@)[k] == x);
        }
        match find_iface(&modules[module].interfaces, base.as_str()) {
            Some(i) => {
                merge_props(&mut props, modules[module].interfaces[i].own_props.as_slice());
                let ext = copy_strings(&modules[module].interfaces[i].extends);
                let ghost sk = stack@;
                stack.push(Frame { bases: ext, next: 0, module, depth: depth + 1 });
                assert forall|k: int| 0 <= k < stack@.len() implies (#[trigger] stack@[k]).module < modules@.len() by {
                    if k < sk.len() {
                        assert(stack@[k] == sk[k]);
                    }
                }
                let t = ExtendsResolver { name, props, unresolved, visited, modules, stack, pending };
                assert(t.frames() =~= adv.push((views(ext@), 0, module as int, depth + 1)));
                (t, ResolveStep::Continue)
            },
            None => match find_import(&modules[module].imports, base.as_str()) {
                Some(j) => {
                    let specifier = modules[module].imports[j].1.clone();
                    assert(views(visited@)[v0.len() as int] == base@);
                    let pending = Some(
                        PendingLoad { base, depth: depth + 1, from: module, specifier: specifier.clone() },
                    );
                    let t = ExtendsResolver { name, props, unresolved, visited, modules, stack, pending };
                    assert(t.frames() =~= adv);
                    (t, ResolveStep::Load { from: module, specifier })
                },
                None => {
                    let ghost u0 = views(unresolved@);
                    assert(views(visited@)[v0.len() as int] == base@);
                    unresolved.push(base);
                    assert(views(unresolved@) =~= u0.push(base@));
                    assert forall|x: Seq<char>| #[trigger] views(unresolved@).contains(x) implies views(
                        visited@,
                    ).contains(x) by {
                        if x != base@ {
                            let k = choose|k: int| 0 <= k < views(unresolved@).len() && views(unresolved@)[k] == x;
                            assert(u0[k] == x);
                            assert(u0.contains(x));
                        }
                    }
                    proof {
                        lemma_push_fresh(u0, base@);
                    }
                    let t = ExtendsResolver { name, props, unresolved, visited, modules, stack, pending };
                    assert(t.frames() =~= adv);
                    (t, ResolveStep::Continue)
                },
            },
        }
    }

    fn take_module(s: ExtendsResolver, module: Option<ParsedModule>) -> (t: ExtendsResolver)
        ensures
            after_load(s, t, module),
    {
        proof {
            use_type_invariant(&s);
        }
        let ghost fs = s.frames();
        let ExtendsResolver { name, mut props, mut unresolved, visited, mut modules, mut stack, pending } = s;
        let p = match pending {
            Some(p) => p,
            None => {
                return ExtendsResolver { name, props, unresolved, visited, modules, stack, pending: None };
            },
        };
        let ghost u0 = views(unresolved@);
        match module {
            None => {
                unresolved.push(p.base);
                assert(views(unresolved@) =~= u0.push(p.base@));
                proof {
                    lemma_push_subset(u0, views(visited@), p.base@);
                }
                proof {
                    lemma_push_fresh(u0, p.base@);
                }
                ExtendsResolver { name, props, unresolved, visited, modules, stack, pending: None }
            },
            Some(m) => match find_iface(&m.interfaces, p.base.as_str()) {
                Some(i) => {
                    merge_props(&mut props, m.interfaces[i].own_props.as_slice());
                    let ext = copy_strings(&m.interfaces[i].extends);
                    let id = modules.len();
                    let ghost sk = stack@;
                    modules.push(m);
                    stack.push(Frame { bases: ext, next: 0, module: id, depth: p.depth });
                    assert forall|k: int| 0 <= k < stack@.len() implies (#[trigger] stack@[k]).module < modules@.len() by {
                        if k < sk.len() {
                            assert(stack@[k] == sk[k]);
                        }
                    }
                    let t = ExtendsResolver { name, props, unresolved, visited, modules, stack, pending: None };
                    assert(t.frames() =~= fs.push((views(ext@), 0, id as int, p.depth as int)));
                    t
                },
                None => {
                    let ghost sk = stack@;
                    modules.push(m);
                    unresolved.push(p.base);
                    assert(views(unresolved@) =~= u0.push(p.base@));
                    proof {
                        lemma_push_subset(u0, views(visited@), p.base@);
                    }
                    assert forall|k: int| 0 <= k < stack@.len() implies (#[trigger] stack@[k]).module < modules@.len() by {
                        assert(stack@[k] == sk[k]);
                    }
                    proof {
                        lemma_push_fresh(u0, p.base@);
                    }
                    let t = ExtendsResolver { name, props, unresolved, visited, modules, stack, pending: None };
                    assert(t.frames() =~= fs);
                    t
                },
            },
        }
    }

    /// The resolved surface: the interface's name, the gathered properties
    /// and the bases named as unresolved.
    pub fn finish(self) -> (r: ResolvedConfig)
        ensures
            r.name@ == self.name_view(),
            r.props@ == self.props_seq(),
            views(r.unresolved_extends@) == self.unresolved_seq(),
    {
        ResolvedConfig { name: self.name, props: self.props, unresolved_extends: self.unresolved }
    }
}

/// A resolver never visits an interface twice, names a base as unresolved
/// at most once, and only one it visited.
pub proof fn lemma_resolver_consistent(s: ExtendsResolver)
    requires
        s.consistent(),
    ensures
        s.visited_seq().no_duplicates(),
        s.unresolved_seq().no_duplicates(),
        forall|x: Seq<char>| #[trigger] s.unresolved_seq().contains(x) ==> s.visited_seq().contains(x),
{
}

/// A step keeps what was gathered: the properties already there stay, in
/// place, so own properties come first and a nearer property shadows an
/// inherited one; names stay unique; visited and unresolved bases only
/// grow; the modules read stay.
pub proof fn lemma_step_keeps(s: ExtendsResolver, t: ExtendsResolver, r: ResolveStep)
    requires
        stepped(s, t, r),
    ensures
        s.props_seq().is_prefix_of(t.props_seq()),
        names_unique(s.props_seq()) ==> names_unique(t.props_seq()),
        s.visited_seq().is_prefix_of(t.visited_seq()),
        s.unresolved_seq().is_prefix_of(t.unresolved_seq()),
        t.modules_seq() == s.modules_seq(),
        t.name_view() == s.name_view(),
{
    let fs = s.frames();
    if s.pending_view() is None && fs.len() > 0 {
        let f = fs.last();
        if !(f.3 > MAX_EXTENDS_DEPTH || f.1 >= f.0.len()) {
            let base = f.0[f.1];
            let m = s.modules_seq()[f.2];
            let li = iface_index(m.interfaces@, base);
            if !s.visited_seq().contains(base) && li >= 0 {
                lemma_merged(s.props_seq(), m.interfaces@[li].own_props@);
            }
        }
    }
    lemma_prefix_push(s.visited_seq());
    lemma_prefix_push(s.unresolved_seq());
    assert(s.props_seq().is_prefix_of(s.props_seq()));
}

proof fn lemma_prefix_push(v: Seq<Seq<char>>)
    ensures
        v.is_prefix_of(v),
        forall|x: Seq<char>| v.is_prefix_of(#[trigger] v.push(x)),
{
    assert forall|x: Seq<char>| v.is_prefix_of(#[trigger] v.push(x)) by {
        assert(v.push(x).subrange(0, v.len() as int) =~= v);
    }
    assert(v.subrange(0, v.len() as int) =~= v);
}

/// Handing over a module keeps what was gathered in the same way as a
/// step, and keeps the modules already read under their numbers.
pub proof fn lemma_load_keeps(s: ExtendsResolver, t: ExtendsResolver, module: Option<ParsedModule>)
    requires
        after_load(s, t, module),
    ensures
        s.props_seq().is_prefix_of(t.props_seq()),
        names_unique(s.props_seq()) ==> names_unique(t.props_seq()),
        t.visited_seq() == s.visited_seq(),
        s.unresolved_seq().is_prefix_of(t.unresolved_seq()),
        s.modules_seq().is_prefix_of(t.modules_seq()),
        t.name_view() == s.name_view(),
{
    if let Some(p) = s.pending_view() {
        if let Some(m) = module {
            let li = iface_index(m.interfaces@, p.0);
            if li >= 0 {
                lemma_merged(s.props_seq(), m.interfaces@[li].own_props@);
            }
            assert(s.modules_seq().is_prefix_of(s.modules_seq().push(m))) by {
                assert(s.modules_seq().push(m).subrange(0, s.modules_seq().len() as int) =~= s.modules_seq());
            }
        }
    }
    lemma_prefix_push(s.unresolved_seq());
    assert(s.props_seq().is_prefix_of(s.props_seq()));
    assert(s.modules_seq().is_prefix_of(s.modules_seq())) by {
        assert(s.modules_seq().subrange(0, s.modules_seq().len() as int) =~= s.modules_seq());
    }
}

// ---------------------------------------------------------------------------
// Reading interfaces and imports
// ---------------------------------------------------------------------------

/// A property as plain values: name, type text, optional.
pub open spec fn prop_doc_view(p: PropDoc) -> (Seq<char>, Option<Seq<char>>, bool) {
    (p.name@, match p.type_text {
        Some(t) => Some(t@),
        None => None,
    }, p.optional)
}

pub open spec fn prop_doc_views(ps: Seq<PropDoc>) -> Seq<(Seq<char>, Option<Seq<char>>, bool)> {
    ps.map_values(|p: PropDoc| prop_doc_view(p))
}

/// `p` appended unless a property of its name is already there.
pub open spec fn add_prop(ps: Seq<(Seq<char>, Option<Seq<char>>, bool)>, p: (Seq<char>, Option<Seq<char>>, bool)) -> Seq<
    (Seq<char>, Option<Seq<char>>, bool),
> {
    if exists|i: int| 0 <= i < ps.len() && ps[i].0 == p.0 {
        ps
    } else {
        ps.push(p)
    }
}

/// The properties an interface's property signatures declare: each named
/// key once (the first declaration wins), its type text with white space
/// normalized, and whether it is optional.
pub open spec fn member_props(ms: Seq<Option<TsPropSig>>) -> Seq<(Seq<char>, Option<Seq<char>>, bool)>
    decreases ms.len(),
{
    if ms.len() == 0 {
        seq![]
    } else {
        let rest = member_props(ms.drop_last());
        match ms.last() {
            Some(sig) => match key_name(sig.key) {
                Some(n) => add_prop(rest, (n, match sig.type_text {
                    Some(t) => Some(crate::text::normalize_ws(t@)),
                    None => None,
                }, sig.optional)),
                None => rest,
            },
            None => rest,
        }
    }
}

/// The plain-identifier names of an interface's heritage, in order.
pub open spec fn heritage_names(hs: Seq<Option<String>>) -> Seq<Seq<char>>
    decreases hs.len(),
{
    if hs.len() == 0 {
        seq![]
    } else {
        match hs.last() {
            Some(n) => heritage_names(hs.drop_last()).push(n@),
            None => heritage_names(hs.drop_last()),
        }
    }
}

/// A `Config` interface as plain values: name, own properties, bases.
pub open spec fn config_view(c: ConfigInterface) -> (Seq<char>, Seq<(Seq<char>, Option<Seq<char>>, bool)>, Seq<Seq<char>>) {
    (c.name@, prop_doc_views(c.own_props@), views(c.extends@))
}

/// What a parsed interface declares, as a `Config` interface's values.
pub open spec fn interface_view(i: TsInterface) -> (Seq<char>, Seq<(Seq<char>, Option<Seq<char>>, bool)>, Seq<Seq<char>>) {
    (i.name@, member_props(i.members@), heritage_names(i.extends@))
}

fn has_prop_named(ps: &Vec<PropDoc>, name: &str) -> (b: bool)
    ensures
        b == exists|i: int| 0 <= i < ps@.len() && prop_doc_views(ps@)[i].0 == name@,
{
    let mut i: usize = 0;
    while i < ps.len()
        invariant
            i <= ps@.len(),
            forall|k: int| 0 <= k < i ==> prop_doc_views(ps@)[k].0 != name@,
        decreases ps@.len() - i,
    {
        if str_eq(ps[i].name.as_str(), name) {
            assert(prop_doc_views(ps@)[i as int].0 == name@);
            return true;
        }
        i = i + 1;
    }
    false
}

/// Adds `p` unless a property of its name is already there.
pub fn add_prop_doc(ps: &mut Vec<PropDoc>, p: PropDoc)
    ensures
        prop_doc_views(final(ps)@) == add_prop(prop_doc_views(old(ps)@), prop_doc_view(p)),
{
    if !has_prop_named(ps, p.name.as_str()) {
        let ghost before = prop_doc_views(ps@);
        ps.push(p);
        assert(prop_doc_views(ps@) =~= before.push(prop_doc_view(p)));
    }
}

/// The properties an interface's members declare (see `member_props`).
pub fn interface_props(ms: &Vec<Option<TsPropSig>>) -> (r: Vec<PropDoc>)
    ensures
        prop_doc_views(r@) == member_props(ms@),
{
    let mut r: Vec<PropDoc> = Vec::new();
    assert(prop_doc_views(r@) =~= seq![]);
    let mut i: usize = 0;
    while i < ms.len()
        invariant
            i <= ms@.len(),
            prop_doc_views(r@) == member_props(ms@.take(i as int)),
        decreases ms@.len() - i,
    {
        assert(ms@.take(i + 1).drop_last() =~= ms@.take(i as int));
        if let Some(sig) = &ms[i] {
            if let Some(n) = key_name_exec(&sig.key) {
                let type_text = match &sig.type_text {
                    Some(t) => Some(crate::text::normalize_whitespace(t.as_str())),
                    None => None,
                };
                add_prop_doc(&mut r, PropDoc { name: n, type_text, optional: sig.optional });
            }
        }
        i = i + 1;
    }
    assert(ms@.take(ms@.len() as int) =~= ms@);
    r
}

/// The `Config` interface a parsed interface declares.
pub fn config_of(i: &TsInterface) -> (r: ConfigInterface)
    ensures
        config_view(r) == interface_view(*i),
{
    let mut extends: Vec<String> = Vec::new();
    let mut k: usize = 0;
    while k < i.extends.len()
        invariant
            k <= i.extends@.len(),
            views(extends@) == heritage_names(i.extends@.take(k as int)),
        decreases i.extends@.len() - k,
    {
        assert(i.extends@.take(k + 1).drop_last() =~= i.extends@.take(k as int));
        if let Some(n) = &i.extends[k] {
            let ghost before = views(extends@);
            extends.push(n.clone());
            assert(views(extends@) =~= before.push(n@));
        }
        k = k + 1;
    }
    assert(i.extends@.take(i.extends@.len() as int) =~= i.extends@);
    ConfigInterface { name: i.name.clone(), own_props: interface_props(&i.members), extends }
}

/// The interfaces a module declares, exported or not, in order.
pub open spec fn module_interfaces(ss: Seq<TsStatement>) -> Seq<(Seq<char>, Seq<(Seq<char>, Option<Seq<char>>, bool)>, Seq<Seq<char>>)>
    decreases ss.len(),
{
    if ss.len() == 0 {
        seq![]
    } else {
        let rest = module_interfaces(ss.drop_last());
        match ss.last() {
            TsStatement::Interface(_, i) => rest.push(interface_view(i)),
            _ => rest,
        }
    }
}

/// The `(local name, specifier)` of each named import, in order.
pub open spec fn module_imports(ss: Seq<TsStatement>) -> Seq<(Seq<char>, Seq<char>)>
    decreases ss.len(),
{
    if ss.len() == 0 {
        seq![]
    } else {
        let rest = module_imports(ss.drop_last());
        match ss.last() {
            TsStatement::Import(spec, names) => rest + named_imports(names@, spec@),
            _ => rest,
        }
    }
}

pub open spec fn named_imports(names: Seq<Option<String>>, spec: Seq<char>) -> Seq<(Seq<char>, Seq<char>)>
    decreases names.len(),
{
    if names.len() == 0 {
        seq![]
    } else {
        match names.last() {
            Some(n) => named_imports(names.drop_last(), spec).push((n@, spec)),
            None => named_imports(names.drop_last(), spec),
        }
    }
}

pub open spec fn config_views(cs: Seq<ConfigInterface>) -> Seq<(Seq<char>, Seq<(Seq<char>, Option<Seq<char>>, bool)>, Seq<Seq<char>>)> {
    cs.map_values(|c: ConfigInterface| config_view(c))
}

pub open spec fn import_views(is: Seq<(String, String)>) -> Seq<(Seq<char>, Seq<char>)> {
    is.map_values(|p: (String, String)| (p.0@, p.1@))
}

/// The interfaces and named imports of a TypeScript module; an error when
/// it does not parse cleanly.
pub fn parse_module(source: &str) -> (r: Result<ParsedModule, String>)
    ensures
        match parsed_module(source@, false) {
            Some(m) => if m.clean {
                r matches Ok(p) && config_views(p.interfaces@) == module_interfaces(m.statements@)
                    && import_views(p.imports@) == module_imports(m.statements@)
            } else {
                r matches Err(e) && e@ == "failed to parse a module while resolving the Config extends chain"@
            },
            None => r matches Err(e) && e@ == "failed to parse a module while resolving the Config extends chain"@,
        },
{
    match parse_ts_module(source, false) {
        Some(m) => interfaces_and_imports(&m),
        None => Err(crate::text::owned("failed to parse a module while resolving the Config extends chain")),
    }
}

/// The interfaces and named imports of a parsed module; an error when it
/// did not parse cleanly.
pub fn interfaces_and_imports(m: &TsModule) -> (r: Result<ParsedModule, String>)
    ensures
        m.clean ==> (r matches Ok(p) && config_views(p.interfaces@) == module_interfaces(m.statements@)
            && import_views(p.imports@) == module_imports(m.statements@)),
        !m.clean ==> (r matches Err(e) && e@ == "failed to parse a module while resolving the Config extends chain"@),
{
    if !m.clean {
        return Err(crate::text::owned("failed to parse a module while resolving the Config extends chain"));
    }
    let ss = &m.statements;
    let mut interfaces: Vec<ConfigInterface> = Vec::new();
    let mut imports: Vec<(String, String)> = Vec::new();
    let mut i: usize = 0;
    while i < ss.len()
        invariant
            i <= ss@.len(),
            config_views(interfaces@) == module_interfaces(ss@.take(i as int)),
            import_views(imports@) == module_imports(ss@.take(i as int)),
        decreases ss@.len() - i,
    {
        assert(ss@.take(i + 1).drop_last() =~= ss@.take(i as int));
        match &ss[i] {
            TsStatement::Interface(_, iface) => {
                let c = config_of(iface);
                let ghost before = config_views(interfaces@);
                interfaces.push(c);
                assert(config_views(interfaces@) =~= before.push(config_view(c)));
            },
            TsStatement::Import(spec, names) => {
                let ghost i0 = import_views(imports@);
                let mut j: usize = 0;
                while j < names.len()
                    invariant
                        j <= names@.len(),
                        import_views(imports@) == i0 + named_imports(names@.take(j as int), spec@),
                    decreases names@.len() - j,
                {
                    assert(names@.take(j + 1).drop_last() =~= names@.take(j as int));
                    if let Some(n) = &names[j] {
                        let ghost before = import_views(imports@);
                        imports.push((n.clone(), spec.clone()));
                        assert(import_views(imports@) =~= before.push((n@, spec@)));
                        assert(i0 + named_imports(names@.take(j + 1), spec@) =~= (i0 + named_imports(
                            names@.take(j as int),
                            spec@,
                        )).push((n@, spec@)));
                    }
                    j = j + 1;
                }
                assert(names@.take(names@.len() as int) =~= names@);
            },
            _ => {},
        }
        i = i + 1;
    }
    assert(ss@.take(ss@.len() as int) =~= ss@);
    Ok(ParsedModule { interfaces, imports })
}

/// The first exported interface whose name ends in `Config`.
pub open spec fn exported_config(ss: Seq<TsStatement>) -> Option<TsInterface>
    decreases ss.len(),
{
    if ss.len() == 0 {
        None
    } else {
        match ss[0] {
            TsStatement::Interface(true, i) => if ends_with(i.name@, "Config"@) {
                Some(i)
            } else {
                exported_config(ss.drop_first())
            },
            _ => exported_config(ss.drop_first()),
        }
    }
}

/// The exported `*Config` interface of a behavior module, if it has one;
/// an error when it does not parse cleanly.
pub fn parse_config_interface(source: &str) -> (r: Result<Option<ConfigInterface>, String>)
    ensures
        match parsed_module(source@, false) {
            Some(m) => if m.clean {
                match exported_config(m.statements@) {
                    Some(i) => r matches Ok(Some(c)) && config_view(c) == interface_view(i),
                    None => r matches Ok(None),
                }
            } else {
                r matches Err(e) && e@ == "failed to parse the behavior source while reading its Config interface"@
            },
            None => r matches Err(e) && e@ == "failed to parse the behavior source while reading its Config interface"@,
        },
{
    match parse_ts_module(source, false) {
        Some(m) => exported_config_of(&m),
        None => Err(crate::text::owned("failed to parse the behavior source while reading its Config interface")),
    }
}

/// The exported `*Config` interface of a parsed behavior module, if it has
/// one; an error when it did not parse cleanly.
pub fn exported_config_of(m: &TsModule) -> (r: Result<Option<ConfigInterface>, String>)
    ensures
        m.clean ==> match exported_config(m.statements@) {
            Some(i) => r matches Ok(Some(c)) && config_view(c) == interface_view(i),
            None => r matches Ok(None),
        },
        !m.clean ==> (r matches Err(e) && e@ == "failed to parse the behavior source while reading its Config interface"@),
{
    if !m.clean {
        return Err(crate::text::owned("failed to parse the behavior source while reading its Config interface"));
    }
    let ss = &m.statements;
    assert(ss@.skip(0) =~= ss@);
    let mut i: usize = 0;
    while i < ss.len()
        invariant
            i <= ss@.len(),
            exported_config(ss@) == exported_config(ss@.skip(i as int)),
            *ss == m.statements,
            m.clean,
        decreases ss@.len() - i,
    {
        assert(ss@.skip(i as int).drop_first() =~= ss@.skip(i + 1));
        assert(ss@.skip(i as int)[0] == ss@[i as int]);
        if let TsStatement::Interface(exported, iface) = &ss[i] {
            if *exported && str_ends_with(iface.name.as_str(), "Config") {
                assert(exported_config(ss@.skip(i as int)) == Some(*iface));
                let c = config_of(iface);
                assert(exported_config(m.statements@) == Some(*iface));
                assert(config_view(c) == interface_view(*iface));
                return Ok(Some(c));
            }
        }
        i = i + 1;
    }
    assert(ss@.skip(ss@.len() as int) =~= Seq::<TsStatement>::empty());
    Ok(None)
}

} // verus!
