//! The module graph: the deduplicated, dependency-annotated store of modules
//! that a build produces, keyed by stable module ids.
//!
//! A module id derives deterministically from the module's absolute path, or,
//! for an external placeholder, from the synthetic path form under which the
//! dependency was imported; the two namespaces are kept apart by a flag, so a
//! real module and an external placeholder can never collide.

use vstd::prelude::*;
use vstd::string::*;

verus! {

/// Raw content handed back by the load phase, tagged by kind.
#[derive(Debug)]
pub enum Content {
    Js(String),
    Css(String),
}

/// Mathematical form of [`Content`].
pub enum ContentView {
    Js(Seq<char>),
    Css(Seq<char>),
}

impl View for Content {
    type V = ContentView;

    open spec fn view(&self) -> ContentView {
        match self {
            Content::Js(s) => ContentView::Js(s@),
            Content::Css(s) => ContentView::Css(s@),
        }
    }
}

impl Content {
    /// An owned copy with the same content.
    pub fn dup(&self) -> (r: Content)
        ensures
            r@ == self@,
    {
        match self {
            Content::Js(s) => Content::Js(s.clone()),
            Content::Css(s) => Content::Css(s.clone()),
        }
    }
}

/// The parse phase's output: an abstract syntax value tagged by source kind,
/// or the sentinel carried by external placeholders, which are never parsed.
#[derive(Debug)]
pub enum ModuleAst {
    Script(String),
    Style(String),
    Absent,
}

/// Mathematical form of [`ModuleAst`].
pub enum ModuleAstView {
    Script(Seq<char>),
    Style(Seq<char>),
    Absent,
}

impl View for ModuleAst {
    type V = ModuleAstView;

    open spec fn view(&self) -> ModuleAstView {
        match self {
            ModuleAst::Script(s) => ModuleAstView::Script(s@),
            ModuleAst::Style(s) => ModuleAstView::Style(s@),
            ModuleAst::Absent => ModuleAstView::Absent,
        }
    }
}

impl ModuleAst {
    /// An owned copy with the same content.
    pub fn dup(&self) -> (r: ModuleAst)
        ensures
            r@ == self@,
    {
        match self {
            ModuleAst::Script(s) => ModuleAst::Script(s.clone()),
            ModuleAst::Style(s) => ModuleAst::Style(s.clone()),
            ModuleAst::Absent => ModuleAst::Absent,
        }
    }
}

/// A stable module identifier: the normalized key (an absolute path, or the
/// path form of an external dependency) plus the namespace flag.  Two build
/// runs over unchanged input derive identical ids.
#[derive(Debug)]
pub struct ModuleId {
    pub external: bool,
    pub key: String,
}

/// Mathematical form of [`ModuleId`].
pub struct ModuleIdView {
    pub external: bool,
    pub key: Seq<char>,
}

impl View for ModuleId {
    type V = ModuleIdView;

    open spec fn view(&self) -> ModuleIdView {
        ModuleIdView { external: self.external, key: self.key@ }
    }
}

impl ModuleId {
    /// Identity comparison, by derived value.
    pub fn same_as(&self, other: &ModuleId) -> (r: bool)
        ensures
            r == (self@ == other@),
    {
        self.external == other.external && self.key == other.key
    }

    /// An owned copy of the id.
    pub fn dup(&self) -> (r: ModuleId)
        ensures
            r@ == self@,
    {
        ModuleId { external: self.external, key: self.key.clone() }
    }
}

/// One directed dependency edge, labeled with the import specifier exactly as
/// written in source.
#[derive(Debug)]
pub struct Dependency {
    pub specifier: String,
    pub target: ModuleId,
}

/// Mathematical form of [`Dependency`].
pub struct DependencyView {
    pub specifier: Seq<char>,
    pub target: ModuleIdView,
}

impl View for Dependency {
    type V = DependencyView;

    open spec fn view(&self) -> DependencyView {
        DependencyView { specifier: self.specifier@, target: self.target@ }
    }
}

/// What a module owns besides its id: its path (or synthetic external path
/// form), the external runtime name if it is an external placeholder, the
/// entry flag, the transformed code, and the abstract syntax value.
#[derive(Debug)]
pub struct ModuleInfo {
    pub path: String,
    pub external_name: Option<String>,
    pub is_entry: bool,
    pub code: String,
    pub ast: ModuleAst,
}

/// Mathematical form of [`ModuleInfo`].
pub struct ModuleInfoView {
    pub path: Seq<char>,
    pub external_name: Option<Seq<char>>,
    pub is_entry: bool,
    pub code: Seq<char>,
    pub ast: ModuleAstView,
}

impl View for ModuleInfo {
    type V = ModuleInfoView;

    open spec fn view(&self) -> ModuleInfoView {
        ModuleInfoView {
            path: self.path@,
            external_name: match &self.external_name {
                Some(n) => Some(n@),
                None => None,
            },
            is_entry: self.is_entry,
            code: self.code@,
            ast: self.ast@,
        }
    }
}

/// One node of the graph with its outgoing edges, recorded in the order the
/// dependency-analysis phase reported them.
#[derive(Debug)]
pub struct Module {
    pub id: ModuleId,
    pub info: ModuleInfo,
    pub deps: Vec<Dependency>,
}

/// Mathematical form of [`Module`].
pub struct ModuleView {
    pub id: ModuleIdView,
    pub info: ModuleInfoView,
    pub deps: Seq<DependencyView>,
}

impl View for Module {
    type V = ModuleView;

    open spec fn view(&self) -> ModuleView {
        ModuleView {
            id: self.id@,
            info: self.info@,
            deps: self.deps@.map_values(|d: Dependency| d@),
        }
    }
}

/// The dependency graph: modules in insertion (traversal) order.  The dedup
/// invariant—at most one record per id—is established by the orchestrator.
#[derive(Debug)]
pub struct ModuleGraph {
    pub modules: Vec<Module>,
}

impl View for ModuleGraph {
    type V = Seq<ModuleView>;

    open spec fn view(&self) -> Seq<ModuleView> {
        self.modules@.map_values(|m: Module| m@)
    }
}

/// No two records share an id.
pub open spec fn unique_ids(g: Seq<ModuleView>) -> bool {
    forall|i: int, j: int| 0 <= i < j < g.len() ==> g[i].id != g[j].id
}

/// Whether some record of `g` carries the id `id`.
pub open spec fn graph_has_id(g: Seq<ModuleView>, id: ModuleIdView) -> bool {
    exists|i: int| 0 <= i < g.len() && g[i].id == id
}

/// The position of the record carrying `id`, if any.
pub open spec fn graph_index_of(g: Seq<ModuleView>, id: ModuleIdView) -> Option<int>
    decreases g.len(),
{
    if g.len() == 0 {
        None
    } else if g[0].id == id {
        Some(0)
    } else {
        match graph_index_of(g.drop_first(), id) {
            Some(i) => Some(i + 1),
            None => None,
        }
    }
}

impl ModuleGraph {
    /// A graph with no modules.
    pub fn new() -> (g: ModuleGraph)
        ensures
            g@ =~= Seq::<ModuleView>::empty(),
    {
        ModuleGraph { modules: Vec::new() }
    }

    /// How many modules the graph holds.
    pub fn len(&self) -> (n: usize)
        ensures
            n == self@.len(),
    {
        self.modules.len()
    }

    /// The module at position `i`, in insertion order.
    pub fn get(&self, i: usize) -> (m: &Module)
        requires
            i < self@.len(),
        ensures
            m@ == self@[i as int],
    {
        &self.modules[i]
    }

    /// The position of the record with the given id, scanning in insertion
    /// order.
    pub fn index_of(&self, id: &ModuleId) -> (r: Option<usize>)
        ensures
            match r {
                Some(i) => graph_index_of(self@, id@) == Some(i as int) && i < self@.len()
                    && self@[i as int].id == id@,
                None => graph_index_of(self@, id@) is None,
            },
    {
        let mut i: usize = 0;
        proof {
            assert(self@.skip(0) =~= self@);
        }
        while i < self.modules.len()
            invariant
                i <= self@.len(),
                graph_index_of(self@, id@) == match graph_index_of(self@.skip(i as int), id@) {
                    Some(k) => Some(k + i),
                    None => None::<int>,
                },
                forall|k: int| 0 <= k < i ==> self@[k].id != id@,
            decreases self@.len() - i,
        {
            proof {
                assert(self@.skip(i as int).drop_first() =~= self@.skip(i + 1));
                assert(self@.skip(i as int)[0] == self@[i as int]);
            }
            if self.modules[i].id.same_as(id) {
                return Some(i);
            }
            i += 1;
        }
        proof {
            assert(self@.skip(self@.len() as int) =~= Seq::<ModuleView>::empty());
        }
        None
    }

    /// Whether a record with the given id exists.
    pub fn contains_id(&self, id: &ModuleId) -> (r: bool)
        ensures
            r == graph_has_id(self@, id@),
    {
        let r = self.index_of(id);
        proof {
            lemma_graph_index_of_has(self@, id@);
        }
        match r {
            Some(_) => true,
            None => false,
        }
    }

    /// A borrowed look at the record with the given id, if any.
    pub fn find(&self, id: &ModuleId) -> (r: Option<&Module>)
        ensures
            match r {
                Some(m) => graph_has_id(self@, id@) && m@.id == id@ && graph_has_module(
                    self@,
                    m@,
                ),
                None => !graph_has_id(self@, id@),
            },
    {
        proof {
            lemma_graph_index_of_has(self@, id@);
        }
        match self.index_of(id) {
            Some(i) => Some(&self.modules[i]),
            None => None,
        }
    }
}

/// Whether `m` is one of the records of `g`.
pub open spec fn graph_has_module(g: Seq<ModuleView>, m: ModuleView) -> bool {
    exists|i: int| 0 <= i < g.len() && g[i] == m
}

/// `graph_index_of` finds an id exactly when some record carries it, and the
/// position it reports carries it.
pub proof fn lemma_graph_index_of_has(g: Seq<ModuleView>, id: ModuleIdView)
    ensures
        graph_has_id(g, id) <==> graph_index_of(g, id) is Some,
        match graph_index_of(g, id) {
            Some(i) => 0 <= i < g.len() && g[i].id == id,
            None => true,
        },
    decreases g.len(),
{
    if g.len() > 0 {
        lemma_graph_index_of_has(g.drop_first(), id);
        if g[0].id != id {
            assert forall|k: int| 0 <= k < g.drop_first().len() implies g.drop_first()[k]
                == g[k + 1] by {}
            if graph_has_id(g, id) {
                let w = choose|i: int| 0 <= i < g.len() && g[i].id == id;
                assert(g.drop_first()[w - 1].id == id);
            }
        }
    }
}

/// The fixed re-export template an external placeholder's code is built
/// from, instantiated with the external runtime name.
pub open spec fn stub_of(name: Seq<char>) -> Seq<char> {
    "exports.default = "@ + name + ";"@
}

/// Builds the re-export stub for an external runtime name.
pub fn external_stub_code(name: &str) -> (r: String)
    ensures
        r@ == stub_of(name@),
{
    let mut s = String::from_str("exports.default = ");
    s.append(name);
    s.append(";");
    s
}

} // verus!
