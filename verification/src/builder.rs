//! The build orchestrator.
//!
//! Given entry paths, a host description of the out-of-scope collaborators
//! (the load/parse/analyze/transform tables and the resolver table) and the
//! registered extensions, the orchestrator drives a worklist over the
//! frontier of undiscovered paths and materializes a deduplicated module
//! graph.  A dependency resolved as external becomes a placeholder node with
//! a fixed re-export stub and is never queued; every other resolved target is
//! queued once.  Any phase failure aborts the whole build with an error that
//! identifies the failing path and phase; no partial graph is returned.
//!
//! The whole run is pinned to the recursive specification [`build_rec`]: the
//! executable orchestrator returns exactly what the specification denotes,
//! which makes re-running it over unchanged input trivially deterministic.

use vstd::prelude::*;
use vstd::seq_lib::*;
use vstd::set_lib::*;
use vstd::string::*;
use crate::module_graph::{
    external_stub_code, graph_has_id, graph_index_of, stub_of, unique_ids, Content, ContentView,
    Dependency, DependencyView,
    Module, ModuleAst, ModuleAstView, ModuleGraph, ModuleId, ModuleIdView, ModuleInfo,
    ModuleInfoView, ModuleView,
};
use crate::plugin::{
    driver_load_spec, driver_parse_spec, FileRequest, PluginDriver, PluginError, PluginErrorView,
    PluginLoadParam, PluginParseParam, PluginView,
};

verus! {

broadcast use vstd::seq_lib::seq_to_set_is_finite;

/// What the resolver answers for one (importer, specifier) pair: an absolute
/// on-disk path, or the external marker carrying the runtime-accessible name.
pub enum Resolution {
    Absolute(String),
    External(String),
}

/// Mathematical form of [`Resolution`].
pub enum ResolutionView {
    Absolute(Seq<char>),
    External(Seq<char>),
}

impl View for Resolution {
    type V = ResolutionView;

    open spec fn view(&self) -> ResolutionView {
        match self {
            Resolution::Absolute(s) => ResolutionView::Absolute(s@),
            Resolution::External(s) => ResolutionView::External(s@),
        }
    }
}

/// One row of the resolver table: what (importer, specifier) resolves to.
pub struct ResolveEntry {
    pub importer: String,
    pub specifier: String,
    pub resolution: Resolution,
}

/// Mathematical form of [`ResolveEntry`].
pub struct ResolveEntryView {
    pub importer: Seq<char>,
    pub specifier: Seq<char>,
    pub resolution: ResolutionView,
}

impl View for ResolveEntry {
    type V = ResolveEntryView;

    open spec fn view(&self) -> ResolveEntryView {
        ResolveEntryView {
            importer: self.importer@,
            specifier: self.specifier@,
            resolution: self.resolution@,
        }
    }
}

/// One dependency specifier together with what it resolved to.
pub struct ResolvedDep {
    pub specifier: String,
    pub resolution: Resolution,
}

/// Mathematical form of [`ResolvedDep`].
pub struct ResolvedDepView {
    pub specifier: Seq<char>,
    pub resolution: ResolutionView,
}

impl View for ResolvedDep {
    type V = ResolvedDepView;

    open spec fn view(&self) -> ResolvedDepView {
        ResolvedDepView { specifier: self.specifier@, resolution: self.resolution@ }
    }
}

/// What the host's default phases answer for one on-disk file: its loaded
/// content, whether its parse/analyze/transform steps succeed, the import
/// specifiers its analysis reports (duplicates preserved, in order), and its
/// transformed code.
pub struct FileRecord {
    pub path: String,
    pub content: Content,
    pub parse_ok: bool,
    pub analyze_ok: bool,
    pub deps: Vec<String>,
    pub transform_ok: bool,
    pub code: String,
}

/// Mathematical form of [`FileRecord`].
pub struct FileRecordView {
    pub path: Seq<char>,
    pub content: ContentView,
    pub parse_ok: bool,
    pub analyze_ok: bool,
    pub deps: Seq<Seq<char>>,
    pub transform_ok: bool,
    pub code: Seq<char>,
}

impl View for FileRecord {
    type V = FileRecordView;

    open spec fn view(&self) -> FileRecordView {
        FileRecordView {
            path: self.path@,
            content: self.content@,
            parse_ok: self.parse_ok,
            analyze_ok: self.analyze_ok,
            deps: self.deps.deep_view(),
            transform_ok: self.transform_ok,
            code: self.code@,
        }
    }
}

/// The narrow interface to the out-of-scope collaborators: the default phase
/// table and the resolver table.
pub struct BuildHost {
    pub files: Vec<FileRecord>,
    pub resolutions: Vec<ResolveEntry>,
}

/// Mathematical form of [`BuildHost`].
pub struct BuildHostView {
    pub files: Seq<FileRecordView>,
    pub resolutions: Seq<ResolveEntryView>,
}

impl View for BuildHost {
    type V = BuildHostView;

    open spec fn view(&self) -> BuildHostView {
        BuildHostView {
            files: self.files@.map_values(|f: FileRecord| f@),
            resolutions: self.resolutions@.map_values(|r: ResolveEntry| r@),
        }
    }
}

/// A build failure, identifying the failing path and phase; a resolve
/// failure identifies both the offending specifier and its importer.
#[derive(Debug)]
pub enum BuildError {
    Load { path: String },
    Parse { path: String },
    Analyze { path: String },
    Resolve { importer: String, specifier: String },
    Transform { path: String },
    Extension(PluginError),
}

/// Mathematical form of [`BuildError`].
pub enum BuildErrorView {
    Load { path: Seq<char> },
    Parse { path: Seq<char> },
    Analyze { path: Seq<char> },
    Resolve { importer: Seq<char>, specifier: Seq<char> },
    Transform { path: Seq<char> },
    Extension(PluginErrorView),
}

impl View for BuildError {
    type V = BuildErrorView;

    open spec fn view(&self) -> BuildErrorView {
        match self {
            BuildError::Load { path } => BuildErrorView::Load { path: path@ },
            BuildError::Parse { path } => BuildErrorView::Parse { path: path@ },
            BuildError::Analyze { path } => BuildErrorView::Analyze { path: path@ },
            BuildError::Resolve { importer, specifier } => BuildErrorView::Resolve {
                importer: importer@,
                specifier: specifier@,
            },
            BuildError::Transform { path } => BuildErrorView::Transform { path: path@ },
            BuildError::Extension(e) => BuildErrorView::Extension(e@),
        }
    }
}

/// The first file record for `path`, if the host can load it.
pub open spec fn file_lookup(files: Seq<FileRecordView>, path: Seq<char>) -> Option<FileRecordView>
    decreases files.len(),
{
    if files.len() == 0 {
        None
    } else if files[0].path == path {
        Some(files[0])
    } else {
        file_lookup(files.drop_first(), path)
    }
}

/// The resolver as a pure function: the first table row for the pair, if any.
pub open spec fn resolve_lookup(
    rs: Seq<ResolveEntryView>,
    importer: Seq<char>,
    specifier: Seq<char>,
) -> Option<ResolutionView>
    decreases rs.len(),
{
    if rs.len() == 0 {
        None
    } else if rs[0].importer == importer && rs[0].specifier == specifier {
        Some(rs[0].resolution)
    } else {
        resolve_lookup(rs.drop_first(), importer, specifier)
    }
}

/// The default parse tags content by its kind.
pub open spec fn default_ast(c: ContentView) -> ModuleAstView {
    match c {
        ContentView::Js(s) => ModuleAstView::Script(s),
        ContentView::Css(s) => ModuleAstView::Style(s),
    }
}

/// The text carried by loaded content.
pub open spec fn content_text(c: ContentView) -> Seq<char> {
    match c {
        ContentView::Js(s) => s,
        ContentView::Css(s) => s,
    }
}

/// The extension of a path: the characters after the last `.` of its last
/// segment, scanned from position `i` leftward.
pub open spec fn ext_scan(s: Seq<char>, i: int) -> Seq<char>
    decreases i,
{
    if i <= 0 {
        Seq::empty()
    } else if s[i - 1] == '.' {
        s.subrange(i, s.len() as int)
    } else if s[i - 1] == '/' {
        Seq::empty()
    } else {
        ext_scan(s, i - 1)
    }
}

/// The extension name of a path, empty when its last segment has no dot.
pub open spec fn ext_of(s: Seq<char>) -> Seq<char> {
    ext_scan(s, s.len() as int)
}

/// Computes a path's extension name.
pub fn ext_name_of(path: &str) -> (r: String)
    ensures
        r@ == ext_of(path@),
{
    let n = path.unicode_len();
    let mut i: usize = n;
    while i > 0
        invariant
            i <= n,
            n == path@.len(),
            ext_of(path@) == ext_scan(path@, i as int),
        decreases i,
    {
        let c = path.get_char(i - 1);
        if c == '.' {
            let sub = path.substring_char(i, n);
            return String::from_str(sub);
        }
        if c == '/' {
            return String::new();
        }
        i -= 1;
    }
    String::new()
}

/// The load phase: the dispatcher's override first, then the host table;
/// a path neither supplies is a load failure.
pub open spec fn load_phase(
    host: BuildHostView,
    plugins: Seq<PluginView>,
    path: Seq<char>,
) -> Result<ContentView, BuildErrorView> {
    match driver_load_spec(plugins, path) {
        Err(e) => Err(BuildErrorView::Extension(e)),
        Ok(Some(c)) => Ok(c),
        Ok(None) => match file_lookup(host.files, path) {
            Some(rec) => Ok(rec.content),
            None => Err(BuildErrorView::Load { path }),
        },
    }
}

/// The parse phase: the dispatcher's override first; otherwise the host
/// record decides success and the content is tagged by kind.
pub open spec fn parse_phase(
    host: BuildHostView,
    plugins: Seq<PluginView>,
    path: Seq<char>,
    content: ContentView,
) -> Result<ModuleAstView, BuildErrorView> {
    match driver_parse_spec(plugins, path) {
        Err(e) => Err(BuildErrorView::Extension(e)),
        Ok(Some(a)) => Ok(a),
        Ok(None) => match file_lookup(host.files, path) {
            Some(rec) => if rec.parse_ok {
                Ok(default_ast(content))
            } else {
                Err(BuildErrorView::Parse { path })
            },
            None => Ok(default_ast(content)),
        },
    }
}

/// The analyze phase: the host record's ordered specifier list, duplicates
/// preserved; a content-only module (no record) has no dependencies.
pub open spec fn analyze_phase(host: BuildHostView, path: Seq<char>) -> Result<
    Seq<Seq<char>>,
    BuildErrorView,
> {
    match file_lookup(host.files, path) {
        Some(rec) => if rec.analyze_ok {
            Ok(rec.deps)
        } else {
            Err(BuildErrorView::Analyze { path })
        },
        None => Ok(Seq::empty()),
    }
}

/// Resolves every specifier in order; the first unresolvable one aborts,
/// identifying both the specifier and its importer.
pub open spec fn resolve_deps(
    rs: Seq<ResolveEntryView>,
    importer: Seq<char>,
    deps: Seq<Seq<char>>,
) -> Result<Seq<ResolvedDepView>, BuildErrorView>
    decreases deps.len(),
{
    if deps.len() == 0 {
        Ok(Seq::empty())
    } else {
        match resolve_deps(rs, importer, deps.drop_last()) {
            Err(e) => Err(e),
            Ok(sofar) => match resolve_lookup(rs, importer, deps.last()) {
                None => Err(BuildErrorView::Resolve { importer, specifier: deps.last() }),
                Some(res) => Ok(
                    sofar.push(ResolvedDepView { specifier: deps.last(), resolution: res }),
                ),
            },
        }
    }
}

/// The transform phase: the host record decides success and supplies the
/// rewritten code; a content-only module keeps its content text.
pub open spec fn transform_phase(
    host: BuildHostView,
    path: Seq<char>,
    content: ContentView,
) -> Result<Seq<char>, BuildErrorView> {
    match file_lookup(host.files, path) {
        Some(rec) => if rec.transform_ok {
            Ok(rec.code)
        } else {
            Err(BuildErrorView::Transform { path })
        },
        None => Ok(content_text(content)),
    }
}

/// Everything the phase pipeline produces for one real module.
pub struct ProcessedView {
    pub ast: ModuleAstView,
    pub code: Seq<char>,
    pub resolved: Seq<ResolvedDepView>,
}

/// The phase pipeline for one path: load, parse, analyze, resolve, then
/// transform; the first failure aborts.
pub open spec fn process_path(
    host: BuildHostView,
    plugins: Seq<PluginView>,
    path: Seq<char>,
) -> Result<ProcessedView, BuildErrorView> {
    match load_phase(host, plugins, path) {
        Err(e) => Err(e),
        Ok(content) => match parse_phase(host, plugins, path, content) {
            Err(e) => Err(e),
            Ok(ast) => match analyze_phase(host, path) {
                Err(e) => Err(e),
                Ok(deps) => match resolve_deps(host.resolutions, path, deps) {
                    Err(e) => Err(e),
                    Ok(resolved) => match transform_phase(host, path, content) {
                        Err(e) => Err(e),
                        Ok(code) => Ok(ProcessedView { ast, code, resolved }),
                    },
                },
            },
        },
    }
}

/// The id a real module's absolute path derives.
pub open spec fn real_id(path: Seq<char>) -> ModuleIdView {
    ModuleIdView { external: false, key: path }
}

/// The id an external placeholder derives from the synthetic path form under
/// which the dependency was imported.
pub open spec fn external_id(specifier: Seq<char>) -> ModuleIdView {
    ModuleIdView { external: true, key: specifier }
}

/// The edge one resolved dependency records, labeled with the original
/// specifier.
pub open spec fn dep_edge(rd: ResolvedDepView) -> DependencyView {
    DependencyView {
        specifier: rd.specifier,
        target: match rd.resolution {
            ResolutionView::Absolute(q) => real_id(q),
            ResolutionView::External(_) => external_id(rd.specifier),
        },
    }
}

/// The ordered edges of a module with the given resolved dependencies.
pub open spec fn module_deps(resolved: Seq<ResolvedDepView>) -> Seq<DependencyView> {
    resolved.map_values(|rd: ResolvedDepView| dep_edge(rd))
}

/// The placeholder module synthesized for an external dependency: flagged
/// external, never an entry, no syntax tree, no outgoing edges, and code
/// equal to the fixed re-export stub for its runtime name.
pub open spec fn external_module(specifier: Seq<char>, name: Seq<char>) -> ModuleView {
    ModuleView {
        id: external_id(specifier),
        info: ModuleInfoView {
            path: specifier,
            external_name: Some(name),
            is_entry: false,
            code: stub_of(name),
            ast: ModuleAstView::Absent,
        },
        deps: Seq::empty(),
    }
}

/// The finished real module for `path`.
pub open spec fn real_module(
    entries: Seq<Seq<char>>,
    path: Seq<char>,
    pr: ProcessedView,
) -> ModuleView {
    ModuleView {
        id: real_id(path),
        info: ModuleInfoView {
            path,
            external_name: None,
            is_entry: entries.contains(path),
            code: pr.code,
            ast: pr.ast,
        },
        deps: module_deps(pr.resolved),
    }
}

/// What integrating a module's resolved dependencies does besides recording
/// its edges: the graph with the new external placeholders appended, and the
/// newly discovered paths to queue.
pub struct IntegratedView {
    pub graph: Seq<ModuleView>,
    pub pushes: Seq<Seq<char>>,
}

/// Folds a module's resolved dependencies, left to right: an external
/// dependency inserts its placeholder immediately unless its id is already
/// present; an absolute target is queued unless already seen.
pub open spec fn integrate(
    resolved: Seq<ResolvedDepView>,
    graph: Seq<ModuleView>,
    seen: Set<Seq<char>>,
) -> IntegratedView
    decreases resolved.len(),
{
    if resolved.len() == 0 {
        IntegratedView { graph, pushes: Seq::empty() }
    } else {
        let sofar = integrate(resolved.drop_last(), graph, seen);
        let rd = resolved.last();
        match rd.resolution {
            ResolutionView::External(name) => if graph_has_id(
                sofar.graph,
                external_id(rd.specifier),
            ) {
                sofar
            } else {
                IntegratedView {
                    graph: sofar.graph.push(external_module(rd.specifier, name)),
                    pushes: sofar.pushes,
                }
            },
            ResolutionView::Absolute(q) => if seen.contains(q) {
                sofar
            } else {
                IntegratedView { graph: sofar.graph, pushes: sofar.pushes.push(q) }
            },
        }
    }
}

/// Inserting a finished module: replaces the record already carrying its id,
/// or appends.
pub open spec fn upsert(graph: Seq<ModuleView>, m: ModuleView) -> Seq<ModuleView> {
    match graph_index_of(graph, m.id) {
        Some(i) => graph.update(i, m),
        None => graph.push(m),
    }
}

/// The set of absolute targets the resolver table can ever name.
pub open spec fn resolution_targets(rs: Seq<ResolveEntryView>) -> Set<Seq<char>>
    decreases rs.len(),
{
    if rs.len() == 0 {
        Set::empty()
    } else {
        (match rs[0].resolution {
            ResolutionView::Absolute(q) => Set::empty().insert(q),
            ResolutionView::External(_) => Set::empty(),
        }).union(resolution_targets(rs.drop_first()))
    }
}

/// Every path a build can ever queue: its seed paths and every absolute
/// resolver target.
pub open spec fn build_universe(host: BuildHostView, seeds: Seq<Seq<char>>) -> Set<Seq<char>> {
    seeds.to_set().union(resolution_targets(host.resolutions))
}

/// The worklist traversal.  While the worklist is non-empty: pop a path;
/// skip it when already seen; otherwise mark it seen, run the phase
/// pipeline, integrate its dependencies (external placeholders inserted
/// immediately, fresh absolute targets queued) and insert the finished
/// module.  The `universe` bound and finiteness tests keep the recursion
/// well-founded; a run seeded inside the universe never reaches the skip
/// they guard.
pub open spec fn build_rec(
    host: BuildHostView,
    plugins: Seq<PluginView>,
    entries: Seq<Seq<char>>,
    universe: Set<Seq<char>>,
    worklist: Seq<Seq<char>>,
    seen: Set<Seq<char>>,
    graph: Seq<ModuleView>,
) -> Result<Seq<ModuleView>, BuildErrorView>
    decreases universe.difference(seen).len(), worklist.len(),
{
    if worklist.len() == 0 {
        Ok(graph)
    } else {
        let p = worklist[0];
        if seen.contains(p) || !universe.finite() || !universe.contains(p) || !seen.finite() {
            build_rec(host, plugins, entries, universe, worklist.drop_first(), seen, graph)
        } else {
            proof {
                universe.lemma_set_insert_diff_decreases(seen, p);
            }
            match process_path(host, plugins, p) {
                Err(e) => Err(e),
                Ok(pr) => {
                    let seen1 = seen.insert(p);
                    let ig = integrate(pr.resolved, graph, seen1);
                    build_rec(
                        host,
                        plugins,
                        entries,
                        universe,
                        worklist.drop_first() + ig.pushes,
                        seen1,
                        upsert(ig.graph, real_module(entries, p, pr)),
                    )
                },
            }
        }
    }
}

/// A full build from the entry paths over an empty graph.
pub open spec fn build_spec(
    host: BuildHostView,
    plugins: Seq<PluginView>,
    entries: Seq<Seq<char>>,
) -> Result<Seq<ModuleView>, BuildErrorView> {
    build_rec(
        host,
        plugins,
        entries,
        build_universe(host, entries),
        entries,
        Set::empty(),
        Seq::empty(),
    )
}

/// The real-module paths an incremental rebuild keeps as already seen:
/// everything in the graph except the changed paths themselves.
pub open spec fn rebuild_seen(graph: Seq<ModuleView>, changed: Set<Seq<char>>) -> Set<Seq<char>>
    decreases graph.len(),
{
    if graph.len() == 0 {
        Set::empty()
    } else {
        let rest = rebuild_seen(graph.drop_last(), changed);
        let m = graph.last();
        if !m.id.external && !changed.contains(m.info.path) {
            rest.insert(m.info.path)
        } else {
            rest
        }
    }
}

/// An incremental rebuild: the worklist is seeded with the changed paths
/// alone, every unchanged real module counts as seen (so only the changed
/// modules re-run the pipeline, and their unchanged neighbours keep their
/// records and edge labels), and finished modules replace their old records
/// in place.
pub open spec fn rebuild_spec(
    host: BuildHostView,
    plugins: Seq<PluginView>,
    entries: Seq<Seq<char>>,
    changed: Seq<Seq<char>>,
    graph: Seq<ModuleView>,
) -> Result<Seq<ModuleView>, BuildErrorView> {
    build_rec(
        host,
        plugins,
        entries,
        build_universe(host, entries).union(changed.to_set()),
        changed,
        rebuild_seen(graph, changed.to_set()),
        graph,
    )
}

/// Spec-level image of a build's result.
pub open spec fn build_result_view(r: Result<ModuleGraph, BuildError>) -> Result<
    Seq<ModuleView>,
    BuildErrorView,
> {
    match r {
        Ok(g) => Ok(g@),
        Err(e) => Err(e@),
    }
}

/// Spec-level image of the pipeline's result for one path.
pub open spec fn process_result_view(r: Result<Processed, BuildError>) -> Result<
    ProcessedView,
    BuildErrorView,
> {
    match r {
        Ok(p) => Ok(p@),
        Err(e) => Err(e@),
    }
}

/// Everything the phase pipeline produced for one real module.
pub struct Processed {
    pub ast: ModuleAst,
    pub code: String,
    pub resolved: Vec<ResolvedDep>,
}

impl View for Processed {
    type V = ProcessedView;

    open spec fn view(&self) -> ProcessedView {
        ProcessedView {
            ast: self.ast@,
            code: self.code@,
            resolved: self.resolved@.map_values(|d: ResolvedDep| d@),
        }
    }
}

fn find_record<'a>(files: &'a Vec<FileRecord>, path: &String) -> (r: Option<&'a FileRecord>)
    ensures
        match r {
            Some(rec) => file_lookup(files@.map_values(|f: FileRecord| f@), path@) == Some(rec@),
            None => file_lookup(files@.map_values(|f: FileRecord| f@), path@) is None,
        },
{
    let ghost fv = files@.map_values(|f: FileRecord| f@);
    let mut i: usize = 0;
    proof {
        assert(fv.skip(0) =~= fv);
    }
    while i < files.len()
        invariant
            i <= files.len(),
            fv == files@.map_values(|f: FileRecord| f@),
            file_lookup(fv, path@) == file_lookup(fv.skip(i as int), path@),
        decreases files.len() - i,
    {
        proof {
            assert(fv.skip(i as int).drop_first() =~= fv.skip(i + 1));
            assert(fv.skip(i as int)[0] == fv[i as int]);
        }
        if files[i].path == *path {
            return Some(&files[i]);
        }
        i += 1;
    }
    None
}

fn find_resolution<'a>(rs: &'a Vec<ResolveEntry>, importer: &String, specifier: &String) -> (r:
    Option<&'a Resolution>)
    ensures
        match r {
            Some(res) => resolve_lookup(
                rs@.map_values(|x: ResolveEntry| x@),
                importer@,
                specifier@,
            ) == Some(res@),
            None => resolve_lookup(
                rs@.map_values(|x: ResolveEntry| x@),
                importer@,
                specifier@,
            ) is None,
        },
{
    let ghost rv = rs@.map_values(|x: ResolveEntry| x@);
    let mut i: usize = 0;
    proof {
        assert(rv.skip(0) =~= rv);
    }
    while i < rs.len()
        invariant
            i <= rs.len(),
            rv == rs@.map_values(|x: ResolveEntry| x@),
            resolve_lookup(rv, importer@, specifier@) == resolve_lookup(
                rv.skip(i as int),
                importer@,
                specifier@,
            ),
        decreases rs.len() - i,
    {
        proof {
            assert(rv.skip(i as int).drop_first() =~= rv.skip(i + 1));
            assert(rv.skip(i as int)[0] == rv[i as int]);
        }
        if rs[i].importer == *importer && rs[i].specifier == *specifier {
            return Some(&rs[i].resolution);
        }
        i += 1;
    }
    None
}

/// Whether a string occurs in the list.
fn vec_contains_string(v: &Vec<String>, x: &String) -> (r: bool)
    ensures
        r == v.deep_view().contains(x@),
{
    let mut i: usize = 0;
    while i < v.len()
        invariant
            i <= v.len(),
            forall|k: int| 0 <= k < i ==> v.deep_view()[k] != x@,
        decreases v.len() - i,
    {
        if v[i] == *x {
            proof {
                assert(v.deep_view()[i as int] == x@);
            }
            return true;
        }
        i += 1;
    }
    false
}

fn clone_paths(v: &Vec<String>) -> (r: Vec<String>)
    ensures
        r.deep_view() == v.deep_view(),
{
    let mut out: Vec<String> = Vec::new();
    let mut i: usize = 0;
    while i < v.len()
        invariant
            i <= v.len(),
            out.deep_view() =~= v.deep_view().take(i as int),
        decreases v.len() - i,
    {
        let ghost pre = out.deep_view();
        out.push(v[i].clone());
        proof {
            assert(out.deep_view() =~= pre.push(v.deep_view()[i as int]));
            assert(v.deep_view().take(i + 1) =~= v.deep_view().take(i as int).push(
                v.deep_view()[i as int],
            ));
            assert(out.deep_view() =~= v.deep_view().take(i + 1));
        }
        i += 1;
    }
    proof {
        assert(v.deep_view().take(v@.len() as int) =~= v.deep_view());
    }
    out
}

/// Resolves every analyzed specifier of `importer`, in order.
fn resolve_all(host: &BuildHost, importer: &String, deps: &Vec<String>) -> (r: Result<
    Vec<ResolvedDep>,
    BuildError,
>)
    ensures
        match r {
            Ok(v) => resolve_deps(host@.resolutions, importer@, deps.deep_view()) == Ok::<
                _,
                BuildErrorView,
            >(v@.map_values(|d: ResolvedDep| d@)),
            Err(e) => resolve_deps(host@.resolutions, importer@, deps.deep_view()) == Err::<
                Seq<ResolvedDepView>,
                _,
            >(e@),
        },
{
    let ghost dv = deps.deep_view();
    let mut out: Vec<ResolvedDep> = Vec::new();
    let mut i: usize = 0;
    proof {
        assert(dv.take(0) =~= Seq::<Seq<char>>::empty());
        assert(out@.map_values(|d: ResolvedDep| d@) =~= Seq::<ResolvedDepView>::empty());
    }
    while i < deps.len()
        invariant
            i <= deps.len(),
            dv == deps.deep_view(),
            resolve_deps(host@.resolutions, importer@, dv.take(i as int)) == Ok::<
                _,
                BuildErrorView,
            >(out@.map_values(|d: ResolvedDep| d@)),
        decreases deps.len() - i,
    {
        proof {
            assert(dv.take(i + 1).drop_last() =~= dv.take(i as int));
            assert(dv.take(i + 1).last() == dv[i as int]);
        }
        match find_resolution(&host.resolutions, importer, &deps[i]) {
            Some(res) => {
                let ghost pre = out@.map_values(|d: ResolvedDep| d@);
                out.push(ResolvedDep { specifier: deps[i].clone(), resolution: res.dup() });
                proof {
                    assert(out@.map_values(|d: ResolvedDep| d@) =~= pre.push(
                        ResolvedDepView { specifier: dv[i as int], resolution: res@ },
                    ));
                    assert(out@.map_values(|d: ResolvedDep| d@) =~= resolve_deps(
                        host@.resolutions,
                        importer@,
                        dv.take(i + 1),
                    )->Ok_0);
                }
            },
            None => {
                proof {
                    assert(resolve_deps(host@.resolutions, importer@, dv.take(i + 1))
                        == Err::<Seq<ResolvedDepView>, _>(
                        BuildErrorView::Resolve { importer: importer@, specifier: dv[i as int] },
                    ));
                    lemma_resolve_err_extends(host@.resolutions, importer@, dv, i + 1);
                }
                return Err(
                    BuildError::Resolve {
                        importer: importer.clone(),
                        specifier: deps[i].clone(),
                    },
                );
            },
        }
        i += 1;
    }
    proof {
        assert(dv.take(deps@.len() as int) =~= dv);
    }
    Ok(out)
}

impl Resolution {
    /// An owned copy of the answer.
    pub fn dup(&self) -> (r: Resolution)
        ensures
            r@ == self@,
    {
        match self {
            Resolution::Absolute(s) => Resolution::Absolute(s.clone()),
            Resolution::External(s) => Resolution::External(s.clone()),
        }
    }
}

/// Runs the phase pipeline for one path, the dispatcher mediating the load
/// and parse phases.
fn process_one(host: &BuildHost, driver: &PluginDriver, path: &String, is_entry: bool) -> (r:
    Result<Processed, BuildError>)
    ensures
        process_result_view(r) == process_path(host@, driver@, path@),
{
    let ext = ext_name_of(path.as_str());
    let param = PluginLoadParam { path: path.clone(), is_entry, ext_name: ext };
    let content = match driver.load(&param) {
        Err(e) => {
            return Err(BuildError::Extension(e));
        },
        Ok(Some(c)) => c,
        Ok(None) => {
            match find_record(&host.files, path) {
                Some(rec) => rec.content.dup(),
                None => {
                    return Err(BuildError::Load { path: path.clone() });
                },
            }
        },
    };
    let parse_param = PluginParseParam {
        request: FileRequest { path: path.clone() },
        content: content.dup(),
    };
    let ast = match driver.parse(&parse_param) {
        Err(e) => {
            return Err(BuildError::Extension(e));
        },
        Ok(Some(a)) => a,
        Ok(None) => {
            match find_record(&host.files, path) {
                Some(rec) => {
                    if rec.parse_ok {
                        match &content {
                            Content::Js(s) => ModuleAst::Script(s.clone()),
                            Content::Css(s) => ModuleAst::Style(s.clone()),
                        }
                    } else {
                        return Err(BuildError::Parse { path: path.clone() });
                    }
                },
                None => {
                    match &content {
                        Content::Js(s) => ModuleAst::Script(s.clone()),
                        Content::Css(s) => ModuleAst::Style(s.clone()),
                    }
                },
            }
        },
    };
    let deps: Vec<String> = match find_record(&host.files, path) {
        Some(rec) => {
            if rec.analyze_ok {
                clone_paths(&rec.deps)
            } else {
                return Err(BuildError::Analyze { path: path.clone() });
            }
        },
        None => Vec::new(),
    };
    proof {
        assert(deps@.len() == 0 ==> deps.deep_view() =~= Seq::<Seq<char>>::empty());
    }
    let resolved = match resolve_all(host, path, &deps) {
        Ok(v) => v,
        Err(e) => {
            return Err(e);
        },
    };
    let code = match find_record(&host.files, path) {
        Some(rec) => {
            if rec.transform_ok {
                rec.code.clone()
            } else {
                return Err(BuildError::Transform { path: path.clone() });
            }
        },
        None => {
            match &content {
                Content::Js(s) => s.clone(),
                Content::Css(s) => s.clone(),
            }
        },
    };
    Ok(Processed { ast, code, resolved })
}

/// Inserts a finished module: replaces the record already carrying its id,
/// or appends it.
fn upsert_module(g: &mut ModuleGraph, m: Module)
    ensures
        final(g)@ == upsert(old(g)@, m@),
{
    let idx = g.index_of(&m.id);
    match idx {
        Some(i) => {
            g.modules.remove(i);
            g.modules.insert(i, m);
            proof {
                assert(g@ =~= old(g)@.update(i as int, m@));
            }
        },
        None => {
            g.modules.push(m);
            proof {
                assert(g@ =~= old(g)@.push(m@));
            }
        },
    }
}

/// A pushed-to-set step.
proof fn lemma_push_to_set(s: Seq<Seq<char>>, x: Seq<char>)
    ensures
        s.push(x).to_set() =~= s.to_set().insert(x),
{
    assert forall|y: Seq<char>| s.push(x).to_set().contains(y) implies s.to_set().insert(
        x,
    ).contains(y) by {
        let i = choose|i: int| 0 <= i < s.push(x).len() && s.push(x)[i] == y;
        if i < s.len() {
            assert(s[i] == y);
        }
    }
    assert forall|y: Seq<char>| s.to_set().insert(x).contains(y) implies s.push(x).to_set().contains(
        y,
    ) by {
        if s.to_set().contains(y) {
            let i = choose|i: int| 0 <= i < s.len() && s[i] == y;
            assert(s.push(x)[i] == y);
        } else {
            assert(s.push(x)[s.len() as int] == x);
        }
    }
}

/// A resolution failure on a prefix settles the whole round.
proof fn lemma_resolve_err_extends(
    rs: Seq<ResolveEntryView>,
    importer: Seq<char>,
    deps: Seq<Seq<char>>,
    j: int,
)
    requires
        0 <= j <= deps.len(),
        resolve_deps(rs, importer, deps.take(j)) is Err,
    ensures
        resolve_deps(rs, importer, deps) == resolve_deps(rs, importer, deps.take(j)),
    decreases deps.len() - j,
{
    if j < deps.len() {
        assert(deps.take(j + 1).drop_last() =~= deps.take(j));
        assert(resolve_deps(rs, importer, deps.take(j + 1)) == resolve_deps(
            rs,
            importer,
            deps.take(j),
        ));
        lemma_resolve_err_extends(rs, importer, deps, j + 1);
    } else {
        assert(deps.take(j) =~= deps);
    }
}

/// Every resolved entry of a successful resolution round is what the
/// resolver answers for its specifier, in order.
proof fn lemma_resolve_deps_entries(
    rs: Seq<ResolveEntryView>,
    importer: Seq<char>,
    deps: Seq<Seq<char>>,
)
    ensures
        resolve_deps(rs, importer, deps) matches Ok(rv) ==> {
            &&& rv.len() == deps.len()
            &&& forall|j: int|
                0 <= j < rv.len() ==> (#[trigger] rv[j]).specifier == deps[j] && resolve_lookup(
                    rs,
                    importer,
                    rv[j].specifier,
                ) == Some(rv[j].resolution)
        },
    decreases deps.len(),
{
    if deps.len() > 0 {
        lemma_resolve_deps_entries(rs, importer, deps.drop_last());
    }
}

/// A resolver answer naming an absolute path names one of the table's
/// targets.
proof fn lemma_lookup_target(
    rs: Seq<ResolveEntryView>,
    importer: Seq<char>,
    specifier: Seq<char>,
    q: Seq<char>,
)
    requires
        resolve_lookup(rs, importer, specifier) == Some(ResolutionView::Absolute(q)),
    ensures
        resolution_targets(rs).contains(q),
    decreases rs.len(),
{
    if rs.len() > 0 {
        if !(rs[0].importer == importer && rs[0].specifier == specifier) {
            lemma_lookup_target(rs.drop_first(), importer, specifier, q);
        }
    }
}

/// The resolver's target set is finite.
proof fn lemma_targets_finite(rs: Seq<ResolveEntryView>)
    ensures
        resolution_targets(rs).finite(),
    decreases rs.len(),
{
    if rs.len() > 0 {
        lemma_targets_finite(rs.drop_first());
    }
}

/// Each resolved dependency of a successfully processed path carries the
/// resolver's answer for its specifier.
proof fn lemma_process_resolved(hv: BuildHostView, pv: Seq<PluginView>, p: Seq<char>)
    ensures
        process_path(hv, pv, p) matches Ok(pr) ==> forall|j: int|
            0 <= j < pr.resolved.len() ==> resolve_lookup(
                hv.resolutions,
                p,
                (#[trigger] pr.resolved[j]).specifier,
            ) == Some(pr.resolved[j].resolution),
{
    if process_path(hv, pv, p) is Ok {
        lemma_resolve_deps_entries(hv.resolutions, p, analyze_phase(hv, p)->Ok_0);
    }
}

/// The shape every external placeholder has: flagged with its runtime name,
/// code equal to the fixed re-export stub for that name, no syntax tree, no
/// outgoing edges, never an entry, and an id derived from its path form.
pub open spec fn external_well_formed(m: ModuleView) -> bool {
    m.id.external ==> {
        &&& m.info.external_name is Some
        &&& m.info.code == stub_of(m.info.external_name->0)
        &&& m.info.ast == ModuleAstView::Absent
        &&& m.deps.len() == 0
        &&& !m.info.is_entry
        &&& m.info.path == m.id.key
    }
}

/// The shape every real module has: its id derives from its path, and the
/// whole record is what the phase pipeline produced for that path.
pub open spec fn real_well_formed(
    host: BuildHostView,
    plugins: Seq<PluginView>,
    entries: Seq<Seq<char>>,
    m: ModuleView,
) -> bool {
    !m.id.external ==> {
        &&& m.id.key == m.info.path
        &&& match process_path(host, plugins, m.info.path) {
            Ok(pr) => m == real_module(entries, m.info.path, pr),
            Err(_) => false,
        }
    }
}

/// The graph invariant a build maintains: ids are unique and every record is
/// well formed for its namespace.
pub open spec fn graph_well_formed(
    host: BuildHostView,
    plugins: Seq<PluginView>,
    entries: Seq<Seq<char>>,
    g: Seq<ModuleView>,
) -> bool {
    &&& unique_ids(g)
    &&& forall|i: int| 0 <= i < g.len() ==> external_well_formed(#[trigger] g[i])
    &&& forall|i: int|
        0 <= i < g.len() ==> real_well_formed(host, plugins, entries, #[trigger] g[i])
}

/// Integrating a module's dependencies preserves the graph invariant: the
/// only records it adds are external placeholders, each inserted only when
/// its id is absent.
proof fn lemma_integrate_wf(
    host: BuildHostView,
    plugins: Seq<PluginView>,
    entries: Seq<Seq<char>>,
    resolved: Seq<ResolvedDepView>,
    g: Seq<ModuleView>,
    seen: Set<Seq<char>>,
)
    requires
        graph_well_formed(host, plugins, entries, g),
    ensures
        graph_well_formed(host, plugins, entries, integrate(resolved, g, seen).graph),
    decreases resolved.len(),
{
    if resolved.len() > 0 {
        lemma_integrate_wf(host, plugins, entries, resolved.drop_last(), g, seen);
        let sofar = integrate(resolved.drop_last(), g, seen);
        let rd = resolved.last();
        match rd.resolution {
            ResolutionView::External(name) => {
                if !graph_has_id(sofar.graph, external_id(rd.specifier)) {
                    let em = external_module(rd.specifier, name);
                    let g2 = sofar.graph.push(em);
                    assert forall|i: int, j: int| 0 <= i < j < g2.len() implies g2[i].id
                        != g2[j].id by {
                        if j == g2.len() - 1 {
                            assert(g2[i] == sofar.graph[i]);
                        }
                    }
                    assert(graph_well_formed(host, plugins, entries, g2));
                }
            },
            ResolutionView::Absolute(_) => {},
        }
    }
}

/// Inserting a finished real module preserves the graph invariant.
proof fn lemma_upsert_wf(
    host: BuildHostView,
    plugins: Seq<PluginView>,
    entries: Seq<Seq<char>>,
    g: Seq<ModuleView>,
    m: ModuleView,
)
    requires
        graph_well_formed(host, plugins, entries, g),
        !m.id.external,
        m.id.key == m.info.path,
        match process_path(host, plugins, m.info.path) {
            Ok(pr) => m == real_module(entries, m.info.path, pr),
            Err(_) => false,
        },
    ensures
        graph_well_formed(host, plugins, entries, upsert(g, m)),
{
    crate::module_graph::lemma_graph_index_of_has(g, m.id);
    match graph_index_of(g, m.id) {
        Some(i) => {
            let g2 = g.update(i, m);
            assert(g[i].id == m.id);
            assert forall|a: int, b: int| 0 <= a < b < g2.len() implies g2[a].id != g2[b].id by {
                if a != i && b != i {
                    assert(g2[a] == g[a] && g2[b] == g[b]);
                }
            }
            assert(graph_well_formed(host, plugins, entries, g2));
        },
        None => {
            let g2 = g.push(m);
            assert forall|a: int, b: int| 0 <= a < b < g2.len() implies g2[a].id != g2[b].id by {
                if b == g2.len() - 1 {
                    assert(g2[a] == g[a]);
                }
            }
            assert(graph_well_formed(host, plugins, entries, g2));
        },
    }
}

/// The worklist traversal preserves the graph invariant: every graph a
/// successful run returns is well formed.
proof fn lemma_build_rec_wf(
    host: BuildHostView,
    plugins: Seq<PluginView>,
    entries: Seq<Seq<char>>,
    universe: Set<Seq<char>>,
    worklist: Seq<Seq<char>>,
    seen: Set<Seq<char>>,
    g: Seq<ModuleView>,
)
    requires
        graph_well_formed(host, plugins, entries, g),
    ensures
        build_rec(host, plugins, entries, universe, worklist, seen, g) matches Ok(out)
            ==> graph_well_formed(host, plugins, entries, out),
    decreases universe.difference(seen).len(), worklist.len(),
{
    if worklist.len() > 0 {
        let p = worklist[0];
        if seen.contains(p) || !universe.finite() || !universe.contains(p) || !seen.finite() {
            lemma_build_rec_wf(host, plugins, entries, universe, worklist.drop_first(), seen, g);
        } else {
            universe.lemma_set_insert_diff_decreases(seen, p);
            match process_path(host, plugins, p) {
                Err(_) => {},
                Ok(pr) => {
                    let seen1 = seen.insert(p);
                    let ig = integrate(pr.resolved, g, seen1);
                    lemma_integrate_wf(host, plugins, entries, pr.resolved, g, seen1);
                    let m = real_module(entries, p, pr);
                    lemma_upsert_wf(host, plugins, entries, ig.graph, m);
                    lemma_build_rec_wf(
                        host,
                        plugins,
                        entries,
                        universe,
                        worklist.drop_first() + ig.pushes,
                        seen1,
                        upsert(ig.graph, m),
                    );
                },
            }
        }
    }
}

/// Every edge's target is accounted for: an external target already has its
/// record, a real target is either already processed or still pending.
pub open spec fn dep_targets_tracked(
    g: Seq<ModuleView>,
    seen: Set<Seq<char>>,
    pending: Set<Seq<char>>,
) -> bool {
    forall|i: int, j: int|
        0 <= i < g.len() && 0 <= j < g[i].deps.len() ==> {
            let t = (#[trigger] g[i].deps[j]).target;
            if t.external {
                graph_has_id(g, t)
            } else {
                seen.contains(t.key) || pending.contains(t.key)
            }
        }
}

/// Every seen path has its real record in the graph.
pub open spec fn seen_materialized(g: Seq<ModuleView>, seen: Set<Seq<char>>) -> bool {
    forall|s: Seq<char>| #[trigger] seen.contains(s) ==> graph_has_id(g, real_id(s))
}

/// What integrating dependencies adds and guarantees: existing records stay
/// in place, the additions are edge-free placeholders, every external
/// dependency's placeholder is present afterwards, every absolute target is
/// seen or queued, and everything queued is an admissible target.
proof fn lemma_integrate_presence(
    universe: Set<Seq<char>>,
    resolved: Seq<ResolvedDepView>,
    g: Seq<ModuleView>,
    seen: Set<Seq<char>>,
)
    requires
        forall|k: int|
            0 <= k < resolved.len() ==> ((#[trigger] resolved[k]).resolution matches
                ResolutionView::Absolute(q) ==> universe.contains(q)),
    ensures
        g.len() <= integrate(resolved, g, seen).graph.len(),
        forall|i: int|
            0 <= i < g.len() ==> #[trigger] integrate(resolved, g, seen).graph[i] == g[i],
        forall|i: int|
            g.len() <= i < integrate(resolved, g, seen).graph.len() ==> (#[trigger] integrate(
                resolved,
                g,
                seen,
            ).graph[i]).deps.len() == 0,
        forall|id: ModuleIdView|
            #[trigger] graph_has_id(g, id) ==> graph_has_id(integrate(resolved, g, seen).graph, id),
        forall|k: int|
            0 <= k < resolved.len() ==> ((#[trigger] resolved[k]).resolution matches
                ResolutionView::External(_) ==> graph_has_id(
                integrate(resolved, g, seen).graph,
                external_id(resolved[k].specifier),
            )),
        forall|k: int|
            0 <= k < resolved.len() ==> ((#[trigger] resolved[k]).resolution matches
                ResolutionView::Absolute(q) ==> (seen.contains(q) || integrate(
                resolved,
                g,
                seen,
            ).pushes.to_set().contains(q))),
        forall|x: Seq<char>|
            #[trigger] integrate(resolved, g, seen).pushes.to_set().contains(x)
                ==> universe.contains(x),
    decreases resolved.len(),
{
    if resolved.len() > 0 {
        lemma_integrate_presence(universe, resolved.drop_last(), g, seen);
        let sofar = integrate(resolved.drop_last(), g, seen);
        let ig = integrate(resolved, g, seen);
        let rd = resolved.last();
        assert forall|id: ModuleIdView|
            #[trigger] graph_has_id(sofar.graph, id) implies graph_has_id(ig.graph, id) by {
            let w = choose|i: int| 0 <= i < sofar.graph.len() && sofar.graph[i].id == id;
            assert(ig.graph[w].id == id);
        }
        assert forall|x: Seq<char>|
            #[trigger] sofar.pushes.to_set().contains(x) implies ig.pushes.to_set().contains(
            x,
        ) by {
            let w = choose|i: int| 0 <= i < sofar.pushes.len() && sofar.pushes[i] == x;
            assert(ig.pushes[w] == x);
        }
        match rd.resolution {
            ResolutionView::External(_) => {
                if !graph_has_id(sofar.graph, external_id(rd.specifier)) {
                    assert(ig.graph.last().id == external_id(rd.specifier));
                }
                assert(graph_has_id(ig.graph, external_id(rd.specifier)));
            },
            ResolutionView::Absolute(q) => {
                if !seen.contains(q) {
                    assert(ig.pushes.last() == q);
                    assert(ig.pushes.to_set().contains(q));
                }
            },
        }
        assert forall|x: Seq<char>|
            #[trigger] ig.pushes.to_set().contains(x) implies universe.contains(x) by {
            let w = choose|i: int| 0 <= i < ig.pushes.len() && ig.pushes[i] == x;
            if w < sofar.pushes.len() {
                assert(sofar.pushes[w] == x);
                assert(sofar.pushes.to_set().contains(x));
            }
        }
        assert forall|k: int|
            0 <= k < resolved.len() implies ((#[trigger] resolved[k]).resolution matches
            ResolutionView::External(_) ==> graph_has_id(
            ig.graph,
            external_id(resolved[k].specifier),
        )) by {
            if k < resolved.len() - 1 {
                assert(resolved.drop_last()[k] == resolved[k]);
            }
        }
        assert forall|k: int|
            0 <= k < resolved.len() implies ((#[trigger] resolved[k]).resolution matches
            ResolutionView::Absolute(t) ==> (seen.contains(t) || ig.pushes.to_set().contains(
            t,
        ))) by {
            if k < resolved.len() - 1 {
                assert(resolved.drop_last()[k] == resolved[k]);
                match resolved[k].resolution {
                    ResolutionView::Absolute(t) => {
                        if !seen.contains(t) {
                            assert(sofar.pushes.to_set().contains(t));
                        }
                    },
                    _ => {},
                }
            }
        }
    }
}

/// Upserting keeps every id present, adds the module's own id, and changes
/// no other record.
proof fn lemma_upsert_presence(g: Seq<ModuleView>, m: ModuleView)
    ensures
        forall|id: ModuleIdView|
            #[trigger] graph_has_id(g, id) ==> graph_has_id(upsert(g, m), id),
        graph_has_id(upsert(g, m), m.id),
        forall|i: int|
            0 <= i < upsert(g, m).len() ==> (#[trigger] upsert(g, m)[i] == m || (i < g.len()
                && upsert(g, m)[i] == g[i])),
{
    crate::module_graph::lemma_graph_index_of_has(g, m.id);
    match graph_index_of(g, m.id) {
        Some(i) => {
            assert(g[i].id == m.id);
            assert(upsert(g, m)[i] == m);
            assert forall|id: ModuleIdView|
                #[trigger] graph_has_id(g, id) implies graph_has_id(upsert(g, m), id) by {
                let w = choose|k: int| 0 <= k < g.len() && g[k].id == id;
                if w == i {
                    assert(upsert(g, m)[i].id == id);
                } else {
                    assert(upsert(g, m)[w].id == id);
                }
            }
        },
        None => {
            assert(upsert(g, m).last() == m);
            assert forall|id: ModuleIdView|
                #[trigger] graph_has_id(g, id) implies graph_has_id(upsert(g, m), id) by {
                let w = choose|k: int| 0 <= k < g.len() && g[k].id == id;
                assert(upsert(g, m)[w].id == id);
            }
        },
    }
}

/// The worklist traversal discharges every pending target: in a successful
/// run's graph, every edge's target record is present.
#[verifier::rlimit(60)]
proof fn lemma_build_rec_complete(
    host: BuildHostView,
    plugins: Seq<PluginView>,
    entries: Seq<Seq<char>>,
    universe: Set<Seq<char>>,
    worklist: Seq<Seq<char>>,
    seen: Set<Seq<char>>,
    g: Seq<ModuleView>,
)
    requires
        universe.finite(),
        seen.finite(),
        forall|k: int| 0 <= k < worklist.len() ==> universe.contains(#[trigger] worklist[k]),
        resolution_targets(host.resolutions).subset_of(universe),
        dep_targets_tracked(g, seen, worklist.to_set()),
        seen_materialized(g, seen),
    ensures
        build_rec(host, plugins, entries, universe, worklist, seen, g) matches Ok(out)
            ==> (forall|i: int, j: int|
            0 <= i < out.len() && 0 <= j < out[i].deps.len() ==> graph_has_id(
                out,
                (#[trigger] out[i].deps[j]).target,
            )),
    decreases universe.difference(seen).len(), worklist.len(),
{
    if worklist.len() == 0 {
        assert forall|i: int, j: int|
            0 <= i < g.len() && 0 <= j < g[i].deps.len() implies graph_has_id(
            g,
            (#[trigger] g[i].deps[j]).target,
        ) by {
            let t = g[i].deps[j].target;
            if !t.external {
                assert(!worklist.to_set().contains(t.key));
                assert(seen.contains(t.key));
            }
        }
    } else {
        let p = worklist[0];
        let rest = worklist.drop_first();
        assert(universe.contains(p));
        assert forall|x: Seq<char>|
            #[trigger] worklist.to_set().contains(x) implies (x == p
                || rest.to_set().contains(x)) by {
            let w = choose|i: int| 0 <= i < worklist.len() && worklist[i] == x;
            if w > 0 {
                assert(rest[w - 1] == x);
            }
        }
        if seen.contains(p) {
            assert(dep_targets_tracked(g, seen, rest.to_set()));
            lemma_build_rec_complete(host, plugins, entries, universe, rest, seen, g);
        } else {
            universe.lemma_set_insert_diff_decreases(seen, p);
            match process_path(host, plugins, p) {
                Err(_) => {},
                Ok(pr) => {
                    let seen1 = seen.insert(p);
                    let ig = integrate(pr.resolved, g, seen1);
                    let m = real_module(entries, p, pr);
                    let g2 = upsert(ig.graph, m);
                    let wl2 = rest + ig.pushes;
                    lemma_process_resolved(host, plugins, p);
                    assert forall|k: int|
                        0 <= k < pr.resolved.len() implies ((#[trigger] pr.resolved[k]).resolution
                        matches ResolutionView::Absolute(q) ==> universe.contains(q)) by {
                        match pr.resolved[k].resolution {
                            ResolutionView::Absolute(q) => {
                                lemma_lookup_target(
                                    host.resolutions,
                                    p,
                                    pr.resolved[k].specifier,
                                    q,
                                );
                            },
                            _ => {},
                        }
                    }
                    lemma_integrate_presence(universe, pr.resolved, g, seen1);
                    lemma_upsert_presence(ig.graph, m);
                    assert forall|x: Seq<char>|
                        #[trigger] wl2.to_set().contains(x) implies (rest.to_set().contains(x)
                        || ig.pushes.to_set().contains(x)) by {
                        let w = choose|i: int| 0 <= i < wl2.len() && wl2[i] == x;
                        if w < rest.len() {
                            assert(rest[w] == x);
                        } else {
                            assert(ig.pushes[w - rest.len()] == x);
                        }
                    }
                    assert forall|k: int| 0 <= k < wl2.len() implies universe.contains(
                        #[trigger] wl2[k],
                    ) by {
                        if k < rest.len() {
                            assert(wl2[k] == rest[k]);
                        } else {
                            assert(wl2[k] == ig.pushes[k - rest.len()]);
                            assert(ig.pushes.to_set().contains(wl2[k]));
                        }
                    }
                    assert(seen_materialized(g2, seen1));
                    assert forall|i: int, j: int|
                        0 <= i < g2.len() && 0 <= j < g2[i].deps.len() implies {
                        let t = (#[trigger] g2[i].deps[j]).target;
                        if t.external {
                            graph_has_id(g2, t)
                        } else {
                            seen1.contains(t.key) || wl2.to_set().contains(t.key)
                        }
                    } by {
                        let t = g2[i].deps[j].target;
                        if g2[i] == m {
                            assert(m.deps[j] == dep_edge(pr.resolved[j]));
                            match pr.resolved[j].resolution {
                                ResolutionView::Absolute(q) => {
                                    if !seen1.contains(q) {
                                        assert(ig.pushes.to_set().contains(q));
                                        let w = choose|a: int|
                                            0 <= a < ig.pushes.len() && ig.pushes[a] == q;
                                        assert(wl2[rest.len() + w] == q);
                                        assert(wl2.to_set().contains(q));
                                    }
                                },
                                ResolutionView::External(_) => {
                                    assert(graph_has_id(
                                        ig.graph,
                                        external_id(pr.resolved[j].specifier),
                                    ));
                                },
                            }
                        } else {
                            assert(i < ig.graph.len() && g2[i] == ig.graph[i]);
                            if i < g.len() {
                                assert(g2[i] == g[i]);
                                if t.external {
                                    assert(graph_has_id(g, t));
                                } else {
                                    assert(seen.contains(t.key) || worklist.to_set().contains(
                                        t.key,
                                    ));
                                    if worklist.to_set().contains(t.key) && t.key != p
                                        && !seen.contains(t.key) {
                                        assert(rest.to_set().contains(t.key));
                                        let w = choose|a: int|
                                            0 <= a < rest.len() && rest[a] == t.key;
                                        assert(wl2[w] == t.key);
                                        assert(wl2.to_set().contains(t.key));
                                    }
                                }
                            } else {
                                assert(ig.graph[i].deps.len() == 0);
                            }
                        }
                    }
                    lemma_build_rec_complete(host, plugins, entries, universe, wl2, seen1, g2);
                },
            }
        }
    }
}

/// One edge agrees with the resolver: an absolute answer gives the target id
/// derived from the resolved path, an external answer gives the placeholder
/// id derived from the specifier.
pub open spec fn edge_follows_resolver(host: BuildHostView, m: ModuleView, j: int) -> bool {
    match resolve_lookup(host.resolutions, m.info.path, m.deps[j].specifier) {
        Some(ResolutionView::Absolute(q)) => m.deps[j].target == real_id(q),
        Some(ResolutionView::External(_)) => m.deps[j].target == external_id(m.deps[j].specifier),
        None => false,
    }
}

/// The module ids a graph carries.
pub open spec fn graph_ids(g: Seq<ModuleView>) -> Set<ModuleIdView> {
    Set::new(|id: ModuleIdView| exists|i: int| 0 <= i < g.len() && (#[trigger] g[i]).id == id)
}

/// The labeled edges a graph carries, as (importer id, specifier, target id)
/// triples.
pub open spec fn edge_labels(g: Seq<ModuleView>) -> Set<(ModuleIdView, Seq<char>, ModuleIdView)> {
    Set::new(
        |e: (ModuleIdView, Seq<char>, ModuleIdView)|
            exists|i: int, j: int|
                0 <= i < g.len() && 0 <= j < (#[trigger] g[i]).deps.len() && e == (
                    g[i].id,
                    #[trigger] g[i].deps[j].specifier,
                    g[i].deps[j].target,
                ),
    )
}

/// Dedup invariant: a successful build's graph holds at most one record per
/// module id, and every dependency edge's target is the id the resolver's
/// answer derives—so any two import paths resolving to the same absolute
/// path point at one and the same module record.
pub proof fn lemma_dedup_invariant(
    host: BuildHostView,
    plugins: Seq<PluginView>,
    entries: Seq<Seq<char>>,
    g: Seq<ModuleView>,
)
    requires
        build_spec(host, plugins, entries) == Ok::<Seq<ModuleView>, BuildErrorView>(g),
    ensures
        unique_ids(g),
        forall|i: int, j: int|
            0 <= i < g.len() && !g[i].id.external && 0 <= j < g[i].deps.len()
                ==> #[trigger] edge_follows_resolver(host, g[i], j),
        forall|i: int, j: int|
            0 <= i < g.len() && 0 <= j < g[i].deps.len() ==> graph_has_id(
                g,
                (#[trigger] g[i].deps[j]).target,
            ),
{
    lemma_build_spec_wf(host, plugins, entries);
    let universe = build_universe(host, entries);
    lemma_targets_finite(host.resolutions);
    assert forall|k: int| 0 <= k < entries.len() implies universe.contains(
        #[trigger] entries[k],
    ) by {
        assert(entries.to_set().contains(entries[k]));
    }
    lemma_build_rec_complete(
        host,
        plugins,
        entries,
        universe,
        entries,
        Set::empty(),
        Seq::empty(),
    );
    assert forall|i: int, j: int|
        0 <= i < g.len() && !g[i].id.external && 0 <= j
            < g[i].deps.len() implies #[trigger] edge_follows_resolver(host, g[i], j) by {
        let m = g[i];
        let pr = process_path(host, plugins, m.info.path)->Ok_0;
        lemma_process_resolved(host, plugins, m.info.path);
        assert(m.deps[j] == dep_edge(pr.resolved[j]));
    }
}

/// A successful build's graph is well formed.
proof fn lemma_build_spec_wf(
    host: BuildHostView,
    plugins: Seq<PluginView>,
    entries: Seq<Seq<char>>,
)
    ensures
        build_spec(host, plugins, entries) matches Ok(g) ==> graph_well_formed(
            host,
            plugins,
            entries,
            g,
        ),
{
    let e: Seq<ModuleView> = Seq::empty();
    assert(graph_well_formed(host, plugins, entries, e));
    lemma_build_rec_wf(
        host,
        plugins,
        entries,
        build_universe(host, entries),
        entries,
        Set::empty(),
        e,
    );
}

/// External isolation: every external record of a successful build's graph
/// is a pure placeholder—its code deterministically matches the fixed
/// re-export template for its runtime name, it carries no syntax tree, no
/// outgoing edges and no entry flag, so nothing about it was ever loaded,
/// parsed or transformed.  Only absolute resolver targets are ever queued.
pub proof fn lemma_external_isolation(
    host: BuildHostView,
    plugins: Seq<PluginView>,
    entries: Seq<Seq<char>>,
    g: Seq<ModuleView>,
)
    requires
        build_spec(host, plugins, entries) == Ok::<Seq<ModuleView>, BuildErrorView>(g),
    ensures
        forall|i: int| 0 <= i < g.len() ==> external_well_formed(#[trigger] g[i]),
{
    lemma_build_spec_wf(host, plugins, entries);
}

/// Idempotence: running the orchestrator twice over an unchanged file tree
/// and extension list yields graphs with identical module-id sets and
/// identical edge-label sets—indeed, identical graphs.
pub proof fn lemma_idempotence(
    host: BuildHostView,
    plugins: Seq<PluginView>,
    entries: Seq<Seq<char>>,
    g1: Seq<ModuleView>,
    g2: Seq<ModuleView>,
)
    requires
        build_spec(host, plugins, entries) == Ok::<Seq<ModuleView>, BuildErrorView>(g1),
        build_spec(host, plugins, entries) == Ok::<Seq<ModuleView>, BuildErrorView>(g2),
    ensures
        g1 == g2,
        graph_ids(g1) == graph_ids(g2),
        edge_labels(g1) == edge_labels(g2),
{
}

/// The worklist loop: pops a path, skips it when seen, otherwise runs the
/// pipeline, inserts the external placeholders and queues the fresh targets
/// of its dependencies, and inserts the finished module.
#[verifier::rlimit(60)]
#[verifier::loop_isolation(false)]
fn run_worklist(
    host: &BuildHost,
    driver: &PluginDriver,
    entries: &Vec<String>,
    worklist: Vec<String>,
    seen: Vec<String>,
    graph: ModuleGraph,
    Ghost(universe): Ghost<Set<Seq<char>>>,
) -> (r: Result<ModuleGraph, BuildError>)
    requires
        universe.finite(),
        forall|k: int|
            0 <= k < worklist.deep_view().len() ==> universe.contains(
                #[trigger] worklist.deep_view()[k],
            ),
        resolution_targets(host@.resolutions).subset_of(universe),
    ensures
        build_result_view(r) == build_rec(
            host@,
            driver@,
            entries.deep_view(),
            universe,
            worklist.deep_view(),
            seen.deep_view().to_set(),
            graph@,
        ),
{
    let ghost hv = host@;
    let ghost pv = driver@;
    let ghost ev = entries.deep_view();
    let ghost target = build_rec(
        hv,
        pv,
        ev,
        universe,
        worklist.deep_view(),
        seen.deep_view().to_set(),
        graph@,
    );
    let mut wl = worklist;
    let mut sn = seen;
    let mut g = graph;
    while wl.len() > 0
        invariant
            hv == host@,
            pv == driver@,
            ev == entries.deep_view(),
            universe.finite(),
            resolution_targets(hv.resolutions).subset_of(universe),
            forall|k: int|
                0 <= k < wl.deep_view().len() ==> universe.contains(#[trigger] wl.deep_view()[k]),
            build_rec(hv, pv, ev, universe, wl.deep_view(), sn.deep_view().to_set(), g@)
                == target,
        decreases universe.difference(sn.deep_view().to_set()).len(), wl.len(),
    {
        let ghost wl_pre = wl.deep_view();
        let ghost sn_set = sn.deep_view().to_set();
        let ghost g_pre = g@;
        let p = wl.remove(0);
        proof {
            assert(wl.deep_view() =~= wl_pre.drop_first());
            assert(p.deep_view() == wl_pre[0]);
        }
        let already = vec_contains_string(&sn, &p);
        if already {
            proof {
                assert(sn_set.contains(p@));
                assert(build_rec(hv, pv, ev, universe, wl_pre, sn_set, g_pre) == build_rec(
                    hv,
                    pv,
                    ev,
                    universe,
                    wl_pre.drop_first(),
                    sn_set,
                    g_pre,
                ));
            }
        } else {
            proof {
                assert(!sn_set.contains(p@));
                assert(universe.contains(p@));
            }
            let is_entry = vec_contains_string(entries, &p);
            match process_one(host, driver, &p, is_entry) {
                Err(e) => {
                    proof {
                        assert(build_rec(hv, pv, ev, universe, wl_pre, sn_set, g_pre) == Err::<
                            Seq<ModuleView>,
                            _,
                        >(e@));
                    }
                    return Err(e);
                },
                Ok(pr) => {
                    let ghost prv = pr@;
                    let ghost sn_seq_pre = sn.deep_view();
                    sn.push(p.clone());
                    let ghost seen1 = sn_set.insert(p@);
                    proof {
                        assert(sn.deep_view() =~= sn_seq_pre.push(p@));
                        lemma_push_to_set(sn_seq_pre, p@);
                        assert(sn.deep_view().to_set() =~= seen1);
                        lemma_process_resolved(hv, pv, p@);
                    }
                    let ghost rv = prv.resolved;
                    let ghost wl_rest = wl.deep_view();
                    let mut depv: Vec<Dependency> = Vec::new();
                    proof {
                        assert(rv.take(0) =~= Seq::<ResolvedDepView>::empty());
                        assert(depv@.map_values(|d: Dependency| d@)
                            =~= Seq::<DependencyView>::empty());
                        assert(module_deps(rv.take(0)) =~= Seq::<DependencyView>::empty());
                        assert(wl.deep_view() =~= wl_rest + integrate(
                            rv.take(0),
                            g_pre,
                            seen1,
                        ).pushes);
                    }
                    let mut j: usize = 0;
                    while j < pr.resolved.len()
                        invariant
                            j <= pr.resolved.len(),
                            hv == host@,
                            universe.finite(),
                            resolution_targets(hv.resolutions).subset_of(universe),
                            rv == pr@.resolved,
                            rv.len() == pr.resolved.len(),
                            forall|k: int|
                                0 <= k < rv.len() ==> resolve_lookup(
                                    hv.resolutions,
                                    p@,
                                    (#[trigger] rv[k]).specifier,
                                ) == Some(rv[k].resolution),
                            g@ == integrate(rv.take(j as int), g_pre, seen1).graph,
                            wl.deep_view() == wl_rest + integrate(rv.take(j as int), g_pre, seen1).pushes,
                            depv@.map_values(|d: Dependency| d@) == module_deps(rv.take(j as int)),
                            forall|k: int|
                                0 <= k < wl.deep_view().len() ==> universe.contains(
                                    #[trigger] wl.deep_view()[k],
                                ),
                        decreases pr.resolved.len() - j,
                    {
                        proof {
                            assert(rv.take(j + 1).drop_last() =~= rv.take(j as int));
                            assert(rv.take(j + 1).last() == rv[j as int]);
                        }
                        let rd = &pr.resolved[j];
                        proof {
                            assert(rd@ == rv[j as int]);
                        }
                        let ghost dep_pre = depv@.map_values(|d: Dependency| d@);
                        match &rd.resolution {
                            Resolution::External(name) => {
                                let placeholder_id = ModuleId {
                                    external: true,
                                    key: rd.specifier.clone(),
                                };
                                let present = g.contains_id(&placeholder_id);
                                if !present {
                                    let stub = external_stub_code(name.as_str());
                                    let m = Module {
                                        id: placeholder_id,
                                        info: ModuleInfo {
                                            path: rd.specifier.clone(),
                                            external_name: Some(name.clone()),
                                            is_entry: false,
                                            code: stub,
                                            ast: ModuleAst::Absent,
                                        },
                                        deps: Vec::new(),
                                    };
                                    proof {
                                        assert(m@.deps =~= Seq::<DependencyView>::empty());
                                        assert(m@ == external_module(
                                            rv[j as int].specifier,
                                            name@,
                                        ));
                                    }
                                    let ghost g_in = g@;
                                    g.modules.push(m);
                                    proof {
                                        assert(g@ =~= g_in.push(m@));
                                        assert(g@ == integrate(rv.take(j + 1), g_pre, seen1).graph);
                                    }
                                } else {
                                    proof {
                                        assert(g@ == integrate(rv.take(j + 1), g_pre, seen1).graph);
                                    }
                                }
                                depv.push(
                                    Dependency {
                                        specifier: rd.specifier.clone(),
                                        target: ModuleId {
                                            external: true,
                                            key: rd.specifier.clone(),
                                        },
                                    },
                                );
                                proof {
                                    assert(depv@.map_values(|d: Dependency| d@) =~= dep_pre.push(
                                        dep_edge(rv[j as int]),
                                    ));
                                    assert(module_deps(rv.take(j + 1)) =~= dep_pre.push(
                                        dep_edge(rv[j as int]),
                                    ));
                                    assert(wl.deep_view() == wl_rest + integrate(
                                        rv.take(j + 1),
                                        g_pre,
                                        seen1,
                                    ).pushes);
                                }
                            },
                            Resolution::Absolute(q) => {
                                let fresh = !vec_contains_string(&sn, q);
                                let ghost wl_in = wl.deep_view();
                                if fresh {
                                    wl.push(q.clone());
                                    proof {
                                        assert(wl.deep_view() =~= wl_in.push(q@));
                                        lemma_lookup_target(
                                            hv.resolutions,
                                            p@,
                                            rv[j as int].specifier,
                                            q@,
                                        );
                                        assert(universe.contains(q@));
                                        assert(wl.deep_view() =~= wl_rest + integrate(
                                            rv.take(j + 1),
                                            g_pre,
                                            seen1,
                                        ).pushes);
                                    }
                                } else {
                                    proof {
                                        assert(seen1.contains(q@));
                                        assert(wl.deep_view() =~= wl_rest + integrate(
                                            rv.take(j + 1),
                                            g_pre,
                                            seen1,
                                        ).pushes);
                                    }
                                }
                                depv.push(
                                    Dependency {
                                        specifier: rd.specifier.clone(),
                                        target: ModuleId { external: false, key: q.clone() },
                                    },
                                );
                                proof {
                                    assert(depv@.map_values(|d: Dependency| d@) =~= dep_pre.push(
                                        dep_edge(rv[j as int]),
                                    ));
                                    assert(module_deps(rv.take(j + 1)) =~= dep_pre.push(
                                        dep_edge(rv[j as int]),
                                    ));
                                    assert(g@ == integrate(rv.take(j + 1), g_pre, seen1).graph);
                                }
                            },
                        }
                        j += 1;
                    }
                    proof {
                        assert(rv.take(rv.len() as int) =~= rv);
                    }
                    let m = Module {
                        id: ModuleId { external: false, key: p.clone() },
                        info: ModuleInfo {
                            path: p.clone(),
                            external_name: None,
                            is_entry,
                            code: pr.code,
                            ast: pr.ast,
                        },
                        deps: depv,
                    };
                    proof {
                        assert(m@.deps == module_deps(rv));
                        assert(m@ == real_module(ev, p@, prv));
                    }
                    upsert_module(&mut g, m);
                    proof {
                        universe.lemma_set_insert_diff_decreases(sn_set, p@);
                        assert(g@ == upsert(
                            integrate(rv, g_pre, seen1).graph,
                            real_module(ev, p@, prv),
                        ));
                        assert(build_rec(hv, pv, ev, universe, wl_pre, sn_set, g_pre)
                            == build_rec(
                            hv,
                            pv,
                            ev,
                            universe,
                            wl_pre.drop_first() + integrate(rv, g_pre, seen1).pushes,
                            seen1,
                            upsert(integrate(rv, g_pre, seen1).graph, real_module(ev, p@, prv)),
                        ));
                        assert(wl.deep_view() == wl_pre.drop_first() + integrate(
                            rv,
                            g_pre,
                            seen1,
                        ).pushes);
                    }
                },
            }
        }
    }
    proof {
        assert(build_rec(hv, pv, ev, universe, wl.deep_view(), sn.deep_view().to_set(), g@)
            == Ok::<_, BuildErrorView>(g@));
    }
    Ok(g)
}

/// Builds the module graph for the given entry paths: every module
/// transitively reachable from the entries is present exactly once, external
/// dependencies become placeholder nodes, and any phase failure aborts the
/// whole build.  The result is exactly what [`build_spec`] denotes.
pub fn build(host: &BuildHost, driver: &PluginDriver, entries: &Vec<String>) -> (r: Result<
    ModuleGraph,
    BuildError,
>)
    ensures
        build_result_view(r) == build_spec(host@, driver@, entries.deep_view()),
{
    let wl = clone_paths(entries);
    let seen0: Vec<String> = Vec::new();
    let g0 = ModuleGraph::new();
    let ghost universe = build_universe(host@, entries.deep_view());
    proof {
        lemma_targets_finite(host@.resolutions);
        assert(universe.finite());
        assert forall|k: int| 0 <= k < wl.deep_view().len() implies universe.contains(
            #[trigger] wl.deep_view()[k],
        ) by {
            assert(entries.deep_view().contains(entries.deep_view()[k]));
        }
        assert(seen0.deep_view().to_set() =~= Set::<Seq<char>>::empty());
    }
    run_worklist(host, driver, entries, wl, seen0, g0, Ghost(universe))
}

/// Incrementally rebuilds after a change: only the changed paths re-run the
/// pipeline; every other real module counts as already seen, keeps its
/// record, and keeps its edge labels.  The result is exactly what
/// [`rebuild_spec`] denotes.
pub fn rebuild(
    graph: ModuleGraph,
    changed: &Vec<String>,
    entries: &Vec<String>,
    host: &BuildHost,
    driver: &PluginDriver,
) -> (r: Result<ModuleGraph, BuildError>)
    ensures
        build_result_view(r) == rebuild_spec(
            host@,
            driver@,
            entries.deep_view(),
            changed.deep_view(),
            graph@,
        ),
{
    let wl = clone_paths(changed);
    let ghost cv = changed.deep_view().to_set();
    let mut sn: Vec<String> = Vec::new();
    proof {
        assert(sn.deep_view().to_set() =~= Set::<Seq<char>>::empty());
        assert(graph@.take(0) =~= Seq::<ModuleView>::empty());
    }
    let mut i: usize = 0;
    while i < graph.modules.len()
        invariant
            i <= graph.modules.len(),
            graph@.len() == graph.modules.len(),
            sn.deep_view().to_set() == rebuild_seen(graph@.take(i as int), cv),
            cv == changed.deep_view().to_set(),
        decreases graph.modules.len() - i,
    {
        proof {
            assert(graph@.take(i + 1).drop_last() =~= graph@.take(i as int));
            assert(graph@.take(i + 1).last() == graph@[i as int]);
        }
        let m = &graph.modules[i];
        proof {
            assert(m@ == graph@[i as int]);
        }
        if !m.id.external && !vec_contains_string(changed, &m.info.path) {
            let ghost sn_seq_pre = sn.deep_view();
            sn.push(m.info.path.clone());
            proof {
                assert(sn.deep_view() =~= sn_seq_pre.push(m@.info.path));
                lemma_push_to_set(sn_seq_pre, m@.info.path);
                assert(sn.deep_view().to_set() =~= rebuild_seen(graph@.take(i + 1), cv));
            }
        } else {
            proof {
                assert(sn.deep_view().to_set() =~= rebuild_seen(graph@.take(i + 1), cv));
            }
        }
        i += 1;
    }
    proof {
        assert(graph@.take(graph@.len() as int) =~= graph@);
    }
    let ghost universe = build_universe(host@, entries.deep_view()).union(
        changed.deep_view().to_set(),
    );
    proof {
        lemma_targets_finite(host@.resolutions);
        assert(universe.finite());
        assert forall|k: int| 0 <= k < wl.deep_view().len() implies universe.contains(
            #[trigger] wl.deep_view()[k],
        ) by {
            assert(changed.deep_view().contains(changed.deep_view()[k]));
        }
    }
    run_worklist(host, driver, entries, wl, sn, graph, Ghost(universe))
}

} // verus!
