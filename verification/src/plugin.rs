//! The extension dispatcher.
//!
//! Extensions are registered once, in order, and the driver exposes one call
//! per extensible phase.  Config-mutation calls apply every extension in
//! registration order; override calls (load, parse) return the first
//! extension's non-empty answer; the build-success notification invokes every
//! extension until the first failure; the runtime-glue aggregation
//! concatenates every contribution, newline-joined.  Precedence is purely
//! registration order.
//!
//! An extension is modeled as a closed capability record: a table of load and
//! parse answers keyed by path, a list of configuration edits, a
//! notification outcome, and runtime glue snippets.  The dispatcher's
//! contracts pin each call to a recursive first-match specification over the
//! registered list.

use vstd::prelude::*;
use vstd::string::*;
use crate::config::{apply_edits, Config, ConfigEdit, ConfigEditView, ConfigView};
use crate::module_graph::{Content, ContentView, ModuleAst, ModuleAstView};

verus! {

/// The phase in which an extension reported failure.
#[derive(Clone, Copy, PartialEq, Eq, Structural, Debug)]
pub enum PluginPhase {
    ModifyConfig,
    Load,
    Parse,
    BuildSuccess,
}

/// Failure of one extension, identified by name and phase.
#[derive(Debug)]
pub struct PluginError {
    pub plugin: String,
    pub phase: PluginPhase,
}

/// Mathematical form of [`PluginError`].
pub struct PluginErrorView {
    pub plugin: Seq<char>,
    pub phase: PluginPhase,
}

impl View for PluginError {
    type V = PluginErrorView;

    open spec fn view(&self) -> PluginErrorView {
        PluginErrorView { plugin: self.plugin@, phase: self.phase }
    }
}

/// What the load phase hands to an extension.
pub struct PluginLoadParam {
    pub path: String,
    pub is_entry: bool,
    pub ext_name: String,
}

/// A load request's identity as the parse phase sees it.
pub struct FileRequest {
    pub path: String,
}

/// What the parse phase hands to an extension: the request plus the loaded
/// content.
pub struct PluginParseParam {
    pub request: FileRequest,
    pub content: Content,
}

/// One extension's answer for one path, in its load or parse table.
pub enum LoadDecision {
    /// The extension supplies the content itself.
    Supply(Content),
    /// The extension fails the phase for this path.
    Fail,
}

/// Mathematical form of [`LoadDecision`].
pub enum LoadDecisionView {
    Supply(ContentView),
    Fail,
}

impl View for LoadDecision {
    type V = LoadDecisionView;

    open spec fn view(&self) -> LoadDecisionView {
        match self {
            LoadDecision::Supply(c) => LoadDecisionView::Supply(c@),
            LoadDecision::Fail => LoadDecisionView::Fail,
        }
    }
}

/// One extension's parse answer for one path.
pub enum ParseDecision {
    Supply(ModuleAst),
    Fail,
}

/// Mathematical form of [`ParseDecision`].
pub enum ParseDecisionView {
    Supply(ModuleAstView),
    Fail,
}

impl View for ParseDecision {
    type V = ParseDecisionView;

    open spec fn view(&self) -> ParseDecisionView {
        match self {
            ParseDecision::Supply(a) => ParseDecisionView::Supply(a@),
            ParseDecision::Fail => ParseDecisionView::Fail,
        }
    }
}

/// A load-table row: the path it answers for and the answer.
pub struct LoadRule {
    pub path: String,
    pub decision: LoadDecision,
}

/// Mathematical form of [`LoadRule`].
pub struct LoadRuleView {
    pub path: Seq<char>,
    pub decision: LoadDecisionView,
}

impl View for LoadRule {
    type V = LoadRuleView;

    open spec fn view(&self) -> LoadRuleView {
        LoadRuleView { path: self.path@, decision: self.decision@ }
    }
}

/// A parse-table row.
pub struct ParseRule {
    pub path: String,
    pub decision: ParseDecision,
}

/// Mathematical form of [`ParseRule`].
pub struct ParseRuleView {
    pub path: Seq<char>,
    pub decision: ParseDecisionView,
}

impl View for ParseRule {
    type V = ParseRuleView;

    open spec fn view(&self) -> ParseRuleView {
        ParseRuleView { path: self.path@, decision: self.decision@ }
    }
}

/// One registered extension: a named, closed record of the capabilities it
/// implements.  A phase it has no row or edit for is "no opinion".
pub struct Plugin {
    pub name: String,
    /// Edits applied by the config-mutation call; ignored when `config_ok`
    /// is false.
    pub config_edits: Vec<ConfigEdit>,
    /// Whether the config-mutation call succeeds.
    pub config_ok: bool,
    pub load_rules: Vec<LoadRule>,
    pub parse_rules: Vec<ParseRule>,
    /// Whether the build-success notification succeeds.
    pub build_success_ok: bool,
    /// Runtime glue snippets this extension contributes.
    pub runtime_snippets: Vec<String>,
}

/// Mathematical form of [`Plugin`].
pub struct PluginView {
    pub name: Seq<char>,
    pub config_edits: Seq<ConfigEditView>,
    pub config_ok: bool,
    pub load_rules: Seq<LoadRuleView>,
    pub parse_rules: Seq<ParseRuleView>,
    pub build_success_ok: bool,
    pub runtime_snippets: Seq<Seq<char>>,
}

impl View for Plugin {
    type V = PluginView;

    open spec fn view(&self) -> PluginView {
        PluginView {
            name: self.name@,
            config_edits: self.config_edits@.map_values(|e: ConfigEdit| e@),
            config_ok: self.config_ok,
            load_rules: self.load_rules@.map_values(|r: LoadRule| r@),
            parse_rules: self.parse_rules@.map_values(|r: ParseRule| r@),
            build_success_ok: self.build_success_ok,
            runtime_snippets: self.runtime_snippets.deep_view(),
        }
    }
}

/// The first answer in a load table for `path`, if any.
pub open spec fn load_rule_lookup(rules: Seq<LoadRuleView>, path: Seq<char>) -> Option<
    LoadDecisionView,
>
    decreases rules.len(),
{
    if rules.len() == 0 {
        None
    } else if rules[0].path == path {
        Some(rules[0].decision)
    } else {
        load_rule_lookup(rules.drop_first(), path)
    }
}

/// The first answer in a parse table for `path`, if any.
pub open spec fn parse_rule_lookup(rules: Seq<ParseRuleView>, path: Seq<char>) -> Option<
    ParseDecisionView,
>
    decreases rules.len(),
{
    if rules.len() == 0 {
        None
    } else if rules[0].path == path {
        Some(rules[0].decision)
    } else {
        parse_rule_lookup(rules.drop_first(), path)
    }
}

/// First-match-wins over the registered list: the first extension with an
/// answer for `path` decides; if none opine the result is `Ok(None)` and the
/// default load path executes.
pub open spec fn driver_load_spec(plugins: Seq<PluginView>, path: Seq<char>) -> Result<
    Option<ContentView>,
    PluginErrorView,
>
    decreases plugins.len(),
{
    if plugins.len() == 0 {
        Ok(None)
    } else {
        match load_rule_lookup(plugins[0].load_rules, path) {
            Some(LoadDecisionView::Supply(c)) => Ok(Some(c)),
            Some(LoadDecisionView::Fail) => Err(
                PluginErrorView { plugin: plugins[0].name, phase: PluginPhase::Load },
            ),
            None => driver_load_spec(plugins.drop_first(), path),
        }
    }
}

/// First-match-wins for the parse override, as for load.
pub open spec fn driver_parse_spec(plugins: Seq<PluginView>, path: Seq<char>) -> Result<
    Option<ModuleAstView>,
    PluginErrorView,
>
    decreases plugins.len(),
{
    if plugins.len() == 0 {
        Ok(None)
    } else {
        match parse_rule_lookup(plugins[0].parse_rules, path) {
            Some(ParseDecisionView::Supply(a)) => Ok(Some(a)),
            Some(ParseDecisionView::Fail) => Err(
                PluginErrorView { plugin: plugins[0].name, phase: PluginPhase::Parse },
            ),
            None => driver_parse_spec(plugins.drop_first(), path),
        }
    }
}

/// Every extension's edits applied in registration order; the first failing
/// extension stops the chain, keeping the edits applied before it.
pub open spec fn driver_config_spec(plugins: Seq<PluginView>, c: ConfigView) -> (
    ConfigView,
    Option<PluginErrorView>,
)
    decreases plugins.len(),
{
    if plugins.len() == 0 {
        (c, None)
    } else if !plugins[0].config_ok {
        (
            c,
            Some(PluginErrorView { plugin: plugins[0].name, phase: PluginPhase::ModifyConfig }),
        )
    } else {
        driver_config_spec(plugins.drop_first(), apply_edits(c, plugins[0].config_edits))
    }
}

/// The first extension whose build-success notification fails, if any.
pub open spec fn driver_notify_spec(plugins: Seq<PluginView>) -> Option<PluginErrorView>
    decreases plugins.len(),
{
    if plugins.len() == 0 {
        None
    } else if !plugins[0].build_success_ok {
        Some(PluginErrorView { plugin: plugins[0].name, phase: PluginPhase::BuildSuccess })
    } else {
        driver_notify_spec(plugins.drop_first())
    }
}

/// Every extension's snippets, concatenated in registration order.
pub open spec fn all_snippets(plugins: Seq<PluginView>) -> Seq<Seq<char>>
    decreases plugins.len(),
{
    if plugins.len() == 0 {
        Seq::empty()
    } else {
        all_snippets(plugins.drop_last()) + plugins.last().runtime_snippets
    }
}

/// The pieces joined with one newline between adjacent pieces.
pub open spec fn join_lines(ss: Seq<Seq<char>>) -> Seq<char>
    decreases ss.len(),
{
    if ss.len() == 0 {
        Seq::empty()
    } else if ss.len() == 1 {
        ss[0]
    } else {
        join_lines(ss.drop_last()) + seq!['\n'] + ss.last()
    }
}

/// Spec-level image of a load override's result.
pub open spec fn load_result_view(r: Result<Option<Content>, PluginError>) -> Result<
    Option<ContentView>,
    PluginErrorView,
> {
    match r {
        Ok(Some(c)) => Ok(Some(c@)),
        Ok(None) => Ok(None),
        Err(e) => Err(e@),
    }
}

/// Spec-level image of a parse override's result.
pub open spec fn parse_result_view(r: Result<Option<ModuleAst>, PluginError>) -> Result<
    Option<ModuleAstView>,
    PluginErrorView,
> {
    match r {
        Ok(Some(a)) => Ok(Some(a@)),
        Ok(None) => Ok(None),
        Err(e) => Err(e@),
    }
}

/// The ordered list of registered extensions.
pub struct PluginDriver {
    pub plugins: Vec<Plugin>,
}

impl View for PluginDriver {
    type V = Seq<PluginView>;

    open spec fn view(&self) -> Seq<PluginView> {
        self.plugins@.map_values(|p: Plugin| p@)
    }
}

fn find_load_rule<'a>(rules: &'a Vec<LoadRule>, path: &String) -> (r: Option<&'a LoadRule>)
    ensures
        match r {
            Some(rule) => load_rule_lookup(rules@.map_values(|x: LoadRule| x@), path@) == Some(
                rule@.decision,
            ),
            None => load_rule_lookup(rules@.map_values(|x: LoadRule| x@), path@) is None,
        },
{
    let ghost rv = rules@.map_values(|x: LoadRule| x@);
    let mut i: usize = 0;
    proof {
        assert(rv.skip(0) =~= rv);
    }
    while i < rules.len()
        invariant
            i <= rules.len(),
            rv == rules@.map_values(|x: LoadRule| x@),
            load_rule_lookup(rv, path@) == load_rule_lookup(rv.skip(i as int), path@),
        decreases rules.len() - i,
    {
        proof {
            assert(rv.skip(i as int).drop_first() =~= rv.skip(i + 1));
            assert(rv.skip(i as int)[0] == rv[i as int]);
        }
        if rules[i].path == *path {
            return Some(&rules[i]);
        }
        i += 1;
    }
    None
}

fn find_parse_rule<'a>(rules: &'a Vec<ParseRule>, path: &String) -> (r: Option<&'a ParseRule>)
    ensures
        match r {
            Some(rule) => parse_rule_lookup(rules@.map_values(|x: ParseRule| x@), path@) == Some(
                rule@.decision,
            ),
            None => parse_rule_lookup(rules@.map_values(|x: ParseRule| x@), path@) is None,
        },
{
    let ghost rv = rules@.map_values(|x: ParseRule| x@);
    let mut i: usize = 0;
    proof {
        assert(rv.skip(0) =~= rv);
    }
    while i < rules.len()
        invariant
            i <= rules.len(),
            rv == rules@.map_values(|x: ParseRule| x@),
            parse_rule_lookup(rv, path@) == parse_rule_lookup(rv.skip(i as int), path@),
        decreases rules.len() - i,
    {
        proof {
            assert(rv.skip(i as int).drop_first() =~= rv.skip(i + 1));
            assert(rv.skip(i as int)[0] == rv[i as int]);
        }
        if rules[i].path == *path {
            return Some(&rules[i]);
        }
        i += 1;
    }
    None
}

impl PluginDriver {
    /// A driver over the given extensions, in registration order.
    pub fn new(plugins: Vec<Plugin>) -> (d: PluginDriver)
        ensures
            d@ == plugins@.map_values(|p: Plugin| p@),
    {
        PluginDriver { plugins }
    }

    /// Applies every extension's configuration edits in registration order;
    /// the first failing extension aborts with its error, keeping the edits
    /// applied before it.
    pub fn modify_config(&self, config: &mut Config) -> (r: Result<(), PluginError>)
        ensures
            final(config)@ == driver_config_spec(self@, old(config)@).0,
            match r {
                Ok(()) => driver_config_spec(self@, old(config)@).1 is None,
                Err(e) => driver_config_spec(self@, old(config)@).1 == Some(e@),
            },
    {
        let mut i: usize = 0;
        proof {
            assert(self@.skip(0) =~= self@);
        }
        while i < self.plugins.len()
            invariant
                i <= self.plugins.len(),
                driver_config_spec(self@, old(config)@) == driver_config_spec(
                    self@.skip(i as int),
                    config@,
                ),
            decreases self.plugins.len() - i,
        {
            proof {
                assert(self@.skip(i as int).drop_first() =~= self@.skip(i + 1));
                assert(self@.skip(i as int)[0] == self@[i as int]);
            }
            if !self.plugins[i].config_ok {
                return Err(
                    PluginError {
                        plugin: self.plugins[i].name.clone(),
                        phase: PluginPhase::ModifyConfig,
                    },
                );
            }
            crate::config::apply_config_edits(config, &self.plugins[i].config_edits);
            i += 1;
        }
        Ok(())
    }

    /// The load override: the first registered extension with an answer for
    /// the requested path decides; with no opinion anywhere the result is
    /// `Ok(None)` and the caller falls through to the default load.
    pub fn load(&self, param: &PluginLoadParam) -> (r: Result<Option<Content>, PluginError>)
        ensures
            load_result_view(r) == driver_load_spec(self@, param.path@),
    {
        let mut i: usize = 0;
        proof {
            assert(self@.skip(0) =~= self@);
        }
        while i < self.plugins.len()
            invariant
                i <= self.plugins.len(),
                driver_load_spec(self@, param.path@) == driver_load_spec(
                    self@.skip(i as int),
                    param.path@,
                ),
            decreases self.plugins.len() - i,
        {
            proof {
                assert(self@.skip(i as int).drop_first() =~= self@.skip(i + 1));
                assert(self@.skip(i as int)[0] == self@[i as int]);
            }
            match find_load_rule(&self.plugins[i].load_rules, &param.path) {
                Some(rule) => {
                    match &rule.decision {
                        LoadDecision::Supply(c) => {
                            return Ok(Some(c.dup()));
                        },
                        LoadDecision::Fail => {
                            return Err(
                                PluginError {
                                    plugin: self.plugins[i].name.clone(),
                                    phase: PluginPhase::Load,
                                },
                            );
                        },
                    }
                },
                None => {},
            }
            i += 1;
        }
        Ok(None)
    }

    /// The parse override, with the same first-match-wins precedence as the
    /// load override.
    pub fn parse(&self, param: &PluginParseParam) -> (r: Result<Option<ModuleAst>, PluginError>)
        ensures
            parse_result_view(r) == driver_parse_spec(self@, param.request.path@),
    {
        let mut i: usize = 0;
        proof {
            assert(self@.skip(0) =~= self@);
        }
        while i < self.plugins.len()
            invariant
                i <= self.plugins.len(),
                driver_parse_spec(self@, param.request.path@) == driver_parse_spec(
                    self@.skip(i as int),
                    param.request.path@,
                ),
            decreases self.plugins.len() - i,
        {
            proof {
                assert(self@.skip(i as int).drop_first() =~= self@.skip(i + 1));
                assert(self@.skip(i as int)[0] == self@[i as int]);
            }
            match find_parse_rule(&self.plugins[i].parse_rules, &param.request.path) {
                Some(rule) => {
                    match &rule.decision {
                        ParseDecision::Supply(a) => {
                            return Ok(Some(a.dup()));
                        },
                        ParseDecision::Fail => {
                            return Err(
                                PluginError {
                                    plugin: self.plugins[i].name.clone(),
                                    phase: PluginPhase::Parse,
                                },
                            );
                        },
                    }
                },
                None => {},
            }
            i += 1;
        }
        Ok(None)
    }

    /// Notifies every extension of a finished build, in order, for side
    /// effects only; the first failure short-circuits.
    pub fn build_success(&self) -> (r: Result<(), PluginError>)
        ensures
            match r {
                Ok(()) => driver_notify_spec(self@) is None,
                Err(e) => driver_notify_spec(self@) == Some(e@),
            },
    {
        let mut i: usize = 0;
        proof {
            assert(self@.skip(0) =~= self@);
        }
        while i < self.plugins.len()
            invariant
                i <= self.plugins.len(),
                driver_notify_spec(self@) == driver_notify_spec(self@.skip(i as int)),
            decreases self.plugins.len() - i,
        {
            proof {
                assert(self@.skip(i as int).drop_first() =~= self@.skip(i + 1));
                assert(self@.skip(i as int)[0] == self@[i as int]);
            }
            if !self.plugins[i].build_success_ok {
                return Err(
                    PluginError {
                        plugin: self.plugins[i].name.clone(),
                        phase: PluginPhase::BuildSuccess,
                    },
                );
            }
            i += 1;
        }
        Ok(())
    }

    /// Collects every extension's runtime glue snippets in registration
    /// order and joins them with newlines.
    pub fn runtime_plugins_code(&self) -> (r: String)
        ensures
            r@ == join_lines(all_snippets(self@)),
    {
        let mut pieces: Vec<String> = Vec::new();
        let mut i: usize = 0;
        while i < self.plugins.len()
            invariant
                i <= self.plugins.len(),
                pieces.deep_view() == all_snippets(self@.take(i as int)),
            decreases self.plugins.len() - i,
        {
            proof {
                assert(self@.take(i + 1).drop_last() =~= self@.take(i as int));
                assert(self@.take(i + 1).last() == self@[i as int]);
            }
            let snippets = &self.plugins[i].runtime_snippets;
            let mut j: usize = 0;
            while j < snippets.len()
                invariant
                    j <= snippets.len(),
                    snippets.deep_view() == self@[i as int].runtime_snippets,
                    i < self.plugins.len(),
                    snippets == &self.plugins@[i as int].runtime_snippets,
                    pieces.deep_view() == all_snippets(self@.take(i as int))
                        + snippets.deep_view().take(j as int),
                decreases snippets.len() - j,
            {
                let ghost pre = pieces.deep_view();
                pieces.push(snippets[j].clone());
                proof {
                    assert(pieces.deep_view() =~= pre.push(snippets.deep_view()[j as int]));
                    assert(snippets.deep_view().take(j + 1) =~= snippets.deep_view().take(
                        j as int,
                    ).push(snippets.deep_view()[j as int]));
                    assert(pieces.deep_view() =~= all_snippets(self@.take(i as int))
                        + snippets.deep_view().take(j + 1));
                }
                j += 1;
            }
            proof {
                assert(snippets.deep_view().take(snippets@.len() as int) =~= snippets.deep_view());
                assert(pieces.deep_view() =~= all_snippets(self@.take(i + 1)));
            }
            i += 1;
        }
        proof {
            assert(self@.take(self.plugins@.len() as int) =~= self@);
        }
        let mut out = String::new();
        let mut k: usize = 0;
        let ghost ps = pieces.deep_view();
        while k < pieces.len()
            invariant
                k <= pieces.len(),
                ps == pieces.deep_view(),
                out@ == join_lines(ps.take(k as int)),
            decreases pieces.len() - k,
        {
            proof {
                assert(ps.take(k + 1).drop_last() =~= ps.take(k as int));
                assert(ps.take(k + 1).last() == ps[k as int]);
            }
            if k > 0 {
                out.append("\n");
            }
            out.append(pieces[k].as_str());
            proof {
                reveal_strlit("\n");
                assert("\n"@ =~= seq!['\n']);
                if k == 0 {
                    assert(out@ =~= join_lines(ps.take(1)));
                } else {
                    assert(out@ =~= join_lines(ps.take(k + 1)));
                }
            }
            k += 1;
        }
        proof {
            assert(ps.take(pieces@.len() as int) =~= ps);
        }
        out
    }
}

/// Dispatcher precedence for the load override: when the first of two
/// extensions answers for a path, the result is its answer alone, whatever
/// the second would say; when neither answers, the result is `Ok(None)`, so
/// the default load path executes.
pub proof fn lemma_dispatcher_precedence(first: PluginView, second: PluginView, path: Seq<char>)
    ensures
        load_rule_lookup(first.load_rules, path) matches Some(d) ==> driver_load_spec(
            seq![first, second],
            path,
        ) == (match d {
            LoadDecisionView::Supply(c) => Ok::<Option<ContentView>, PluginErrorView>(Some(c)),
            LoadDecisionView::Fail => Err(
                PluginErrorView { plugin: first.name, phase: PluginPhase::Load },
            ),
        }),
        load_rule_lookup(first.load_rules, path) is None && load_rule_lookup(
            second.load_rules,
            path,
        ) is None ==> driver_load_spec(seq![first, second], path) == Ok::<
            Option<ContentView>,
            PluginErrorView,
        >(None),
{
    reveal_with_fuel(driver_load_spec, 3);
    assert(seq![first, second].drop_first() =~= seq![second]);
    assert(seq![second].drop_first() =~= Seq::<PluginView>::empty());
    assert(driver_load_spec(Seq::<PluginView>::empty(), path) == Ok::<
        Option<ContentView>,
        PluginErrorView,
    >(None));
}

} // verus!
