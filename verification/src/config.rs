//! Build configuration, and the edits extensions may apply to it before any
//! phase runs.

use vstd::prelude::*;

verus! {

/// Maps a bare import specifier to the runtime-accessible name it is bound to
/// when the dependency is kept external.
pub struct ExternalDef {
    pub name: String,
    pub runtime: String,
}

/// Mathematical form of [`ExternalDef`].
pub struct ExternalDefView {
    pub name: Seq<char>,
    pub runtime: Seq<char>,
}

impl View for ExternalDef {
    type V = ExternalDefView;

    open spec fn view(&self) -> ExternalDefView {
        ExternalDefView { name: self.name@, runtime: self.runtime@ }
    }
}

impl ExternalDef {
    /// An owned copy of the mapping.
    pub fn dup(&self) -> (r: ExternalDef)
        ensures
            r@ == self@,
    {
        ExternalDef { name: self.name.clone(), runtime: self.runtime.clone() }
    }
}

/// The shared build configuration that config-mutation extensions may edit.
pub struct Config {
    pub entries: Vec<String>,
    pub externals: Vec<ExternalDef>,
}

/// Mathematical form of [`Config`].
pub struct ConfigView {
    pub entries: Seq<Seq<char>>,
    pub externals: Seq<ExternalDefView>,
}

impl View for Config {
    type V = ConfigView;

    open spec fn view(&self) -> ConfigView {
        ConfigView {
            entries: self.entries.deep_view(),
            externals: self.externals@.map_values(|d: ExternalDef| d@),
        }
    }
}

/// One edit a config-mutation extension applies.
pub enum ConfigEdit {
    /// Appends an entry path.
    AddEntry(String),
    /// Appends an external mapping.
    AddExternal(ExternalDef),
}

/// Mathematical form of [`ConfigEdit`].
pub enum ConfigEditView {
    AddEntry(Seq<char>),
    AddExternal(ExternalDefView),
}

impl View for ConfigEdit {
    type V = ConfigEditView;

    open spec fn view(&self) -> ConfigEditView {
        match self {
            ConfigEdit::AddEntry(s) => ConfigEditView::AddEntry(s@),
            ConfigEdit::AddExternal(d) => ConfigEditView::AddExternal(d@),
        }
    }
}

/// What one edit does to a configuration.
pub open spec fn apply_edit(c: ConfigView, e: ConfigEditView) -> ConfigView {
    match e {
        ConfigEditView::AddEntry(s) => ConfigView {
            entries: c.entries.push(s),
            externals: c.externals,
        },
        ConfigEditView::AddExternal(d) => ConfigView {
            entries: c.entries,
            externals: c.externals.push(d),
        },
    }
}

/// What a list of edits does, applied in order.
pub open spec fn apply_edits(c: ConfigView, es: Seq<ConfigEditView>) -> ConfigView
    decreases es.len(),
{
    if es.len() == 0 {
        c
    } else {
        apply_edit(apply_edits(c, es.drop_last()), es.last())
    }
}

/// Applies a list of edits to the configuration, in order.
pub fn apply_config_edits(config: &mut Config, edits: &Vec<ConfigEdit>)
    ensures
        final(config)@ == apply_edits(old(config)@, edits@.map_values(|e: ConfigEdit| e@)),
{
    let ghost es = edits@.map_values(|e: ConfigEdit| e@);
    let mut i: usize = 0;
    while i < edits.len()
        invariant
            i <= edits.len(),
            es == edits@.map_values(|e: ConfigEdit| e@),
            config@ == apply_edits(old(config)@, es.take(i as int)),
        decreases edits.len() - i,
    {
        proof {
            assert(es.take(i + 1).drop_last() =~= es.take(i as int));
            assert(es.take(i + 1).last() == es[i as int]);
        }
        match &edits[i] {
            ConfigEdit::AddEntry(s) => {
                config.entries.push(s.clone());
                proof {
                    assert(config@.entries =~= apply_edits(old(config)@, es.take(i + 1)).entries);
                    assert(config@.externals =~= apply_edits(
                        old(config)@,
                        es.take(i + 1),
                    ).externals);
                }
            },
            ConfigEdit::AddExternal(d) => {
                config.externals.push(d.dup());
                proof {
                    assert(config@.entries =~= apply_edits(old(config)@, es.take(i + 1)).entries);
                    assert(config@.externals =~= apply_edits(
                        old(config)@,
                        es.take(i + 1),
                    ).externals);
                }
            },
        }
        i += 1;
    }
    proof {
        assert(es.take(edits@.len() as int) =~= es);
    }
}

} // verus!
