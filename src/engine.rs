//! The template engine behind the shared state, built only from template
//! texts that the library accepts.
use vstd::prelude::*;
use axum_template::engine::{Engine, TeraError};
use crate::route::pairs_view;
use crate::template::{is_plain, plain};

verus! {

/// tera's compiled set of templates, carried opaquely inside the engine.
#[verifier::external_type_specification]
#[verifier::external_body]
pub struct ExTera(tera::Tera);

/// tera's error, for a template that does not compile.
#[verifier::external_type_specification]
#[verifier::external_body]
pub struct ExTeraCompileError(tera::Error);

/// axum_template's `Engine`: an `Arc` around a template engine, cheap to clone.
#[verifier::external_type_specification]
#[verifier::external_body]
#[verifier::reject_recursive_types(E)]
pub struct ExEngine<E>(axum_template::engine::Engine<E>);

/// axum_template's error for a failed tera render.
#[verifier::external_type_specification]
#[verifier::external_body]
pub struct ExTeraError(axum_template::engine::TeraError);

/// Relies on axum_template's `Clone` for `Engine`: it clones the `Arc` that
/// holds the engine, so the copy shares the one engine.
pub assume_specification<E>[ <axum_template::engine::Engine<E> as Clone>::clone ](
    e: &axum_template::engine::Engine<E>,
) -> (r: axum_template::engine::Engine<E>)
    ensures
        r == *e,
;

/// Relies on axum_template's `Engine::new`: it wraps the engine in an `Arc`.
pub assume_specification<E>[ axum_template::engine::Engine::<E>::new ](
    engine: E,
) -> axum_template::engine::Engine<E>;

/// Relies on tera's `Tera::autoescape_on`: it sets the file suffixes whose
/// templates escape what they interpolate.
pub assume_specification[ tera::Tera::autoescape_on ](t: &mut tera::Tera, suffixes: Vec<&'static str>);

/// Relies on tera's `Default` for `Tera`: an engine without templates, with
/// tera's built-in filters, tests and functions.
#[verifier::external_body]
fn empty_tera() -> tera::Tera {
    tera::Tera::default()
}

/// Relies on tera's `Tera::add_raw_templates`: it parses each (name, text)
/// pair into a template of that name, or fails.
#[verifier::external_body]
fn add_templates(t: &mut tera::Tera, sources: &Vec<(String, String)>) -> Result<(), tera::Error> {
    t.add_raw_templates(sources.iter().map(|(n, c)| (n.as_str(), c.as_str())))
}

/// Every template text of `sources` is plain.
pub open spec fn all_plain(sources: Seq<(Seq<char>, Seq<char>)>) -> bool {
    forall|k: int| 0 <= k < sources.len() ==> plain(#[trigger] sources[k].1)
}

/// Why a set of templates could not be built.
#[derive(Clone, Copy, Debug, PartialEq, Eq, Structural)]
pub enum TemplateError {
    /// The text at this position holds more than text and placeholders.
    NotPlain(usize),
    /// tera refused the templates.
    Compile,
}

/// A compiled set of templates whose texts are all plain. `engine` is
/// compiled from exactly `sources`: only `from_sources` compiles one, and
/// `clone_handle` shares it.
pub struct TemplateSet {
    engine: Engine<tera::Tera>,
    sources: Ghost<Seq<(Seq<char>, Seq<char>)>>,
}

impl TemplateSet {
    #[verifier::type_invariant]
    spec fn inv(&self) -> bool {
        all_plain(self.sources@)
    }

    /// The (name, text) pairs that the set was compiled from.
    pub closed spec fn sources(&self) -> Seq<(Seq<char>, Seq<char>)> {
        self.sources@
    }

    /// The engine that the set holds.
    pub closed spec fn engine(&self) -> Engine<tera::Tera> {
        self.engine
    }

    /// Compiles the (name, text) pairs of `sources`, escaping what templates
    /// named ".html" or ".sql" interpolate. Refuses the first text that is not
    /// plain; otherwise tera decides whether they compile.
    pub fn from_sources(sources: Vec<(String, String)>) -> (r: Result<TemplateSet, TemplateError>)
        ensures
            r matches Err(TemplateError::NotPlain(k)) ==> k < sources@.len() && !plain(sources@[k as int].1@)
                && forall|j: int| 0 <= j < k ==> plain(#[trigger] sources@[j].1@),
            all_plain(pairs_view(sources@)) <==> !(r matches Err(TemplateError::NotPlain(_))),
            r matches Ok(t) ==> t.sources() == pairs_view(sources@),
    {
        let mut i: usize = 0;
        while i < sources.len()
            invariant
                i <= sources@.len(),
                forall|j: int| 0 <= j < i ==> plain(#[trigger] sources@[j].1@),
            decreases sources.len() - i,
        {
            if !is_plain(sources[i].1.as_str()) {
                assert(!all_plain(pairs_view(sources@))) by {
                    assert(pairs_view(sources@)[i as int].1 == sources@[i as int].1@);
                };
                return Err(TemplateError::NotPlain(i));
            }
            i = i + 1;
        }
        assert(all_plain(pairs_view(sources@))) by {
            assert forall|k: int| 0 <= k < sources@.len() implies plain(#[trigger] pairs_view(sources@)[k].1) by {
                assert(plain(sources@[k].1@));
            };
        };
        let mut t = empty_tera();
        t.autoescape_on(vec![".html", ".sql"]);
        match add_templates(&mut t, &sources) {
            Err(_) => Err(TemplateError::Compile),
            Ok(()) => Ok(TemplateSet { engine: Engine::new(t), sources: Ghost(pairs_view(sources@)) }),
        }
    }

    /// A handle on the same engine.
    pub fn clone_handle(&self) -> (r: TemplateSet)
        ensures
            r.sources() == self.sources(),
            r.engine() == self.engine(),
    {
        proof {
            use_type_invariant(self);
        }
        TemplateSet { engine: self.engine.clone(), sources: Ghost(self.sources@) }
    }
}

/// A person to greet, the context of the "hello.html" template.
#[derive(Debug)]
pub struct Person {
    pub name: String,
}

/// Why a render failed.
#[derive(Clone, Copy, Debug, PartialEq, Eq, Structural)]
pub enum RenderError {
    /// The template is unknown or the context lacks a value that it reads.
    Failed,
}

/// Relies on axum_template's `TemplateEngine::render` for `Engine<Tera>`
/// (which calls `Tera::render`): it renders the template `key` with a context
/// whose one value is "name", the shape that `Person` serialises to. The
/// templates are plain: text and `{{ name }}` placeholders, without tags,
/// calls, filters or operators, so the render substitutes values and returns.
/// Nothing is promised of the outcome, which depends on the templates given.
#[verifier::external_body]
fn engine_render(set: &TemplateSet, key: &str, person: &Person) -> (r: Result<String, TeraError>)
    requires
        all_plain(set.sources()),
{
    let data = std::collections::BTreeMap::from([("name", person.name.as_str())]);
    axum_template::TemplateEngine::render(&set.engine, key, data)
}

/// Renders the template `key` of `set` with `person` as its context.
pub fn render(set: &TemplateSet, key: &str, person: &Person) -> (r: Result<String, RenderError>)
    ensures
        r is Err ==> r == Err::<String, RenderError>(RenderError::Failed),
{
    proof {
        use_type_invariant(set);
    }
    match engine_render(set, key, person) {
        Ok(s) => Ok(s),
        Err(_) => Err(RenderError::Failed),
    }
}

} // verus!
