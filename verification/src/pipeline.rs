//! A parsed pipeline, and the steps that turn a document into one.
use vstd::prelude::*;
use std::collections::BTreeMap;
use crate::asset::{Asset, Context, Owner};
use crate::quality::QualitySuite;
use crate::types::{AssetRef, Options, OutputMode, Primitive};
use crate::yaml_value::YamlValue;
use crate::dag::{propagate_tags, tags_propagated};
use crate::document::Document;
use crate::error::{TeckelError, TeckelErrorCode, is_spec_error};
use crate::rewrite::{built_by, doc_steps, first_failure, sections_error, sections_ok, to_pipeline};
use crate::validate::{
    check_version, deps_defined, doc_names, errors_match, first_bad_expr, input_names, is_expr_message,
    lemma_valid_context_closed, output_names, transformation_names, validate_expressions,
    validate_names, validation_errors, version_message, version_ok,
};
use crate::asset::{has_key, keys_increasing};
use crate::source::source_deps;

verus! {

/// A parsed pipeline: its assets by name, and the pipeline-level sections of its document.
#[derive(Debug)]
pub struct Pipeline {
    /// All assets (inputs, transformations, outputs) keyed by name.
    pub context: Context,
    pub metadata: PipelineMetadata,
    pub config: PipelineConfig,
    pub hooks: Hooks,
    pub quality: Vec<QualitySuite>,
    pub templates: Vec<Template>,
    pub exposures: Vec<Exposure>,
    pub streaming_inputs: Vec<StreamingInput>,
    pub streaming_outputs: Vec<StreamingOutput>,
    /// Secret key declarations by alias.
    pub secrets: BTreeMap<String, SecretKey>,
}

/// Pipelines `a` and `b` have the same pipeline-level sections.
pub open spec fn same_sections(a: Pipeline, b: Pipeline) -> bool {
    &&& a.metadata == b.metadata
    &&& a.config == b.config
    &&& a.hooks == b.hooks
    &&& a.quality == b.quality
    &&& a.templates == b.templates
    &&& a.exposures == b.exposures
    &&& a.streaming_inputs == b.streaming_inputs
    &&& a.streaming_outputs == b.streaming_outputs
    &&& a.secrets == b.secrets
}

/// A secret key declaration.
#[derive(Debug, Clone, PartialEq)]
pub struct SecretKey {
    pub scope: Option<String>,
    pub key: String,
}

/// Pipeline-level metadata.
#[derive(Debug, PartialEq)]
pub struct PipelineMetadata {
    pub name: Option<String>,
    pub namespace: Option<String>,
    pub version: Option<String>,
    pub description: Option<String>,
    pub owner: Option<Owner>,
    pub tags: Vec<String>,
    pub meta: BTreeMap<String, YamlValue>,
    pub schedule: Option<String>,
    pub freshness: Option<String>,
    pub links: Vec<Link>,
    pub contacts: Vec<Contact>,
    pub catalog: Option<CatalogConfig>,
}

#[derive(Debug, Clone, PartialEq)]
pub struct Link {
    pub label: String,
    pub url: String,
}

#[derive(Debug, Clone, PartialEq)]
pub struct Contact {
    pub name: String,
    pub email: String,
    pub role: Option<String>,
}

#[derive(Debug, Clone, PartialEq)]
pub struct CatalogConfig {
    pub target: String,
    pub namespace: Option<String>,
}

/// Lifecycle hooks.
#[derive(Debug, Clone, PartialEq)]
pub struct Hooks {
    pub pre_execution: Vec<Hook>,
    pub post_execution: Vec<Hook>,
}

#[derive(Debug, Clone, PartialEq)]
pub struct Hook {
    pub name: String,
    pub command: String,
}

/// Pipeline-wide configuration.
#[derive(Debug, Clone, PartialEq)]
pub struct PipelineConfig {
    pub backend: Option<String>,
    pub cache: Option<CacheConfig>,
    pub notifications: Option<NotificationConfig>,
}

#[derive(Debug, Clone, PartialEq)]
pub struct CacheConfig {
    pub auto_cache_threshold: Option<u32>,
    pub default_storage_level: Option<String>,
}

#[derive(Debug, Clone, PartialEq)]
pub struct NotificationConfig {
    pub on_success: Vec<NotificationTarget>,
    pub on_failure: Vec<NotificationTarget>,
}

#[derive(Debug, Clone, PartialEq)]
pub struct NotificationTarget {
    pub channel: String,
    pub url: Option<String>,
    pub path: Option<String>,
}

/// A reusable template.
#[derive(Debug, Clone, PartialEq)]
pub struct Template {
    pub name: String,
    pub parameters: BTreeMap<String, Primitive>,
}

/// A downstream consumer declaration.
#[derive(Debug, PartialEq)]
pub struct Exposure {
    pub name: String,
    pub exposure_type: String,
    pub description: Option<String>,
    pub url: Option<String>,
    pub maturity: Option<String>,
    pub owner: Option<Owner>,
    pub depends_on: Vec<AssetRef>,
    pub tags: Vec<String>,
    pub meta: BTreeMap<String, YamlValue>,
}

/// A streaming input.
#[derive(Debug, Clone, PartialEq)]
pub struct StreamingInput {
    pub name: AssetRef,
    pub format: String,
    pub path: Option<String>,
    pub options: Options,
    pub trigger: Option<String>,
}

/// A streaming output.
#[derive(Debug, Clone, PartialEq)]
pub struct StreamingOutput {
    pub name: AssetRef,
    pub format: String,
    pub path: Option<String>,
    pub options: Options,
    pub output_mode: Option<OutputMode>,
    pub checkpoint_location: Option<String>,
    pub trigger: Option<String>,
}

impl Default for PipelineMetadata {
    /// Metadata with nothing in it.
    fn default() -> (r: PipelineMetadata)
        ensures
            r.name is None,
            r.namespace is None,
            r.version is None,
            r.description is None,
            r.owner is None,
            r.tags@ == Seq::<String>::empty(),
            r.meta@ == Map::<String, YamlValue>::empty(),
            r.schedule is None,
            r.freshness is None,
            r.links@ == Seq::<Link>::empty(),
            r.contacts@ == Seq::<Contact>::empty(),
            r.catalog is None,
    {
        PipelineMetadata {
            name: None,
            namespace: None,
            version: None,
            description: None,
            owner: None,
            tags: Vec::new(),
            meta: BTreeMap::new(),
            schedule: None,
            freshness: None,
            links: Vec::new(),
            contacts: Vec::new(),
            catalog: None,
        }
    }
}

impl Default for Hooks {
    /// No hooks.
    fn default() -> (r: Hooks)
        ensures
            r.pre_execution@ == Seq::<Hook>::empty(),
            r.post_execution@ == Seq::<Hook>::empty(),
    {
        Hooks { pre_execution: Vec::new(), post_execution: Vec::new() }
    }
}

impl Default for PipelineConfig {
    /// No configuration.
    fn default() -> (r: PipelineConfig)
        ensures
            r.backend is None,
            r.cache is None,
            r.notifications is None,
    {
        PipelineConfig { backend: None, cache: None, notifications: None }
    }
}

impl Default for NotificationConfig {
    /// No notification targets.
    fn default() -> (r: NotificationConfig)
        ensures
            r.on_success@ == Seq::<NotificationTarget>::empty(),
            r.on_failure@ == Seq::<NotificationTarget>::empty(),
    {
        NotificationConfig { on_success: Vec::new(), on_failure: Vec::new() }
    }
}

impl Default for Pipeline {
    /// A pipeline without assets and with empty sections.
    fn default() -> (r: Pipeline)
        ensures
            r.context@ == Seq::<(Seq<char>, Asset)>::empty(),
            r.metadata.name is None && r.metadata.tags@.len() == 0 && r.metadata.meta@.is_empty(),
            r.config.backend is None && r.config.cache is None && r.config.notifications is None,
            r.hooks.pre_execution@.len() == 0 && r.hooks.post_execution@.len() == 0,
            r.quality@.len() == 0,
            r.templates@.len() == 0,
            r.exposures@.len() == 0,
            r.streaming_inputs@.len() == 0,
            r.streaming_outputs@.len() == 0,
            r.secrets@ == Map::<String, SecretKey>::empty(),
    {
        Pipeline {
            context: Context::new(),
            metadata: PipelineMetadata::default(),
            config: PipelineConfig::default(),
            hooks: Hooks::default(),
            quality: Vec::new(),
            templates: Vec::new(),
            exposures: Vec::new(),
            streaming_inputs: Vec::new(),
            streaming_outputs: Vec::new(),
            secrets: BTreeMap::new(),
        }
    }
}

/// The asset context of a parse result (its view), or its error.
pub open spec fn pipeline_context(r: Result<Pipeline, TeckelError>) -> Result<Seq<(Seq<char>, Asset)>, TeckelError> {
    match r {
        Ok(p) => Ok(p.context@),
        Err(e) => Err(e),
    }
}

/// What parsing `doc` may give, as an asset context or an error: the version check (V-008),
/// the rewrite into the domain model (the asset context, then the pipeline-level sections),
/// the semantic validation, then, when `check_expressions`, the parsing of every expression
/// and condition string; the first of these that fails gives the error. Otherwise the
/// context is the built one with tags propagated.
pub open spec fn context_outcome(doc: Document, check_expressions: bool, r: Result<Seq<(Seq<char>, Asset)>, TeckelError>) -> bool {
    &&& !version_ok(doc.version@) ==> (r matches Err(e)
        && is_spec_error(e, TeckelErrorCode::EVersion001, version_message(doc.version@)))
    &&& version_ok(doc.version@) ==> match first_failure(doc_steps(doc), Set::empty()) {
        Some((code, msg)) => r matches Err(e) && is_spec_error(e, code, msg),
        None => match sections_error(doc) {
            Some((code, msg)) => r matches Err(e) && is_spec_error(e, code, msg),
            None => exists|c: Seq<(Seq<char>, Asset)>| {
                &&& #[trigger] built_by(c, doc, doc_steps(doc))
                &&& keys_increasing(c)
                &&& validation_errors(c, doc).len() > 0 ==> (r matches Err(TeckelError::Validation { count, errors })
                    && count == errors@.len() && errors_match(errors@, validation_errors(c, doc)))
                &&& validation_errors(c, doc).len() == 0 && check_expressions ==> (
                    first_bad_expr(c) matches Some((name, expr))
                    ==> (r matches Err(TeckelError::Spec { code, message })
                        && code == TeckelErrorCode::EExpr001 && is_expr_message(message@, name, expr)))
                &&& validation_errors(c, doc).len() == 0 && !(check_expressions && first_bad_expr(c) is Some)
                    ==> (r matches Ok(x) && tags_propagated(c, x))
            },
        },
    }
}

/// Turns a parsed document into a pipeline: the version check (V-008), the rewrite into the
/// domain model (the asset context, then the pipeline-level sections), the semantic
/// validation, then, when asked, the parsing of every expression and condition string, and
/// last tag propagation through the dependency graph; the first of these that fails gives the
/// error.
pub fn parse_document_with(doc: Document, check_expressions: bool) -> (r: Result<Pipeline, TeckelError>)
    ensures
        context_outcome(doc, check_expressions, pipeline_context(r)),
        r matches Ok(p) ==> sections_ok(p, doc),
{
    match check_version(&doc) {
        Ok(()) => {},
        Err(e) => return Err(e),
    }
    let names = doc_names(&doc);
    let mut pipeline = match to_pipeline(doc) {
        Ok(p) => p,
        Err(e) => return Err(e),
    };
    proof {
        use_type_invariant(&pipeline.context);
    }
    let ghost c = pipeline.context@;
    assert(keys_increasing(c));
    match validate_names(&pipeline.context, &names) {
        Ok(()) => {},
        Err(e) => return Err(e),
    }
    if check_expressions {
        match validate_expressions(&pipeline.context) {
            Ok(()) => {},
            Err(e) => return Err(e),
        }
    }
    match propagate_tags(&mut pipeline) {
        Ok(()) => Ok(pipeline),
        Err(e) => Err(e),
    }
}

/// Turns a parsed document into a pipeline, without parsing its expressions (see
/// `parse_document_with`).
pub fn parse_document(doc: Document) -> (r: Result<Pipeline, TeckelError>)
    ensures
        context_outcome(doc, false, pipeline_context(r)),
        r matches Ok(p) ==> sections_ok(p, doc),
{
    parse_document_with(doc, false)
}

/// Turns a parsed document into its asset context, tags propagated (see `parse_document`):
/// the context of a result that `parse_document` gives, or its error.
pub fn parse_document_context(doc: Document) -> (r: Result<Context, TeckelError>)
    ensures
        context_outcome(doc, false, match r {
            Ok(x) => Ok(x@),
            Err(e) => Err(e),
        }),
        exists|pr: Result<Pipeline, TeckelError>| {
            &&& context_outcome(doc, false, #[trigger] pipeline_context(pr))
            &&& (pr matches Ok(p) ==> sections_ok(p, doc))
            &&& r == match pr {
                Ok(p) => Ok::<Context, TeckelError>(p.context),
                Err(e) => Err(e),
            }
        },
{
    let pr = parse_document(doc);
    let ghost g = pr;
    let r = match pr {
        Ok(p) => Ok(p.context),
        Err(e) => Err(e),
    };
    assert(pipeline_context(g) == pipeline_context(g));
    r
}

/// `parse_document_context` gives the context of what `parse_document` gives: every result
/// that the contract of `parse_document` allows, taken to its context, is one that the
/// contract of `parse_document_context` allows (both state `context_outcome`), and on an error
/// it is the same error.
pub proof fn lemma_context_of_parse(doc: Document, r: Result<Pipeline, TeckelError>)
    requires
        context_outcome(doc, false, pipeline_context(r)),
    ensures
        ({
            let c: Result<Seq<(Seq<char>, Asset)>, TeckelError> = match r {
                Ok(p) => Ok(p.context@),
                Err(e) => Err(e),
            };
            &&& context_outcome(doc, false, c)
            &&& (r is Err <==> c is Err)
            &&& (r matches Err(e1) ==> c == Err::<Seq<(Seq<char>, Asset)>, TeckelError>(e1))
        }),
{
}

/// What parsing accepts reads only from itself: when the context `c0` built from `doc` has no
/// validation error, the context `c1` that tag propagation makes of it (the context of the
/// parsed pipeline) holds every asset that any of its assets reads from.
pub proof fn lemma_parsed_context_closed(c0: Seq<(Seq<char>, Asset)>, c1: Seq<(Seq<char>, Asset)>, doc: Document)
    requires
        validation_errors(c0, doc).len() == 0,
        tags_propagated(c0, c1),
    ensures
        deps_defined(c1),
{
    lemma_valid_context_closed(c0, input_names(doc), transformation_names(doc), output_names(doc));
    assert forall|i: int, k: int| 0 <= i < c1.len() && 0 <= k < source_deps(c1[i].1.source).len()
        implies has_key(c1, #[trigger] source_deps(c1[i].1.source)[k]) by {
        assert(c1[i].1.source == c0[i].1.source);
        let d = source_deps(c0[i].1.source)[k];
        assert(has_key(c0, d));
        let j = choose|j: int| 0 <= j < c0.len() && #[trigger] c0[j].0 == d;
        assert(c1[j].0 == c0[j].0);
    }
}

} // verus!
