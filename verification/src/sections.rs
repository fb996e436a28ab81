//! Rewriting the pipeline-level sections of a document into the domain model: metadata,
//! configuration, hooks, secrets, templates, exposures, and streaming inputs and outputs.
use vstd::prelude::*;
use std::collections::BTreeMap;
use crate::document::{
    CacheDef, CatalogDef, ConfigDef, ContactDef, ExposureDef, HookDef, HooksDef, LinkDef,
    NotificationTargetDef, NotificationsDef, PipelineMetadataDef, SecretsDef, StreamingInputDef,
    StreamingOutputDef, TemplateDef,
};
use crate::error::{TeckelError, TeckelErrorCode, is_spec_error};
use crate::pipeline::{
    CacheConfig, CatalogConfig, Contact, Exposure, Hook, Hooks, Link, NotificationConfig,
    NotificationTarget, PipelineConfig, PipelineMetadata, SecretKey, StreamingInput,
    StreamingOutput, Template,
};
use crate::rewrite::{is_word, meta_or_empty, opt_meta, owner_of, rewrite_owner, some_or_empty, opt_strings};
use crate::text::push_str;
use crate::types::OutputMode;

verus! {

/// The items of an optional list: the list, or none.
pub open spec fn opt_seq<T>(o: Option<Vec<T>>) -> Seq<T> {
    match o {
        Some(v) => v@,
        None => Seq::empty(),
    }
}

pub(crate) fn vec_or_empty<T>(o: Option<Vec<T>>) -> (r: Vec<T>)
    ensures
        r@ == opt_seq(o),
{
    match o {
        Some(v) => v,
        None => Vec::new(),
    }
}

pub open spec fn link_of(d: LinkDef) -> Link {
    Link { label: d.label, url: d.url }
}

pub open spec fn contact_of(d: ContactDef) -> Contact {
    Contact { name: d.name, email: d.email, role: d.role }
}

pub open spec fn catalog_of(o: Option<CatalogDef>) -> Option<CatalogConfig> {
    match o {
        Some(d) => Some(CatalogConfig { target: d.target, namespace: d.namespace }),
        None => None,
    }
}

pub open spec fn hook_of(d: HookDef) -> Hook {
    Hook { name: d.name, command: d.command }
}

pub open spec fn target_of(d: NotificationTargetDef) -> NotificationTarget {
    NotificationTarget { channel: d.channel, url: d.url, path: d.path }
}

pub open spec fn cache_of(o: Option<CacheDef>) -> Option<CacheConfig> {
    match o {
        Some(d) => Some(CacheConfig {
            auto_cache_threshold: d.auto_cache_threshold,
            default_storage_level: d.default_storage_level,
        }),
        None => None,
    }
}

pub open spec fn template_of(d: TemplateDef) -> Template {
    Template { name: d.name, parameters: d.parameters }
}

pub open spec fn exposure_of(d: ExposureDef) -> Exposure {
    Exposure {
        name: d.name,
        exposure_type: d.exposure_type,
        description: d.description,
        url: d.url,
        maturity: d.maturity,
        owner: owner_of(d.owner),
        depends_on: d.depends_on,
        tags: d.tags,
        meta: d.meta,
    }
}

pub open spec fn streaming_input_of(d: StreamingInputDef) -> StreamingInput {
    StreamingInput { name: d.name, format: d.format, path: d.path, options: d.options, trigger: d.trigger }
}

// ── Lists rewritten item by item ─────────────────────────────────

fn rewrite_links(v: Vec<LinkDef>) -> (r: Vec<Link>)
    ensures
        r@ == v@.map_values(|d: LinkDef| link_of(d)),
{
    let ghost orig = v@;
    assert(v@.len() == v.len());
    let mut rest = v;
    let mut out: Vec<Link> = Vec::new();
    let mut i: usize = 0;
    while rest.len() > 0
        invariant
            i + rest@.len() == orig.len(),
            orig.len() <= usize::MAX,
            orig == v@,
            rest@ == orig.subrange(i as int, orig.len() as int),
            out@ == orig.subrange(0, i as int).map_values(|d: LinkDef| link_of(d)),
        decreases rest@.len(),
    {
        let d = rest.remove(0);
        assert(d == orig[i as int]);
        assert(rest@ =~= orig.subrange(i + 1, orig.len() as int));
        out.push(Link { label: d.label, url: d.url });
        assert(orig.subrange(0, i + 1).map_values(|d: LinkDef| link_of(d)) =~= out@);
        i = i + 1;
    }
    assert(orig.subrange(0, i as int) =~= orig);
    out
}

fn rewrite_contacts(v: Vec<ContactDef>) -> (r: Vec<Contact>)
    ensures
        r@ == v@.map_values(|d: ContactDef| contact_of(d)),
{
    let ghost orig = v@;
    assert(v@.len() == v.len());
    let mut rest = v;
    let mut out: Vec<Contact> = Vec::new();
    let mut i: usize = 0;
    while rest.len() > 0
        invariant
            i + rest@.len() == orig.len(),
            orig.len() <= usize::MAX,
            orig == v@,
            rest@ == orig.subrange(i as int, orig.len() as int),
            out@ == orig.subrange(0, i as int).map_values(|d: ContactDef| contact_of(d)),
        decreases rest@.len(),
    {
        let d = rest.remove(0);
        assert(d == orig[i as int]);
        assert(rest@ =~= orig.subrange(i + 1, orig.len() as int));
        out.push(Contact { name: d.name, email: d.email, role: d.role });
        assert(orig.subrange(0, i + 1).map_values(|d: ContactDef| contact_of(d)) =~= out@);
        i = i + 1;
    }
    assert(orig.subrange(0, i as int) =~= orig);
    out
}

fn rewrite_hooks_list(v: Vec<HookDef>) -> (r: Vec<Hook>)
    ensures
        r@ == v@.map_values(|d: HookDef| hook_of(d)),
{
    let ghost orig = v@;
    assert(v@.len() == v.len());
    let mut rest = v;
    let mut out: Vec<Hook> = Vec::new();
    let mut i: usize = 0;
    while rest.len() > 0
        invariant
            i + rest@.len() == orig.len(),
            orig.len() <= usize::MAX,
            orig == v@,
            rest@ == orig.subrange(i as int, orig.len() as int),
            out@ == orig.subrange(0, i as int).map_values(|d: HookDef| hook_of(d)),
        decreases rest@.len(),
    {
        let d = rest.remove(0);
        assert(d == orig[i as int]);
        assert(rest@ =~= orig.subrange(i + 1, orig.len() as int));
        out.push(Hook { name: d.name, command: d.command });
        assert(orig.subrange(0, i + 1).map_values(|d: HookDef| hook_of(d)) =~= out@);
        i = i + 1;
    }
    assert(orig.subrange(0, i as int) =~= orig);
    out
}

fn rewrite_targets(v: Vec<NotificationTargetDef>) -> (r: Vec<NotificationTarget>)
    ensures
        r@ == v@.map_values(|d: NotificationTargetDef| target_of(d)),
{
    let ghost orig = v@;
    assert(v@.len() == v.len());
    let mut rest = v;
    let mut out: Vec<NotificationTarget> = Vec::new();
    let mut i: usize = 0;
    while rest.len() > 0
        invariant
            i + rest@.len() == orig.len(),
            orig.len() <= usize::MAX,
            orig == v@,
            rest@ == orig.subrange(i as int, orig.len() as int),
            out@ == orig.subrange(0, i as int).map_values(|d: NotificationTargetDef| target_of(d)),
        decreases rest@.len(),
    {
        let d = rest.remove(0);
        assert(d == orig[i as int]);
        assert(rest@ =~= orig.subrange(i + 1, orig.len() as int));
        out.push(NotificationTarget { channel: d.channel, url: d.url, path: d.path });
        assert(orig.subrange(0, i + 1).map_values(|d: NotificationTargetDef| target_of(d)) =~= out@);
        i = i + 1;
    }
    assert(orig.subrange(0, i as int) =~= orig);
    out
}

fn rewrite_templates_list(v: Vec<TemplateDef>) -> (r: Vec<Template>)
    ensures
        r@ == v@.map_values(|d: TemplateDef| template_of(d)),
{
    let ghost orig = v@;
    assert(v@.len() == v.len());
    let mut rest = v;
    let mut out: Vec<Template> = Vec::new();
    let mut i: usize = 0;
    while rest.len() > 0
        invariant
            i + rest@.len() == orig.len(),
            orig.len() <= usize::MAX,
            orig == v@,
            rest@ == orig.subrange(i as int, orig.len() as int),
            out@ == orig.subrange(0, i as int).map_values(|d: TemplateDef| template_of(d)),
        decreases rest@.len(),
    {
        let d = rest.remove(0);
        assert(d == orig[i as int]);
        assert(rest@ =~= orig.subrange(i + 1, orig.len() as int));
        out.push(Template { name: d.name, parameters: d.parameters });
        assert(orig.subrange(0, i + 1).map_values(|d: TemplateDef| template_of(d)) =~= out@);
        i = i + 1;
    }
    assert(orig.subrange(0, i as int) =~= orig);
    out
}

fn rewrite_exposures_list(v: Vec<ExposureDef>) -> (r: Vec<Exposure>)
    ensures
        r@ == v@.map_values(|d: ExposureDef| exposure_of(d)),
{
    let ghost orig = v@;
    assert(v@.len() == v.len());
    let mut rest = v;
    let mut out: Vec<Exposure> = Vec::new();
    let mut i: usize = 0;
    while rest.len() > 0
        invariant
            i + rest@.len() == orig.len(),
            orig.len() <= usize::MAX,
            orig == v@,
            rest@ == orig.subrange(i as int, orig.len() as int),
            out@ == orig.subrange(0, i as int).map_values(|d: ExposureDef| exposure_of(d)),
        decreases rest@.len(),
    {
        let d = rest.remove(0);
        assert(d == orig[i as int]);
        assert(rest@ =~= orig.subrange(i + 1, orig.len() as int));
        let owner = rewrite_owner(d.owner);
        out.push(Exposure {
            name: d.name,
            exposure_type: d.exposure_type,
            description: d.description,
            url: d.url,
            maturity: d.maturity,
            owner,
            depends_on: d.depends_on,
            tags: d.tags,
            meta: d.meta,
        });
        assert(orig.subrange(0, i + 1).map_values(|d: ExposureDef| exposure_of(d)) =~= out@);
        i = i + 1;
    }
    assert(orig.subrange(0, i as int) =~= orig);
    out
}

fn rewrite_streaming_inputs_list(v: Vec<StreamingInputDef>) -> (r: Vec<StreamingInput>)
    ensures
        r@ == v@.map_values(|d: StreamingInputDef| streaming_input_of(d)),
{
    let ghost orig = v@;
    assert(v@.len() == v.len());
    let mut rest = v;
    let mut out: Vec<StreamingInput> = Vec::new();
    let mut i: usize = 0;
    while rest.len() > 0
        invariant
            i + rest@.len() == orig.len(),
            orig.len() <= usize::MAX,
            orig == v@,
            rest@ == orig.subrange(i as int, orig.len() as int),
            out@ == orig.subrange(0, i as int).map_values(|d: StreamingInputDef| streaming_input_of(d)),
        decreases rest@.len(),
    {
        let d = rest.remove(0);
        assert(d == orig[i as int]);
        assert(rest@ =~= orig.subrange(i + 1, orig.len() as int));
        out.push(StreamingInput { name: d.name, format: d.format, path: d.path, options: d.options, trigger: d.trigger });
        assert(orig.subrange(0, i + 1).map_values(|d: StreamingInputDef| streaming_input_of(d)) =~= out@);
        i = i + 1;
    }
    assert(orig.subrange(0, i as int) =~= orig);
    out
}

// ── Sections ─────────────────────────────────────────────────────

/// Pipeline metadata `m` is what `o` writes; with no section, every field is empty.
pub open spec fn metadata_ok(m: PipelineMetadata, o: Option<PipelineMetadataDef>) -> bool {
    match o {
        Some(d) => {
            &&& m.name == d.name
            &&& m.namespace == d.namespace
            &&& m.version == d.version
            &&& m.description == d.description
            &&& m.owner == owner_of(d.owner)
            &&& m.tags@ == opt_strings(d.tags)
            &&& m.meta@ == opt_meta(d.meta)
            &&& m.schedule == d.schedule
            &&& m.freshness == d.freshness
            &&& m.links@ == opt_seq(d.links).map_values(|l: LinkDef| link_of(l))
            &&& m.contacts@ == opt_seq(d.contacts).map_values(|c: ContactDef| contact_of(c))
            &&& m.catalog == catalog_of(d.catalog)
        },
        None => {
            &&& m.name is None
            &&& m.namespace is None
            &&& m.version is None
            &&& m.description is None
            &&& m.owner is None
            &&& m.tags@.len() == 0
            &&& m.meta@ == Map::<String, crate::yaml_value::YamlValue>::empty()
            &&& m.schedule is None
            &&& m.freshness is None
            &&& m.links@.len() == 0
            &&& m.contacts@.len() == 0
            &&& m.catalog is None
        },
    }
}

/// The pipeline metadata written in `o`.
pub fn rewrite_metadata(o: Option<PipelineMetadataDef>) -> (r: PipelineMetadata)
    ensures
        metadata_ok(r, o),
{
    match o {
        Some(d) => {
            let links = rewrite_links(vec_or_empty(d.links));
            let contacts = rewrite_contacts(vec_or_empty(d.contacts));
            let catalog = match d.catalog {
                Some(c) => Some(CatalogConfig { target: c.target, namespace: c.namespace }),
                None => None,
            };
            PipelineMetadata {
                name: d.name,
                namespace: d.namespace,
                version: d.version,
                description: d.description,
                owner: rewrite_owner(d.owner),
                tags: some_or_empty(d.tags),
                meta: meta_or_empty(d.meta),
                schedule: d.schedule,
                freshness: d.freshness,
                links,
                contacts,
                catalog,
            }
        },
        None => PipelineMetadata::default(),
    }
}

/// The notification targets `n` are what `o` writes.
pub open spec fn notifications_ok(n: Option<NotificationConfig>, o: Option<NotificationsDef>) -> bool {
    match o {
        Some(d) => n matches Some(x)
            && x.on_success@ == opt_seq(d.on_success).map_values(|t: NotificationTargetDef| target_of(t))
            && x.on_failure@ == opt_seq(d.on_failure).map_values(|t: NotificationTargetDef| target_of(t)),
        None => n is None,
    }
}

/// Pipeline configuration `c` is what `o` writes; with no section, nothing is configured.
pub open spec fn config_ok(c: PipelineConfig, o: Option<ConfigDef>) -> bool {
    match o {
        Some(d) => c.backend == d.backend && c.cache == cache_of(d.cache)
            && notifications_ok(c.notifications, d.notifications),
        None => c.backend is None && c.cache is None && c.notifications is None,
    }
}

/// The pipeline configuration written in `o`.
pub fn rewrite_config(o: Option<ConfigDef>) -> (r: PipelineConfig)
    ensures
        config_ok(r, o),
{
    match o {
        Some(d) => {
            let cache = match d.cache {
                Some(c) => Some(CacheConfig {
                    auto_cache_threshold: c.auto_cache_threshold,
                    default_storage_level: c.default_storage_level,
                }),
                None => None,
            };
            let notifications = match d.notifications {
                Some(n) => Some(NotificationConfig {
                    on_success: rewrite_targets(vec_or_empty(n.on_success)),
                    on_failure: rewrite_targets(vec_or_empty(n.on_failure)),
                }),
                None => None,
            };
            PipelineConfig { backend: d.backend, cache, notifications }
        },
        None => PipelineConfig::default(),
    }
}

/// The hooks `h` are what `o` writes; with no section, there are none.
pub open spec fn hooks_ok(h: Hooks, o: Option<HooksDef>) -> bool {
    match o {
        Some(d) => h.pre_execution@ == opt_seq(d.pre_execution).map_values(|x: HookDef| hook_of(x))
            && h.post_execution@ == opt_seq(d.post_execution).map_values(|x: HookDef| hook_of(x)),
        None => h.pre_execution@.len() == 0 && h.post_execution@.len() == 0,
    }
}

/// The lifecycle hooks written in `o`.
pub fn rewrite_hooks(o: Option<HooksDef>) -> (r: Hooks)
    ensures
        hooks_ok(r, o),
{
    match o {
        Some(d) => Hooks {
            pre_execution: rewrite_hooks_list(vec_or_empty(d.pre_execution)),
            post_execution: rewrite_hooks_list(vec_or_empty(d.post_execution)),
        },
        None => Hooks::default(),
    }
}

/// The secret keys declared in `o`, by alias.
pub open spec fn secrets_of(o: Option<SecretsDef>) -> Map<String, SecretKey> {
    match o {
        Some(d) => match d.keys {
            Some(m) => m@,
            None => Map::empty(),
        },
        None => Map::empty(),
    }
}

/// The secret key declarations written in `o`.
pub fn rewrite_secrets(o: Option<SecretsDef>) -> (r: BTreeMap<String, SecretKey>)
    ensures
        r@ == secrets_of(o),
{
    match o {
        Some(d) => match d.keys {
            Some(m) => m,
            None => BTreeMap::new(),
        },
        None => BTreeMap::new(),
    }
}

/// The templates written in `o`.
pub fn rewrite_templates(o: Option<Vec<TemplateDef>>) -> (r: Vec<Template>)
    ensures
        r@ == opt_seq(o).map_values(|d: TemplateDef| template_of(d)),
{
    rewrite_templates_list(vec_or_empty(o))
}

/// The exposures written in `o`.
pub fn rewrite_exposures(o: Option<Vec<ExposureDef>>) -> (r: Vec<Exposure>)
    ensures
        r@ == opt_seq(o).map_values(|d: ExposureDef| exposure_of(d)),
{
    rewrite_exposures_list(vec_or_empty(o))
}

/// The streaming inputs written in `o`.
pub fn rewrite_streaming_inputs(o: Option<Vec<StreamingInputDef>>) -> (r: Vec<StreamingInput>)
    ensures
        r@ == opt_seq(o).map_values(|d: StreamingInputDef| streaming_input_of(d)),
{
    rewrite_streaming_inputs_list(vec_or_empty(o))
}

// ── Streaming outputs ────────────────────────────────────────────

/// The streaming output mode a word names.
pub open spec fn output_mode_of(s: Seq<char>) -> Option<OutputMode> {
    if s == "append"@ {
        Some(OutputMode::Append)
    } else if s == "update"@ {
        Some(OutputMode::Update)
    } else if s == "complete"@ {
        Some(OutputMode::Complete)
    } else {
        None
    }
}

/// The words `append`, `update`, `complete` each name their own variant, in that order: `OutputMode::Append`, `OutputMode::Update`, `OutputMode::Complete`; any other word names none.
pub proof fn lemma_output_mode_words()
    ensures
        output_mode_of("append"@) is Some && output_mode_of("append"@)->Some_0 == OutputMode::Append,
        output_mode_of("update"@) is Some && output_mode_of("update"@)->Some_0 == OutputMode::Update,
        output_mode_of("complete"@) is Some && output_mode_of("complete"@)->Some_0 == OutputMode::Complete,
        forall|w: Seq<char>| #[trigger] output_mode_of(w) is Some ==> (w == "append"@ || w == "update"@ || w == "complete"@),
{
    reveal_strlit("append");
    reveal_strlit("update");
    reveal_strlit("complete");
    assert("update"@[0] != "append"@[0]);
    assert("complete"@.len() != "append"@.len());
    assert("complete"@.len() != "update"@.len());
}

pub open spec fn output_mode_message(s: Seq<char>) -> Seq<char> {
    "invalid output mode \""@ + s + "\", expected: append|update|complete"@
}

/// The written output mode of `d` when it names none.
pub open spec fn bad_output_mode(d: StreamingOutputDef) -> Option<Seq<char>> {
    match d.output_mode {
        Some(m) => if output_mode_of(m@) is None { Some(m@) } else { None },
        None => None,
    }
}

/// The first written output mode among `ds` that names none.
pub open spec fn first_bad_output_mode(ds: Seq<StreamingOutputDef>) -> Option<Seq<char>>
    decreases ds.len(),
{
    if ds.len() == 0 {
        None
    } else if bad_output_mode(ds[0]) is Some {
        bad_output_mode(ds[0])
    } else {
        first_bad_output_mode(ds.drop_first())
    }
}

/// Streaming output `r` is what `d` writes, its output mode read.
pub open spec fn streaming_output_ok(r: StreamingOutput, d: StreamingOutputDef) -> bool {
    &&& r.name == d.name
    &&& r.format == d.format
    &&& r.path == d.path
    &&& r.options == d.options
    &&& r.output_mode == match d.output_mode {
        Some(m) => output_mode_of(m@),
        None => None,
    }
    &&& r.checkpoint_location == d.checkpoint_location
    &&& r.trigger == d.trigger
}

fn parse_output_mode(s: &str) -> (r: Result<OutputMode, TeckelError>)
    ensures
        match output_mode_of(s@) {
            Some(m) => r == Ok::<OutputMode, TeckelError>(m),
            None => r matches Err(e) && is_spec_error(e, TeckelErrorCode::EEnum001, output_mode_message(s@)),
        },
{
    if is_word(s, "append") {
        Ok(OutputMode::Append)
    } else if is_word(s, "update") {
        Ok(OutputMode::Update)
    } else if is_word(s, "complete") {
        Ok(OutputMode::Complete)
    } else {
        let mut m = String::new();
        push_str(&mut m, "invalid output mode \"");
        push_str(&mut m, s);
        push_str(&mut m, "\", expected: append|update|complete");
        Err(TeckelError::spec(TeckelErrorCode::EEnum001, m))
    }
}

/// The streaming outputs written in `o`, or `E-ENUM-001` for the first output mode that
/// names no mode.
pub fn rewrite_streaming_outputs(o: Option<Vec<StreamingOutputDef>>) -> (r: Result<Vec<StreamingOutput>, TeckelError>)
    ensures
        match first_bad_output_mode(opt_seq(o)) {
            Some(bad) => r matches Err(e) && is_spec_error(e, TeckelErrorCode::EEnum001, output_mode_message(bad)),
            None => r matches Ok(t) && t@.len() == opt_seq(o).len()
                && forall|i: int| 0 <= i < t@.len() ==> streaming_output_ok(#[trigger] t@[i], opt_seq(o)[i]),
        },
{
    let v = vec_or_empty(o);
    let ghost orig = v@;
    assert(v@.len() == v.len());
    let mut rest = v;
    let mut out: Vec<StreamingOutput> = Vec::new();
    let mut i: usize = 0;
    while rest.len() > 0
        invariant
            i + rest@.len() == orig.len(),
            orig.len() <= usize::MAX,
            orig == opt_seq(o),
            rest@ == orig.subrange(i as int, orig.len() as int),
            first_bad_output_mode(orig) == first_bad_output_mode(rest@),
            out@.len() == i,
            forall|j: int| 0 <= j < i ==> streaming_output_ok(#[trigger] out@[j], orig[j]),
        decreases rest@.len(),
    {
        let ghost cur = rest@;
        let d = rest.remove(0);
        assert(d == orig[i as int]);
        assert(cur[0] == d);
        assert(rest@ =~= orig.subrange(i + 1, orig.len() as int));
        assert(rest@ =~= cur.drop_first());
        let output_mode = match &d.output_mode {
            Some(m) => match parse_output_mode(m.as_str()) {
                Ok(x) => Some(x),
                Err(e) => {
                    assert(bad_output_mode(d) == Some(m@));
                    assert(first_bad_output_mode(cur) == Some(m@));
                    return Err(e);
                },
            },
            None => None,
        };
        assert(bad_output_mode(d) is None);
        let ghost before = out@;
        out.push(StreamingOutput {
            name: d.name,
            format: d.format,
            path: d.path,
            options: d.options,
            output_mode,
            checkpoint_location: d.checkpoint_location,
            trigger: d.trigger,
        });
        assert(forall|j: int| 0 <= j < i ==> out@[j] == before[j]);
        i = i + 1;
    }
    Ok(out)
}

} // verus!
