//! Rendering of scanned units into the indexer's files: a schema and a
//! handler file per unit with events, and the data of the run configuration.
use vstd::prelude::*;
use vstd::string::*;

use crate::event::{
    args_view, event_schema, handler_name, js_handler, lower_of, trigger_name, CairoEvent,
};
use crate::scanner::FileDomain;
use crate::text::join;

verus! {

/// A file to be written out: its name and its content.
#[derive(Debug)]
pub struct GeneratedFile {
    pub name: String,
    pub content: String,
}

pub open spec fn file_view(f: GeneratedFile) -> (Seq<char>, Seq<char>) {
    (f.name@, f.content@)
}

pub open spec fn files_view(v: Seq<GeneratedFile>) -> Seq<(Seq<char>, Seq<char>)> {
    v.map_values(|f: GeneratedFile| file_view(f))
}

/// The schema lines of each event, one block per event, joined by line breaks.
pub open spec fn events_graphql(events: Seq<CairoEvent>) -> Seq<char> {
    join(events.map_values(|e: CairoEvent| event_schema(args_view(e.arguments@))), "\n"@)
}

/// The schema document of a unit named `name` whose event blocks are `body`.
pub open spec fn graphql_model(name: Seq<char>, body: Seq<char>) -> Seq<char> {
    "\nscalar Text\n\ntype "@ + name + " {\n    id: String!\n    "@ + body + "\n}\n"@
}

/// The handler stubs of each event, joined by line breaks.
pub open spec fn events_js(events: Seq<CairoEvent>) -> Seq<char> {
    join(events.map_values(|e: CairoEvent| js_handler(e.name@)), "\n"@)
}

/// The handler document whose event stubs are `body`.
pub open spec fn data_writer(body: Seq<char>) -> Seq<char> {
    "\nimport type { CheckpointWriter } from '@snapshot-labs/checkpoint';\n\nexport async function handleDeploy() {\n    new Error('Not implemented yet !');\n}\n\n"@
        + body + "\n        "@
}

/// The schema file of a unit.
pub open spec fn model_file(d: FileDomain) -> (Seq<char>, Seq<char>) {
    (d.name@ + ".gql"@, graphql_model(d.name@, events_graphql(d.events@)))
}

/// The handler file of a unit.
pub open spec fn writer_file(d: FileDomain) -> (Seq<char>, Seq<char>) {
    (d.name@ + "DataWriter.js"@, data_writer(events_js(d.events@)))
}

/// The files of the units, two for each unit with at least one event, in order.
pub open spec fn units_files(ds: Seq<FileDomain>) -> Seq<(Seq<char>, Seq<char>)>
    decreases ds.len(),
{
    if ds.len() == 0 {
        Seq::empty()
    } else if ds.last().events@.len() == 0 {
        units_files(ds.drop_last())
    } else {
        units_files(ds.drop_last()).push(model_file(ds.last())).push(writer_file(ds.last()))
    }
}

/// The name of the run configuration file.
pub open spec fn config_file_name() -> Seq<char> {
    "configuration.json"@
}

/// The items of `parts` in order, with `sep` between each two neighbours.
fn join_strings(parts: &Vec<String>, sep: &str) -> (r: String)
    ensures
        r@ == join(parts@.map_values(|p: String| p@), sep@),
{
    let ghost pv = parts@.map_values(|p: String| p@);
    let mut s = String::new();
    let mut i: usize = 0;
    while i < parts.len()
        invariant
            pv == parts@.map_values(|p: String| p@),
            i <= parts@.len(),
            s@ == join(pv.subrange(0, i as int), sep@),
        decreases parts.len() - i,
    {
        assert(pv.subrange(0, i + 1).drop_last() =~= pv.subrange(0, i as int));
        if i > 0 {
            s.append(sep);
        }
        s.append(parts[i].as_str());
        i = i + 1;
    }
    assert(pv.subrange(0, i as int) =~= pv);
    s
}

/// The schema lines of each event, one block per event, joined by line breaks.
pub fn events_to_graphql(events: &[CairoEvent]) -> (r: String)
    ensures
        r@ == events_graphql(events@),
{
    let mut parts: Vec<String> = Vec::new();
    let mut i: usize = 0;
    while i < events.len()
        invariant
            i <= events@.len(),
            parts@.map_values(|p: String| p@) == events@.subrange(0, i as int).map_values(
                |e: CairoEvent| event_schema(args_view(e.arguments@)),
            ),
        decreases events.len() - i,
    {
        let ghost before = parts@.map_values(|p: String| p@);
        let part = events[i].to_string();
        let ghost pv = part@;
        parts.push(part);
        assert(parts@.map_values(|p: String| p@) =~= before.push(pv));
        assert(events@.subrange(0, i + 1).map_values(
            |e: CairoEvent| event_schema(args_view(e.arguments@)),
        ) =~= events@.subrange(0, i as int).map_values(
            |e: CairoEvent| event_schema(args_view(e.arguments@)),
        ).push(pv));
        i = i + 1;
    }
    assert(events@.subrange(0, i as int) =~= events@);
    join_strings(&parts, "\n")
}

/// The schema document of a unit named `name` with `events`.
pub fn generate_graphql_model(name: &str, events: &[CairoEvent]) -> (r: String)
    ensures
        r@ == graphql_model(name@, events_graphql(events@)),
{
    let mut s = "\nscalar Text\n\ntype ".to_owned();
    s.append(name);
    s.append(" {\n    id: String!\n    ");
    s.append(events_to_graphql(events).as_str());
    s.append("\n}\n");
    s
}

/// The handler stubs of each event, joined by line breaks.
pub fn events_to_js_function(events: &[CairoEvent]) -> (r: String)
    ensures
        r@ == events_js(events@),
{
    let mut parts: Vec<String> = Vec::new();
    let mut i: usize = 0;
    while i < events.len()
        invariant
            i <= events@.len(),
            parts@.map_values(|p: String| p@) == events@.subrange(0, i as int).map_values(
                |e: CairoEvent| js_handler(e.name@),
            ),
        decreases events.len() - i,
    {
        let ghost before = parts@.map_values(|p: String| p@);
        let part = events[i].to_js_function();
        let ghost pv = part@;
        parts.push(part);
        assert(parts@.map_values(|p: String| p@) =~= before.push(pv));
        assert(events@.subrange(0, i + 1).map_values(|e: CairoEvent| js_handler(e.name@))
            =~= events@.subrange(0, i as int).map_values(|e: CairoEvent| js_handler(e.name@)).push(
            pv,
        ));
        i = i + 1;
    }
    assert(events@.subrange(0, i as int) =~= events@);
    join_strings(&parts, "\n")
}

/// The handler document of `events`.
pub fn generate_data_writer_content(events: &[CairoEvent]) -> (r: String)
    ensures
        r@ == data_writer(events_js(events@)),
{
    let mut s =
        "\nimport type { CheckpointWriter } from '@snapshot-labs/checkpoint';\n\nexport async function handleDeploy() {\n    new Error('Not implemented yet !');\n}\n\n".to_owned();
    s.append(events_to_js_function(events).as_str());
    s.append("\n        ");
    s
}

/// The schema file of a unit: `<Name>.gql`.
pub fn generate_model(domain: &FileDomain) -> (r: GeneratedFile)
    ensures
        file_view(r) == model_file(*domain),
{
    let mut name = domain.name.clone();
    name.append(".gql");
    GeneratedFile {
        name,
        content: generate_graphql_model(domain.name.as_str(), domain.events.as_slice()),
    }
}

/// The handler file of a unit: `<Name>DataWriter.js`.
pub fn generate_data_writer(domain: &FileDomain) -> (r: GeneratedFile)
    ensures
        file_view(r) == writer_file(*domain),
{
    let mut name = domain.name.clone();
    name.append("DataWriter.js");
    GeneratedFile { name, content: generate_data_writer_content(domain.events.as_slice()) }
}

/// The files of a run: a schema and a handler file for each unit with at
/// least one event, in order, then the run configuration whose serialized
/// text is `config`.
pub fn generate_indexer(file_domains: &[FileDomain], config: String) -> (r: Vec<GeneratedFile>)
    ensures
        files_view(r@) == units_files(file_domains@).push((config_file_name(), config@)),
{
    let mut files: Vec<GeneratedFile> = Vec::new();
    let mut i: usize = 0;
    assert(files_view(files@) =~= units_files(file_domains@.subrange(0, 0)));
    while i < file_domains.len()
        invariant
            i <= file_domains@.len(),
            files_view(files@) == units_files(file_domains@.subrange(0, i as int)),
        decreases file_domains.len() - i,
    {
        let domain = &file_domains[i];
        assert(file_domains@.subrange(0, i + 1).drop_last() =~= file_domains@.subrange(0, i as int));
        if domain.events.len() > 0 {
            let ghost before = files_view(files@);
            let m = generate_model(domain);
            let ghost mv = file_view(m);
            files.push(m);
            let w = generate_data_writer(domain);
            let ghost wv = file_view(w);
            files.push(w);
            assert(files_view(files@) =~= before.push(mv).push(wv));
        }
        i = i + 1;
    }
    assert(file_domains@.subrange(0, i as int) =~= file_domains@);
    let ghost before = files_view(files@);
    files.push(GeneratedFile { name: "configuration.json".to_owned(), content: config });
    assert(files_view(files@) =~= before.push((config_file_name(), config@)));
    files
}

/// One event of a configuration source: its trigger and its handler.
#[derive(Debug)]
pub struct CheckpointEvent {
    pub name: String,
    pub function: String,
}

/// One contract of the run configuration, with its events.
#[derive(Debug)]
pub struct CheckpointSource {
    pub contract: String,
    pub start: u64,
    pub deploy_fn: String,
    pub events: Vec<CheckpointEvent>,
}

/// The run configuration: one source per unit with at least one event.
#[derive(Debug)]
pub struct CheckpointConfiguration {
    pub network_node_url: String,
    pub sources: Vec<CheckpointSource>,
}

/// The placeholder written where the user must fill in a value.
pub open spec fn placeholder() -> Seq<char> {
    "<CHANGE_ME>"@
}

/// The configuration entry of an event: its trigger and handler names.
pub open spec fn config_event(e: CairoEvent) -> (Seq<char>, Seq<char>) {
    (trigger_name(lower_of(e.name@)), handler_name(e.name@))
}

pub open spec fn config_event_view(c: CheckpointEvent) -> (Seq<char>, Seq<char>) {
    (c.name@, c.function@)
}

/// A source as it must be for unit `d`: placeholder contract, start 0, the
/// deploy handler, and one entry per event in order.
pub open spec fn source_of(s: CheckpointSource, d: FileDomain) -> bool {
    &&& s.contract@ == placeholder()
    &&& s.start == 0
    &&& s.deploy_fn@ == "handleDeploy"@
    &&& s.events@.map_values(|c: CheckpointEvent| config_event_view(c)) == d.events@.map_values(
        |e: CairoEvent| config_event(e),
    )
}

/// The units that carry at least one event, in order.
pub open spec fn units_with_events(ds: Seq<FileDomain>) -> Seq<FileDomain> {
    ds.filter(|d: FileDomain| d.events@.len() > 0)
}

impl CheckpointEvent {
    /// The configuration entry of an event.
    pub fn from_event(e: &CairoEvent) -> (r: CheckpointEvent)
        ensures
            config_event_view(r) == config_event(*e),
    {
        CheckpointEvent { name: e.to_js_function_name_string(), function: e.to_js_function_string() }
    }
}

impl CheckpointSource {
    /// The configuration source of a unit.
    pub fn from_domain(d: &FileDomain) -> (r: CheckpointSource)
        ensures
            source_of(r, *d),
    {
        let mut events: Vec<CheckpointEvent> = Vec::new();
        let mut i: usize = 0;
        while i < d.events.len()
            invariant
                i <= d.events@.len(),
                events@.map_values(|c: CheckpointEvent| config_event_view(c))
                    == d.events@.subrange(0, i as int).map_values(|e: CairoEvent| config_event(e)),
            decreases d.events.len() - i,
        {
            let ghost before = events@.map_values(|c: CheckpointEvent| config_event_view(c));
            let c = CheckpointEvent::from_event(&d.events[i]);
            let ghost cv = config_event_view(c);
            events.push(c);
            assert(events@.map_values(|c: CheckpointEvent| config_event_view(c)) =~= before.push(cv));
            assert(d.events@.subrange(0, i + 1).map_values(|e: CairoEvent| config_event(e))
                =~= d.events@.subrange(0, i as int).map_values(|e: CairoEvent| config_event(e)).push(
                cv,
            ));
            i = i + 1;
        }
        assert(d.events@.subrange(0, i as int) =~= d.events@);
        CheckpointSource {
            contract: "<CHANGE_ME>".to_owned(),
            start: 0,
            deploy_fn: "handleDeploy".to_owned(),
            events,
        }
    }
}

impl CheckpointConfiguration {
    /// The run configuration of the units: one source per unit with at least
    /// one event, in order.
    pub fn from_domains(ds: &[FileDomain]) -> (r: CheckpointConfiguration)
        ensures
            r.network_node_url@ == placeholder(),
            r.sources@.len() == units_with_events(ds@).len(),
            forall|k: int|
                0 <= k < r.sources@.len() ==> source_of(
                    #[trigger] r.sources@[k],
                    units_with_events(ds@)[k],
                ),
    {
        let mut sources: Vec<CheckpointSource> = Vec::new();
        let mut i: usize = 0;
        proof {
            reveal(Seq::filter);
        }
        assert(ds@.subrange(0, 0).filter(|d: FileDomain| d.events@.len() > 0) =~= Seq::empty());
        while i < ds.len()
            invariant
                i <= ds@.len(),
                sources@.len() == units_with_events(ds@.subrange(0, i as int)).len(),
                forall|k: int|
                    0 <= k < sources@.len() ==> source_of(
                        #[trigger] sources@[k],
                        units_with_events(ds@.subrange(0, i as int))[k],
                    ),
            decreases ds.len() - i,
        {
            let ghost prev = ds@.subrange(0, i as int);
            assert(ds@.subrange(0, i + 1).drop_last() =~= prev);
            proof {
                reveal(Seq::filter);
            }
            if ds[i].events.len() > 0 {
                sources.push(CheckpointSource::from_domain(&ds[i]));
            }
            i = i + 1;
        }
        assert(ds@.subrange(0, i as int) =~= ds@);
        CheckpointConfiguration { network_node_url: "<CHANGE_ME>".to_owned(), sources }
    }
}

} // verus!
