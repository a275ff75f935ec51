//! Settled configurations of agents.

use crate::label::id_prefix;
use crate::launch::{Overrides, OverridesView};
use crate::text::{same, starts_with, texts};
use vstd::prelude::*;

verus! {

/// The endpoint of an agent that names none: a local Ollama.
pub const DEFAULT_ENDPOINT: &'static str = "http://localhost:11434/v1";

/// The model of an agent that names none.
pub const DEFAULT_MODEL: &'static str = "gemma4:latest";

/// What the registry of a workspace says of an agent.
#[derive(Debug)]
pub struct RegistryEntry {
    pub id: String,
    pub backend: String,
}

/// A [`RegistryEntry`] as a mathematical value.
pub struct EntryView {
    pub id: Seq<char>,
    pub backend: Seq<char>,
}

impl View for RegistryEntry {
    type V = EntryView;

    open spec fn view(&self) -> EntryView {
        EntryView { id: self.id@, backend: self.backend@ }
    }
}

/// The views of a registry.
pub open spec fn registry_view(v: Seq<RegistryEntry>) -> Seq<EntryView> {
    v.map_values(|e: RegistryEntry| e@)
}

/// What an agent's manifest says.
#[derive(Debug)]
pub struct Manifest {
    pub primary_model: String,
    pub base_url: Option<String>,
}

/// A resolved agent ready to start, with model and endpoint settled. `P` is the type of paths.
#[derive(Debug)]
pub struct AgentConfig<P> {
    pub agent_id: String,
    pub agent_path: P,
    pub backend: String,
    pub model: String,
    pub endpoint: String,
}

/// An [`AgentConfig`] as a mathematical value.
#[verifier::ext_equal]
pub struct ConfigView<P> {
    pub agent_id: Seq<char>,
    pub agent_path: P,
    pub backend: Seq<char>,
    pub model: Seq<char>,
    pub endpoint: Seq<char>,
}

impl<P> View for AgentConfig<P> {
    type V = ConfigView<P>;

    open spec fn view(&self) -> ConfigView<P> {
        ConfigView {
            agent_id: self.agent_id@,
            agent_path: self.agent_path,
            backend: self.backend@,
            model: self.model@,
            endpoint: self.endpoint@,
        }
    }
}

/// The model to use: the command line's, else the manifest's, else the default.
pub open spec fn model_of(with: OverridesView, manifest: Option<Manifest>) -> Seq<char> {
    match (with.model, manifest) {
        (Some(m), _) => m,
        (None, Some(f)) => f.primary_model@,
        (None, None) => DEFAULT_MODEL@,
    }
}

/// The endpoint to use: the command line's, else the manifest's, else the default.
pub open spec fn endpoint_of(with: OverridesView, manifest: Option<Manifest>) -> Seq<char> {
    if with.endpoint is Some {
        with.endpoint->0
    } else if manifest is Some && manifest->0.base_url is Some {
        manifest->0.base_url->0@
    } else {
        DEFAULT_ENDPOINT@
    }
}

fn settle_model(with: &Overrides, manifest: &Option<Manifest>) -> (model: String)
    ensures
        model@ == model_of(with@, *manifest),
{
    match &with.model {
        Some(m) => m.clone(),
        None => match manifest {
            Some(f) => f.primary_model.clone(),
            None => DEFAULT_MODEL.to_owned(),
        },
    }
}

fn settle_endpoint(with: &Overrides, manifest: &Option<Manifest>) -> (endpoint: String)
    ensures
        endpoint@ == endpoint_of(with@, *manifest),
{
    if let Some(e) = &with.endpoint {
        return e.clone();
    }
    if let Some(f) = manifest {
        if let Some(e) = &f.base_url {
            return e.clone();
        }
    }
    DEFAULT_ENDPOINT.to_owned()
}

// ---------------------------------------------------------------------------
// Agents of a workspace
// ---------------------------------------------------------------------------

/// The registry id that `name` stands for: the `agent-` prefix may be left out.
pub open spec fn lookup_id(name: Seq<char>) -> Seq<char> {
    if id_prefix().is_prefix_of(name) {
        name
    } else {
        "agent-"@ + name
    }
}

/// The position of the first entry with the given id, from `from` on.
pub open spec fn entry_with(entries: Seq<EntryView>, id: Seq<char>, from: int) -> Option<int>
    decreases entries.len() - from,
{
    if from < 0 || from >= entries.len() {
        None
    } else if entries[from].id == id {
        Some(from)
    } else {
        entry_with(entries, id, from + 1)
    }
}

/// Whether agents with this backend stream chat events: only the harness backends do.
pub open spec fn is_supported(backend: Seq<char>) -> bool {
    backend == "ollama"@ || backend == "openai-compatible"@
}

/// The position in the registry of the agent called `name`, or the complaint about it.
pub open spec fn resolved_agent(
    name: Seq<char>,
    workspace: Seq<char>,
    entries: Seq<EntryView>,
) -> Result<int, Seq<char>> {
    match entry_with(entries, lookup_id(name), 0) {
        None => Err("no agent named '"@ + name + "' in "@ + workspace),
        Some(i) => if is_supported(entries[i].backend) {
            Ok(i)
        } else {
            Err(
                "agent '"@ + entries[i].id + "' uses the '"@ + entries[i].backend
                    + "' backend — bwoc-chat renders the harness chat stream for ollama / openai-compatible. Use `bwoc spawn` for other vendor CLIs."@,
            )
        },
    }
}

/// The positions of the first `n` named agents, or the complaint about the first of them that cannot
/// be had.
pub open spec fn resolved_agents(
    names: Seq<Seq<char>>,
    workspace: Seq<char>,
    entries: Seq<EntryView>,
    n: int,
) -> Result<Seq<int>, Seq<char>>
    decreases n,
{
    if n <= 0 {
        Ok(Seq::empty())
    } else {
        match resolved_agents(names, workspace, entries, n - 1) {
            Err(e) => Err(e),
            Ok(before) => match resolved_agent(names[n - 1], workspace, entries) {
                Err(e) => Err(e),
                Ok(i) => Ok(before.push(i)),
            },
        }
    }
}

fn supports(backend: &str) -> (yes: bool)
    ensures
        yes == is_supported(backend@),
{
    same(backend, "ollama") || same(backend, "openai-compatible")
}

fn find_entry(entries: &Vec<RegistryEntry>, id: &str) -> (at: Option<usize>)
    ensures
        at is Some <==> entry_with(registry_view(entries@), id@, 0) is Some,
        at is Some ==> at->0 == entry_with(registry_view(entries@), id@, 0)->0 && at->0
            < entries@.len(),
{
    let ghost all = registry_view(entries@);
    let mut i: usize = 0;
    while i < entries.len()
        invariant
            i <= entries@.len(),
            all == registry_view(entries@),
            entry_with(all, id@, 0) == entry_with(all, id@, i as int),
        decreases entries.len() - i,
    {
        assert(all[i as int] == entries@[i as int]@);
        if same(entries[i].id.as_str(), id) {
            return Some(i);
        }
        i += 1;
    }
    None
}

/// Find the agent called `name` in the registry of the workspace, which messages call `workspace`.
/// Only agents whose backend streams chat events can be had.
pub fn resolve_workspace_agent(name: &str, workspace: &str, entries: &Vec<RegistryEntry>) -> (out:
    Result<usize, String>)
    ensures
        out is Ok <==> resolved_agent(name@, workspace@, registry_view(entries@)) is Ok,
        out is Ok ==> out->Ok_0 < entries@.len() && out->Ok_0 == resolved_agent(
            name@,
            workspace@,
            registry_view(entries@),
        )->Ok_0,
        out is Err ==> out->Err_0@ == resolved_agent(
            name@,
            workspace@,
            registry_view(entries@),
        )->Err_0,
{
    let id = if starts_with(name, "agent-") {
        name.to_owned()
    } else {
        let mut id = "agent-".to_owned();
        id.append(name);
        id
    };
    match find_entry(entries, id.as_str()) {
        None => {
            let mut e = "no agent named '".to_owned();
            e.append(name);
            e.append("' in ");
            e.append(workspace);
            Err(e)
        },
        Some(i) => {
            let entry = &entries[i];
            assert(registry_view(entries@)[i as int] == entry@);
            if supports(entry.backend.as_str()) {
                Ok(i)
            } else {
                let mut e = "agent '".to_owned();
                e.append(entry.id.as_str());
                e.append("' uses the '");
                e.append(entry.backend.as_str());
                e.append(
                    "' backend — bwoc-chat renders the harness chat stream for ollama / openai-compatible. Use `bwoc spawn` for other vendor CLIs.",
                );
                Err(e)
            }
        },
    }
}

/// Find every named agent in the registry; the first that cannot be had is fatal.
pub fn resolve_workspace_agents(
    names: &Vec<String>,
    workspace: &str,
    entries: &Vec<RegistryEntry>,
) -> (out: Result<Vec<usize>, String>)
    ensures
        ({
            let want = resolved_agents(
                texts(names@),
                workspace@,
                registry_view(entries@),
                names@.len() as int,
            );
            &&& out is Ok <==> want is Ok
            &&& out is Ok ==> out->Ok_0@.map_values(|i: usize| i as int) == want->Ok_0
            &&& out is Err ==> out->Err_0@ == want->Err_0
        }),
        out is Ok ==> forall|k: int|
            0 <= k < out->Ok_0@.len() ==> #[trigger] out->Ok_0@[k] < entries@.len(),
{
    let ghost all = texts(names@);
    let ghost registry = registry_view(entries@);
    let mut found: Vec<usize> = Vec::new();
    let mut i: usize = 0;
    assert(found@.map_values(|i: usize| i as int) =~= Seq::<int>::empty());
    while i < names.len()
        invariant
            i <= names@.len(),
            all == texts(names@),
            registry == registry_view(entries@),
            resolved_agents(all, workspace@, registry, i as int) == Ok::<Seq<int>, Seq<char>>(
                found@.map_values(|i: usize| i as int),
            ),
            forall|k: int| 0 <= k < found@.len() ==> #[trigger] found@[k] < entries@.len(),
        decreases names.len() - i,
    {
        assert(all[i as int] == names@[i as int]@);
        match resolve_workspace_agent(names[i].as_str(), workspace, entries) {
            Ok(at) => {
                let ghost sofar = found@;
                found.push(at);
                assert(found@.map_values(|i: usize| i as int) =~= sofar.map_values(
                    |i: usize| i as int,
                ).push(at as int));
            },
            Err(e) => {
                proof {
                    lemma_first_complaint(all, workspace@, registry, i + 1, all.len() as int);
                }
                return Err(e);
            },
        }
        i += 1;
    }
    Ok(found)
}

proof fn lemma_first_complaint(
    names: Seq<Seq<char>>,
    workspace: Seq<char>,
    entries: Seq<EntryView>,
    m: int,
    n: int,
)
    requires
        0 <= m <= n,
        resolved_agents(names, workspace, entries, m) is Err,
    ensures
        resolved_agents(names, workspace, entries, n) == resolved_agents(
            names,
            workspace,
            entries,
            m,
        ),
    decreases n - m,
{
    if m < n {
        lemma_first_complaint(names, workspace, entries, m, n - 1);
    }
}

impl<P> AgentConfig<P> {
    /// The configuration of an agent of a workspace, whose directory is `path` and whose manifest,
    /// if it could be read, is `manifest`.
    pub fn from_entry(
        entry: &RegistryEntry,
        path: P,
        manifest: &Option<Manifest>,
        with: &Overrides,
    ) -> (cfg: Self)
        ensures
            cfg@ == (ConfigView {
                agent_id: entry.id@,
                agent_path: path,
                backend: entry.backend@,
                model: model_of(with@, *manifest),
                endpoint: endpoint_of(with@, *manifest),
            }),
    {
        AgentConfig {
            agent_id: entry.id.clone(),
            agent_path: path,
            backend: entry.backend.clone(),
            model: settle_model(with, manifest),
            endpoint: settle_endpoint(with, manifest),
        }
    }

    /// The configuration of the agent in a directory, without workspace and registry. `is_dir` says
    /// whether `dir` is a directory, `shown` is how messages call it, `name` is its last component.
    pub fn from_dir(
        dir: P,
        is_dir: bool,
        shown: &str,
        name: Option<String>,
        manifest: &Option<Manifest>,
        with: &Overrides,
    ) -> (out: Result<Self, String>)
        ensures
            out is Ok <==> is_dir,
            out is Ok ==> out->Ok_0@ == (ConfigView {
                agent_id: match name {
                    Some(n) => n@,
                    None => "agent"@,
                },
                agent_path: dir,
                backend: "ollama"@,
                model: model_of(with@, *manifest),
                endpoint: endpoint_of(with@, *manifest),
            }),
            out is Err ==> out->Err_0@ == "not a directory: "@ + shown@,
    {
        if !is_dir {
            let mut e = "not a directory: ".to_owned();
            e.append(shown);
            return Err(e);
        }
        let agent_id = match name {
            Some(n) => n,
            None => "agent".to_owned(),
        };
        Ok(
            AgentConfig {
                agent_id,
                agent_path: dir,
                backend: "ollama".to_owned(),
                model: settle_model(with, manifest),
                endpoint: settle_endpoint(with, manifest),
            },
        )
    }
}

// ---------------------------------------------------------------------------
// Starting an agent
// ---------------------------------------------------------------------------

/// An argument of an agent's process.
#[derive(Debug)]
pub enum HarnessArg {
    Text { text: String },
    /// The agent's directory.
    Workdir,
}

/// A [`HarnessArg`] as a mathematical value.
pub enum HarnessArgView {
    Text { text: Seq<char> },
    Workdir,
}

impl View for HarnessArg {
    type V = HarnessArgView;

    open spec fn view(&self) -> HarnessArgView {
        match *self {
            HarnessArg::Text { text } => HarnessArgView::Text { text: text@ },
            HarnessArg::Workdir => HarnessArgView::Workdir,
        }
    }
}

/// The arguments of an agent's process. The process is not confined to its directory: what guards
/// the machine is the permission request before each action.
pub open spec fn harness_line<P>(cfg: ConfigView<P>) -> Seq<HarnessArgView> {
    seq![
        HarnessArgView::Text { text: "--chat"@ },
        HarnessArgView::Text { text: "--unrestricted"@ },
        HarnessArgView::Text { text: "--workdir"@ },
        HarnessArgView::Workdir,
        HarnessArgView::Text { text: "--backend"@ },
        HarnessArgView::Text { text: cfg.backend },
        HarnessArgView::Text { text: "--model"@ },
        HarnessArgView::Text { text: cfg.model },
        HarnessArgView::Text { text: "--endpoint"@ },
        HarnessArgView::Text { text: cfg.endpoint },
    ]
}

fn text_arg(text: &str) -> (arg: HarnessArg)
    ensures
        arg@ == (HarnessArgView::Text { text: text@ }),
{
    HarnessArg::Text { text: text.to_owned() }
}

/// The arguments of an agent's process.
pub fn harness_args<P>(cfg: &AgentConfig<P>) -> (args: Vec<HarnessArg>)
    ensures
        args@.map_values(|a: HarnessArg| a@) == harness_line(cfg@),
{
    let mut args: Vec<HarnessArg> = Vec::new();
    args.push(text_arg("--chat"));
    args.push(text_arg("--unrestricted"));
    args.push(text_arg("--workdir"));
    args.push(HarnessArg::Workdir);
    args.push(text_arg("--backend"));
    args.push(text_arg(cfg.backend.as_str()));
    args.push(text_arg("--model"));
    args.push(text_arg(cfg.model.as_str()));
    args.push(text_arg("--endpoint"));
    args.push(text_arg(cfg.endpoint.as_str()));
    assert(args@.map_values(|a: HarnessArg| a@) =~= harness_line(cfg@));
    args
}

/// The two spellings of an agent's name, with and without the prefix, stand for the same id.
pub proof fn law_prefix_is_optional(name: Seq<char>)
    requires
        !id_prefix().is_prefix_of(name),
    ensures
        lookup_id(name) == lookup_id("agent-"@ + name),
        crate::label::short_name(lookup_id(name)) == name,
{
    reveal_strlit("agent-");
    let id = "agent-"@ + name;
    assert(id.subrange(0, 6) =~= "agent-"@);
    assert(id.skip(6) =~= name);
}

/// An agent that is found is the one that was named, with a backend that streams chat events; one that
/// is named and has such a backend is found.
pub proof fn law_found_agent_was_named(
    name: Seq<char>,
    workspace: Seq<char>,
    entries: Seq<EntryView>,
    i: int,
)
    requires
        0 <= i < entries.len(),
        forall|j: int| 0 <= j < i ==> (#[trigger] entries[j]).id != lookup_id(name),
    ensures
        resolved_agent(name, workspace, entries) == Ok::<int, Seq<char>>(i) <==> entries[i].id
            == lookup_id(name) && (entries[i].backend == "ollama"@ || entries[i].backend
            == "openai-compatible"@),
{
    lemma_entry_with(entries, lookup_id(name), 0, i);
}

proof fn lemma_entry_with(entries: Seq<EntryView>, id: Seq<char>, from: int, i: int)
    requires
        0 <= from <= i < entries.len(),
        forall|j: int| from <= j < i ==> (#[trigger] entries[j]).id != id,
    ensures
        entry_with(entries, id, from) == Some(i) <==> entries[i].id == id,
    decreases i - from,
{
    if from < i {
        assert(entries[from].id != id);
        lemma_entry_with(entries, id, from + 1, i);
    } else if entries[i].id != id {
        lemma_entry_after(entries, id, i + 1);
    }
}

proof fn lemma_entry_after(entries: Seq<EntryView>, id: Seq<char>, from: int)
    requires
        0 <= from,
    ensures
        entry_with(entries, id, from) is Some ==> entry_with(entries, id, from)->0 >= from,
    decreases entries.len() - from,
{
    if from < entries.len() && entries[from].id != id {
        lemma_entry_after(entries, id, from + 1);
    }
}

/// The command line goes before the manifest, and the manifest before the defaults.
pub proof fn law_settings_precedence(with: OverridesView, manifest: Option<Manifest>)
    ensures
        with.model is Some ==> model_of(with, manifest) == with.model->0,
        with.model is None && manifest is Some ==> model_of(with, manifest)
            == manifest->0.primary_model@,
        with.model is None && manifest is None ==> model_of(with, manifest) == DEFAULT_MODEL@,
        with.endpoint is Some ==> endpoint_of(with, manifest) == with.endpoint->0,
        with.endpoint is None && manifest is Some && manifest->0.base_url is Some ==> endpoint_of(
            with,
            manifest,
        ) == manifest->0.base_url->0@,
        with.endpoint is None && (manifest is None || manifest->0.base_url is None)
            ==> endpoint_of(with, manifest) == DEFAULT_ENDPOINT@,
{
}

/// A name stands for an id with the `agent-` prefix: the name itself if it has the prefix, and else the
/// name behind it.
pub proof fn law_names_stand_for_ids(name: Seq<char>)
    ensures
        ("agent-"@).is_prefix_of(name) ==> lookup_id(name) == name,
        !("agent-"@).is_prefix_of(name) ==> lookup_id(name) == "agent-"@ + name,
        ("agent-"@).is_prefix_of(lookup_id(name)),
{
    reveal_strlit("agent-");
    assert(("agent-"@ + name).subrange(0, 6) =~= "agent-"@);
}

proof fn lemma_no_entry(entries: Seq<EntryView>, id: Seq<char>, from: int)
    requires
        0 <= from,
        forall|j: int| from <= j < entries.len() ==> (#[trigger] entries[j]).id != id,
    ensures
        entry_with(entries, id, from) is None,
    decreases entries.len() - from,
{
    if from < entries.len() {
        assert(entries[from].id != id);
        lemma_no_entry(entries, id, from + 1);
    }
}

/// A name without an entry is refused with the name and the workspace; a name whose first entry has a
/// backend that streams no chat is refused with the id and the backend.
pub proof fn law_refused_agents(
    name: Seq<char>,
    workspace: Seq<char>,
    entries: Seq<EntryView>,
    i: int,
)
    ensures
        (forall|j: int| 0 <= j < entries.len() ==> (#[trigger] entries[j]).id != lookup_id(name))
            ==> resolved_agent(name, workspace, entries) == Err::<int, Seq<char>>(
            "no agent named '"@ + name + "' in "@ + workspace,
        ),
        0 <= i < entries.len() && entries[i].id == lookup_id(name) && (forall|j: int|
            0 <= j < i ==> (#[trigger] entries[j]).id != lookup_id(name)) && entries[i].backend
            != "ollama"@ && entries[i].backend != "openai-compatible"@ ==> resolved_agent(
            name,
            workspace,
            entries,
        ) == Err::<int, Seq<char>>(
            "agent '"@ + entries[i].id + "' uses the '"@ + entries[i].backend
                + "' backend — bwoc-chat renders the harness chat stream for ollama / openai-compatible. Use `bwoc spawn` for other vendor CLIs."@,
        ),
{
    let id = lookup_id(name);
    if forall|j: int| 0 <= j < entries.len() ==> (#[trigger] entries[j]).id != id {
        lemma_no_entry(entries, id, 0);
    }
    if 0 <= i < entries.len() && entries[i].id == id && (forall|j: int|
        0 <= j < i ==> (#[trigger] entries[j]).id != id) {
        lemma_entry_with(entries, id, 0, i);
    }
}

/// A team is had if each of its agents is, in the order of the names; else the complaint is the one
/// about the first agent that cannot be had.
pub proof fn law_team_is_all_or_nothing(
    names: Seq<Seq<char>>,
    workspace: Seq<char>,
    entries: Seq<EntryView>,
    n: int,
    bad: int,
)
    requires
        0 <= n <= names.len(),
    ensures
        ({
            let out = resolved_agents(names, workspace, entries, n);
            &&& out is Ok <==> forall|k: int|
                0 <= k < n ==> resolved_agent(#[trigger] names[k], workspace, entries) is Ok
            &&& out is Ok ==> out->Ok_0.len() == n && forall|k: int|
                0 <= k < n ==> resolved_agent(#[trigger] names[k], workspace, entries) == Ok::<
                    int,
                    Seq<char>,
                >(out->Ok_0[k])
            &&& 0 <= bad < n && (forall|k: int|
                0 <= k < bad ==> resolved_agent(#[trigger] names[k], workspace, entries) is Ok)
                && resolved_agent(names[bad], workspace, entries) is Err ==> out is Err
                && out->Err_0 == resolved_agent(names[bad], workspace, entries)->Err_0
        }),
    decreases n,
{
    if n > 0 {
        law_team_is_all_or_nothing(names, workspace, entries, n - 1, bad);
        let out = resolved_agents(names, workspace, entries, n);
        if forall|k: int|
            0 <= k < n ==> resolved_agent(#[trigger] names[k], workspace, entries) is Ok {
            assert(resolved_agent(names[n - 1], workspace, entries) is Ok);
        }
    }
}

/// An agent's process streams its chat unrestricted, in the agent's directory and with the agent's
/// backend, model and endpoint, each behind its flag.
pub proof fn law_process_gets_settings<P>(cfg: ConfigView<P>)
    ensures
        harness_line(cfg).len() == 10,
        harness_line(cfg)[0] == (HarnessArgView::Text { text: "--chat"@ }),
        harness_line(cfg)[1] == (HarnessArgView::Text { text: "--unrestricted"@ }),
        harness_line(cfg)[2] == (HarnessArgView::Text { text: "--workdir"@ }),
        harness_line(cfg)[3] is Workdir,
        harness_line(cfg)[4] == (HarnessArgView::Text { text: "--backend"@ }),
        harness_line(cfg)[5] == (HarnessArgView::Text { text: cfg.backend }),
        harness_line(cfg)[6] == (HarnessArgView::Text { text: "--model"@ }),
        harness_line(cfg)[7] == (HarnessArgView::Text { text: cfg.model }),
        harness_line(cfg)[8] == (HarnessArgView::Text { text: "--endpoint"@ }),
        harness_line(cfg)[9] == (HarnessArgView::Text { text: cfg.endpoint }),
{
}

/// An entry of the registry and a configuration mean what their fields hold.
pub proof fn law_config_means_its_fields<P>(entries: Seq<RegistryEntry>, cfg: AgentConfig<P>, k: int)
    ensures
        registry_view(entries).len() == entries.len(),
        0 <= k < entries.len() ==> registry_view(entries)[k].id == entries[k].id@ && registry_view(
            entries,
        )[k].backend == entries[k].backend@,
        cfg@.agent_id == cfg.agent_id@ && cfg@.agent_path == cfg.agent_path,
        cfg@.backend == cfg.backend@ && cfg@.model == cfg.model@ && cfg@.endpoint == cfg.endpoint@,
{
}

} // verus!
