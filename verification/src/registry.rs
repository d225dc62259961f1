use crate::dispatcher::{opt_view, apply_requests, outcome_fits, payload_requests, process_payload, PayloadOutcome};
use crate::graph::{graph_holds, lemma_no_duplicates_take, lemma_push_no_duplicates, lemma_push_to_set, graph_wf, lists_entities, lists_relations, GraphView, MemoryGraph};
use crate::graph_laws::change_cleared;
use crate::models::{entities_view, relations_view, Graph, MemoryScope};
use crate::protocol::{ResourceContext, RpcPayload};
use crate::text::{chars_of, concat, owned};
use dashmap::DashMap;
use vstd::prelude::*;

verus! {

/// The key of a loaded graph: its project and its scope (`None` for the shared one,
/// the agent's id for a private one).
pub type RegistryKey = (String, Option<String>);

/// The view of a registry key.
pub type RegistryKeyView = (Seq<char>, Option<Seq<char>>);

/// What a graph table holds: the graph loaded under each key.
pub uninterp spec fn graph_table(m: DashMap<RegistryKey, MemoryGraph>) -> Map<
    RegistryKeyView,
    GraphView,
>;

/// The view of a registry key.
pub open spec fn key_view(k: RegistryKey) -> RegistryKeyView {
    (k.0@, opt_view(k.1))
}

/// Views a list of registry keys.
pub open spec fn registry_keys_view(v: Seq<RegistryKey>) -> Seq<RegistryKeyView> {
    v.map_values(|k: RegistryKey| key_view(k))
}

/// `DashMap::new`: a graph table that holds nothing.
#[verifier::external_body]
fn graph_table_new() -> (r: DashMap<RegistryKey, MemoryGraph>)
    ensures
        graph_table(r).is_empty(),
{
    DashMap::new()
}

/// `DashMap::contains_key`: whether a graph is loaded under `k`.
#[verifier::external_body]
fn graph_table_contains(m: &DashMap<RegistryKey, MemoryGraph>, k: &RegistryKey) -> (r: bool)
    ensures
        r == graph_table(*m).contains_key(key_view(*k)),
{
    m.contains_key(k)
}

/// `DashMap::remove`: takes the graph loaded under `k` out of the table.
#[verifier::external_body]
fn graph_table_take(m: &mut DashMap<RegistryKey, MemoryGraph>, k: &RegistryKey) -> (r: Option<MemoryGraph>)
    ensures
        graph_table(*final(m)) == graph_table(*old(m)).remove(key_view(*k)),
        match r {
            Some(g) => graph_table(*old(m)).contains_key(key_view(*k)) && g@ == graph_table(*old(m))[key_view(*k)],
            None => !graph_table(*old(m)).contains_key(key_view(*k)),
        },
{
    m.remove(k).map(|(_, g)| g)
}

/// `DashMap::insert`: puts `g` under `k`, replacing what was there.
#[verifier::external_body]
fn graph_table_insert(m: &mut DashMap<RegistryKey, MemoryGraph>, k: RegistryKey, g: MemoryGraph)
    ensures
        graph_table(*final(m)) == graph_table(*old(m)).insert(key_view(k), g@),
{
    m.insert(k, g);
}

/// `DashMap::iter`, each key copied out. Every key comes out exactly once; the order is
/// not stated.
#[verifier::external_body]
fn graph_table_keys(m: &DashMap<RegistryKey, MemoryGraph>) -> (r: Vec<RegistryKey>)
    ensures
        registry_keys_view(r@).no_duplicates(),
        registry_keys_view(r@).to_set() == graph_table(*m).dom(),
{
    m.iter().map(|entry| entry.key().clone()).collect()
}

/// `part` appended to the path `base` as a Unix path: an absolute part replaces the
/// base, and a separator is put between them when the base does not end with one.
pub open spec fn path_join(base: Seq<char>, part: Seq<char>) -> Seq<char> {
    if has_leading_slash(part) || base.len() == 0 {
        part
    } else if base.last() == '/' {
        base + part
    } else {
        base + "/"@ + part
    }
}

/// Whether a path is absolute.
pub open spec fn has_leading_slash(p: Seq<char>) -> bool {
    p.len() > 0 && p[0] == '/'
}

/// Appends `part` to the path `base` (see `path_join`).
pub fn join_path(base: &str, part: &str) -> (r: String)
    ensures
        r@ == path_join(base@, part@),
{
    let b = chars_of(base);
    let p = chars_of(part);
    if (p.len() > 0 && p[0] == '/') || b.len() == 0 {
        owned(part)
    } else if b[b.len() - 1] == '/' {
        concat(base, part)
    } else {
        let with_sep = concat(base, "/");
        concat(with_sep.as_str(), part)
    }
}

/// The name of the file that holds a graph: `shared.json`, or `agent_{id}.json`.
pub open spec fn graph_file_name(scope: Option<Seq<char>>) -> Seq<char> {
    match scope {
        None => "shared.json"@,
        Some(id) => "agent_"@ + id + ".json"@,
    }
}

/// The name of the file that holds the graph of `scope`.
pub fn file_name(scope: &MemoryScope) -> (r: String)
    ensures
        r@ == graph_file_name(scope@),
{
    match scope {
        MemoryScope::Shared => owned("shared.json"),
        MemoryScope::Agent(id) => {
            let head = concat("agent_", id.as_str());
            concat(head.as_str(), ".json")
        },
    }
}

/// The key under which the graph of a project and scope is loaded.
fn key_of(project_id: &str, scope: &MemoryScope) -> (r: RegistryKey)
    ensures
        key_view(r) == (project_id@, scope@),
{
    let s = match scope {
        MemoryScope::Shared => None,
        MemoryScope::Agent(id) => Some(id.clone()),
    };
    (owned(project_id), s)
}

/// A copy of a registry key.
fn clone_key(k: &RegistryKey) -> (r: RegistryKey)
    ensures
        key_view(r) == key_view(*k),
{
    let s = match &k.1 {
        None => None,
        Some(id) => Some(id.clone()),
    };
    (k.0.clone(), s)
}

/// The scope named by a registry key.
fn scope_of(k: &Option<String>) -> (r: MemoryScope)
    ensures
        r@ == opt_view(*k),
{
    match k {
        None => MemoryScope::Shared,
        Some(id) => MemoryScope::Agent(id.clone()),
    }
}

/// A graph to be written: where it comes from, the file it goes to, and its contents.
pub struct SaveJob {
    pub project_id: String,
    pub scope: MemoryScope,
    pub path: String,
    pub graph: Graph,
}

/// The key of the graph that a save job writes.
pub open spec fn job_key(j: SaveJob) -> RegistryKeyView {
    (j.project_id@, j.scope@)
}

/// The keys of a list of save jobs.
pub open spec fn job_keys(jobs: Seq<SaveJob>) -> Seq<RegistryKeyView> {
    jobs.map_values(|j: SaveJob| job_key(j))
}

/// The loaded graphs after a payload is handled on the graph under `k`: that graph
/// takes the payload's requests, first to last, and no other changes.
pub open spec fn after_payload(
    loaded: Map<RegistryKeyView, GraphView>,
    k: RegistryKeyView,
    payload: RpcPayload,
) -> Map<RegistryKeyView, GraphView> {
    loaded.insert(k, apply_requests(loaded[k], payload_requests(payload)))
}

/// One graph per project and scope. Graphs of different projects, or of different
/// scopes (the shared scope is no agent's, and agents with different ids differ), are
/// under different keys; handling a payload under one key leaves every other loaded
/// graph as it was; and a payload handled after another under the same key works on
/// the graph that the first one left.
pub proof fn lemma_one_graph_per_key(
    loaded: Map<RegistryKeyView, GraphView>,
    k1: RegistryKeyView,
    k2: RegistryKeyView,
    p1: RpcPayload,
    p2: RpcPayload,
    id: String,
    other: String,
)
    requires
        loaded.contains_key(k1),
    ensures
        MemoryScope::Shared@ != MemoryScope::Agent(id)@,
        (MemoryScope::Agent(id)@ == MemoryScope::Agent(other)@) == (id@ == other@),
        k2 != k1 ==> after_payload(loaded, k1, p1).contains_key(k2) == loaded.contains_key(k2)
            && after_payload(loaded, k1, p1)[k2] == loaded[k2],
        after_payload(after_payload(loaded, k1, p1), k1, p2)[k1] == apply_requests(
            apply_requests(loaded[k1], payload_requests(p1)),
            payload_requests(p2),
        ),
{
}

/// The graphs loaded by the server, by project and scope, under a storage root.
pub struct GraphRegistry {
    root_dir: String,
    graphs: DashMap<RegistryKey, MemoryGraph>,
}

impl GraphRegistry {
    /// The storage root.
    pub closed spec fn root(&self) -> Seq<char> {
        self.root_dir@
    }

    /// The graphs loaded, by key.
    pub closed spec fn loaded(&self) -> Map<RegistryKeyView, GraphView> {
        graph_table(self.graphs)
    }

    /// Every loaded graph is well formed.
    pub open spec fn wf(&self) -> bool {
        forall|k: RegistryKeyView| #[trigger] self.loaded().contains_key(k) ==> graph_wf(
            self.loaded()[k],
        )
    }

    /// A registry under `root_dir` with no graph loaded.
    pub fn new(root_dir: String) -> (r: GraphRegistry)
        ensures
            r.wf(),
            r.root() == root_dir@,
            r.loaded().is_empty(),
    {
        GraphRegistry { root_dir, graphs: graph_table_new() }
    }

    /// The file of the graph of a project and scope: `{root}/{project}/{file name}`,
    /// joined as paths.
    pub fn resolve_path(&self, project_id: &str, scope: &MemoryScope) -> (r: String)
        ensures
            r@ == path_join(path_join(self.root(), project_id@), graph_file_name(scope@)),
    {
        let dir = join_path(self.root_dir.as_str(), project_id);
        let name = file_name(scope);
        join_path(dir.as_str(), name.as_str())
    }

    /// Whether the graph of a project and scope is loaded.
    pub fn is_loaded(&self, project_id: &str, scope: &MemoryScope) -> (r: bool)
        ensures
            r == self.loaded().contains_key((project_id@, scope@)),
    {
        let k = key_of(project_id, scope);
        graph_table_contains(&self.graphs, &k)
    }

    /// Loads `graph` as the graph of a project and scope, unless one is loaded already,
    /// which is then kept.
    pub fn install(&mut self, project_id: &str, scope: &MemoryScope, graph: MemoryGraph)
        requires
            old(self).wf(),
            graph.wf(),
        ensures
            final(self).wf(),
            final(self).root() == old(self).root(),
            old(self).loaded().contains_key((project_id@, scope@)) ==> final(self).loaded()
                == old(self).loaded(),
            !old(self).loaded().contains_key((project_id@, scope@)) ==> final(self).loaded()
                == old(self).loaded().insert((project_id@, scope@), graph@),
    {
        let k = key_of(project_id, scope);
        let ghost kv = key_view(k);
        if !graph_table_contains(&self.graphs, &k) {
            graph_table_insert(&mut self.graphs, k, graph);
            proof {
                assert forall|x: RegistryKeyView| #[trigger] self.loaded().contains_key(x) implies graph_wf(self.loaded()[x]) by {
                    if x != kv {
                        assert(old(self).loaded().contains_key(x));
                    }
                }
            }
        }
    }

    /// Handles a payload on the loaded graph of a project and scope, as
    /// `process_payload` does; gives nothing when that graph is not loaded.
    pub fn handle_payload(
        &mut self,
        project_id: &str,
        scope: &MemoryScope,
        payload: &RpcPayload,
        ctx: &ResourceContext,
    ) -> (r: Option<PayloadOutcome>)
        requires
            old(self).wf(),
        ensures
            final(self).wf(),
            final(self).root() == old(self).root(),
            r is Some == old(self).loaded().contains_key((project_id@, scope@)),
            r is None ==> final(self).loaded() == old(self).loaded(),
            r matches Some(out) ==> {
                &&& final(self).loaded() == after_payload(
                    old(self).loaded(),
                    (project_id@, scope@),
                    *payload,
                )
                &&& outcome_fits(old(self).loaded()[(project_id@, scope@)], *payload, *ctx, out)
            },
    {
        let k = key_of(project_id, scope);
        let ghost kv = key_view(k);
        match graph_table_take(&mut self.graphs, &k) {
            Some(mut graph) => {
                proof {
                    assert(old(self).loaded().contains_key(kv));
                }
                let out = process_payload(&mut graph, payload, ctx);
                let ghost before = self.loaded();
                graph_table_insert(&mut self.graphs, k, graph);
                proof {
                    assert(self.loaded() =~= old(self).loaded().insert(kv, graph@));
                    assert forall|x: RegistryKeyView| #[trigger] self.loaded().contains_key(x) implies graph_wf(self.loaded()[x]) by {
                        if x != kv {
                            assert(old(self).loaded().contains_key(x));
                        }
                    }
                }
                Some(out)
            },
            None => {
                proof {
                    assert(self.loaded() =~= old(self).loaded());
                }
                None
            },
        }
    }

    /// Records that a job was written: the change record of the job's graph is cleared
    /// when that graph is loaded and still holds exactly what the job wrote, and is left
    /// as it is otherwise, so a change made after `save_jobs` stays to be saved. Tells
    /// whether it cleared the record.
    pub fn mark_saved(&mut self, job: &SaveJob) -> (cleared: bool)
        requires
            old(self).wf(),
        ensures
            final(self).wf(),
            final(self).root() == old(self).root(),
            cleared == (old(self).loaded().contains_key(job_key(*job)) && graph_holds(
                old(self).loaded()[job_key(*job)],
                job.graph,
            )),
            cleared ==> final(self).loaded() == old(self).loaded().insert(
                job_key(*job),
                change_cleared(old(self).loaded()[job_key(*job)]),
            ),
            !cleared ==> final(self).loaded() == old(self).loaded(),
    {
        let k = key_of(job.project_id.as_str(), &job.scope);
        let ghost kv = key_view(k);
        match graph_table_take(&mut self.graphs, &k) {
            Some(mut graph) => {
                proof {
                    assert(old(self).loaded().contains_key(kv));
                }
                let unchanged = graph.holds(&job.graph);
                if unchanged {
                    graph.clear_dirty();
                }
                graph_table_insert(&mut self.graphs, k, graph);
                proof {
                    assert(self.loaded() =~= old(self).loaded().insert(kv, graph@));
                    if !unchanged {
                        assert(self.loaded() =~= old(self).loaded());
                    }
                    assert forall|x: RegistryKeyView| #[trigger] self.loaded().contains_key(x) implies graph_wf(self.loaded()[x]) by {
                        if x != kv {
                            assert(old(self).loaded().contains_key(x));
                        }
                    }
                }
                unchanged
            },
            None => {
                proof {
                    assert(self.loaded() =~= old(self).loaded());
                }
                false
            },
        }
    }

    /// What is to be written: one job per loaded graph that changed since it was last
    /// saved, each with the graph's file and its contents, in no stated order. The
    /// graphs are left as they are.
    pub fn save_jobs(&mut self) -> (jobs: Vec<SaveJob>)
        requires
            old(self).wf(),
        ensures
            final(self).wf(),
            final(self).root() == old(self).root(),
            final(self).loaded() == old(self).loaded(),
            job_keys(jobs@).no_duplicates(),
            job_keys(jobs@).to_set() == old(self).loaded().dom().filter(
                |k: RegistryKeyView| old(self).loaded()[k].dirty,
            ),
            forall|i: int|
                0 <= i < jobs@.len() ==> {
                    let k = job_key(#[trigger] jobs@[i]);
                    &&& graph_holds(old(self).loaded()[k], jobs@[i].graph)
                    &&& jobs@[i].path@ == path_join(
                        path_join(old(self).root(), k.0),
                        graph_file_name(k.1),
                    )
                },
    {
        let ghost table = self.loaded();
        let keys = graph_table_keys(&self.graphs);
        let ghost kv = registry_keys_view(keys@);
        let mut jobs: Vec<SaveJob> = Vec::new();
        for i in 0..keys.len()
            invariant
                self.wf(),
                self.root() == old(self).root(),
                self.loaded() == table,
                table == old(self).loaded(),
                kv == registry_keys_view(keys@),
                kv.no_duplicates(),
                kv.to_set() == table.dom(),
                job_keys(jobs@).no_duplicates(),
                job_keys(jobs@).to_set() == kv.take(i as int).to_set().filter(
                    |k: RegistryKeyView| table[k].dirty,
                ),
                forall|j: int|
                    0 <= j < jobs@.len() ==> {
                        let k = job_key(#[trigger] jobs@[j]);
                        &&& lists_entities(table[k].entities, entities_view(jobs@[j].graph.entities@))
                        &&& lists_relations(table[k].relations, relations_view(jobs@[j].graph.relations@))
                        &&& jobs@[j].path@ == path_join(path_join(old(self).root(), k.0), graph_file_name(k.1))
                    },
        {
            let ghost k = kv[i as int];
            proof {
                assert(keys@[i as int].0@ == k.0);
                assert(kv.take(i + 1) =~= kv.take(i as int).push(k));
                lemma_push_to_set(kv.take(i as int), k);
                lemma_no_duplicates_take(kv, i as int);
                assert(kv.to_set().contains(k));
            }
            let key = &keys[i];
            let taken = graph_table_take(&mut self.graphs, key);
            match taken {
                Some(mut graph) => {
                    proof {
                        assert(table.contains_key(k));
                    }
                    if graph.is_dirty() {
                        let scope = scope_of(&key.1);
                        let path = self.resolve_path(key.0.as_str(), &scope);
                        let contents = graph.to_serializable();
                        let job = SaveJob { project_id: key.0.clone(), scope, path, graph: contents };
                        proof {
                            let jk = job_keys(jobs@);
                            assert(job_key(job) == k);
                            assert(!jk.contains(k)) by {
                                if jk.contains(k) {
                                    assert(jk.to_set().contains(k));
                                }
                            }
                            assert(job_keys(jobs@.push(job)) =~= jk.push(k));
                            lemma_push_no_duplicates(jk, k);
                            lemma_push_to_set(jk, k);
                            assert(jk.push(k).to_set() =~= kv.take(i + 1).to_set().filter(
                                |x: RegistryKeyView| table[x].dirty,
                            ));
                        }
                        jobs.push(job);
                    } else {
                        proof {
                            assert(job_keys(jobs@).to_set() =~= kv.take(i + 1).to_set().filter(
                                |x: RegistryKeyView| table[x].dirty,
                            ));
                        }
                    }
                    graph_table_insert(&mut self.graphs, clone_key(key), graph);
                    proof {
                        assert(self.loaded() =~= table);
                    }
                },
                None => {
                    proof {
                        assert(false);
                    }
                },
            }
        }
        proof {
            assert(kv.take(keys@.len() as int) =~= kv);
            assert(job_keys(jobs@).to_set() =~= table.dom().filter(|x: RegistryKeyView| table[x].dirty));
        }
        jobs
    }
}

} // verus!