use crate::text::{concat, owned};
use vstd::prelude::*;

verus! {

/// The abstract content of an entity: its name, its type and its observations.
pub struct EntityView {
    pub name: Seq<char>,
    pub entity_type: Seq<char>,
    pub observations: Seq<Seq<char>>,
}

/// The view of a list of strings: the characters of each.
pub open spec fn strings_view(v: Seq<String>) -> Seq<Seq<char>> {
    v.map_values(|s: String| s@)
}

/// Viewing a list after a push views the pushed string last.
pub proof fn lemma_strings_view_push(v: Seq<String>, s: String)
    ensures
        strings_view(v.push(s)) == strings_view(v).push(s@),
{
    assert(strings_view(v.push(s)) =~= strings_view(v).push(s@));
}

/// A node of the knowledge graph.
#[derive(Clone, Debug)]
pub struct Entity {
    pub name: String,
    pub entity_type: String,
    pub observations: Vec<String>,
}

impl View for Entity {
    type V = EntityView;

    open spec fn view(&self) -> EntityView {
        EntityView {
            name: self.name@,
            entity_type: self.entity_type@,
            observations: strings_view(self.observations@),
        }
    }
}

impl Entity {
    /// A copy of this entity.
    pub fn duplicate(&self) -> (r: Entity)
        ensures
            r@ == self@,
    {
        Entity {
            name: self.name.clone(),
            entity_type: self.entity_type.clone(),
            observations: clone_strings(&self.observations),
        }
    }
}

/// The views of a list of entities.
pub open spec fn entities_view(v: Seq<Entity>) -> Seq<EntityView> {
    v.map_values(|e: Entity| e@)
}

/// The views of a list of relations.
pub open spec fn relations_view(v: Seq<Relation>) -> Seq<RelationView> {
    v.map_values(|r: Relation| r@)
}

/// The abstract content of a relation: source, target and type.
pub type RelationView = (Seq<char>, Seq<char>, Seq<char>);

/// A directed, typed edge between two entities, named by their names.
#[derive(Clone, Debug)]
pub struct Relation {
    pub from: String,
    pub to: String,
    pub relation_type: String,
}

impl View for Relation {
    type V = RelationView;

    open spec fn view(&self) -> RelationView {
        (self.from@, self.to@, self.relation_type@)
    }
}

impl Relation {
    /// A copy of this relation.
    pub fn duplicate(&self) -> (r: Relation)
        ensures
            r@ == self@,
    {
        Relation {
            from: self.from.clone(),
            to: self.to.clone(),
            relation_type: self.relation_type.clone(),
        }
    }
}

/// Whether `s` occurs in `v`.
pub fn strings_contain(v: &Vec<String>, s: &String) -> (r: bool)
    ensures
        r == strings_view(v@).contains(s@),
{
    for i in 0..v.len()
        invariant
            forall|j: int| 0 <= j < i ==> v@[j]@ != s@,
    {
        if v[i] == *s {
            proof {
                assert(strings_view(v@)[i as int] == s@);
            }
            return true;
        }
    }
    proof {
        if strings_view(v@).contains(s@) {
            let j = choose|j: int| 0 <= j < strings_view(v@).len() && strings_view(v@)[j] == s@;
            assert(v@[j]@ == s@);
        }
    }
    false
}

/// Whether two lists of strings hold the same strings in the same order.
pub fn same_strings(a: &Vec<String>, b: &Vec<String>) -> (r: bool)
    ensures
        r == (strings_view(a@) == strings_view(b@)),
{
    if a.len() != b.len() {
        proof {
            assert(strings_view(a@).len() != strings_view(b@).len());
        }
        return false;
    }
    for i in 0..a.len()
        invariant
            a.len() == b.len(),
            forall|j: int| 0 <= j < i ==> a@[j]@ == b@[j]@,
    {
        if !(a[i] == b[i]) {
            proof {
                assert(strings_view(a@)[i as int] != strings_view(b@)[i as int]);
            }
            return false;
        }
    }
    proof {
        assert(strings_view(a@) =~= strings_view(b@));
    }
    true
}

impl Entity {
    /// Whether two entities have the same name, type and observations.
    pub fn same_as(&self, other: &Entity) -> (r: bool)
        ensures
            r == (self@ == other@),
    {
        self.name == other.name && self.entity_type == other.entity_type && same_strings(
            &self.observations,
            &other.observations,
        )
    }
}

impl Relation {
    /// Whether two relations have the same ends and type.
    pub fn same_as(&self, other: &Relation) -> (r: bool)
        ensures
            r == (self@ == other@),
    {
        self.from == other.from && self.to == other.to && self.relation_type == other.relation_type
    }
}

/// A whole graph as a plain value: the form in which it is saved and loaded.
pub struct Graph {
    pub entities: Vec<Entity>,
    pub relations: Vec<Relation>,
}

/// Which memory of a project a graph holds: the one shared by all its agents, or the
/// private one of a single agent.
#[derive(Clone, Debug)]
pub enum MemoryScope {
    Shared,
    Agent(String),
}

impl View for MemoryScope {
    /// `None` for the shared memory, the agent's id for a private one.
    type V = Option<Seq<char>>;

    open spec fn view(&self) -> Option<Seq<char>> {
        match self {
            MemoryScope::Shared => None,
            MemoryScope::Agent(id) => Some(id@),
        }
    }
}

/// The text that names a scope: `shared`, or `agent_` followed by the agent's id.
pub open spec fn scope_label(scope: Option<Seq<char>>) -> Seq<char> {
    match scope {
        None => "shared"@,
        Some(id) => "agent_"@ + id,
    }
}

impl MemoryScope {
    /// The text that names this scope (see `scope_label`).
    pub fn to_string(&self) -> (r: String)
        ensures
            r@ == scope_label(self@),
    {
        match self {
            MemoryScope::Shared => owned("shared"),
            MemoryScope::Agent(id) => concat("agent_", id.as_str()),
        }
    }

    /// A copy of this scope.
    pub fn duplicate(&self) -> (r: MemoryScope)
        ensures
            r@ == self@,
    {
        match self {
            MemoryScope::Shared => MemoryScope::Shared,
            MemoryScope::Agent(id) => MemoryScope::Agent(id.clone()),
        }
    }
}

/// Copies a list of entities.
pub fn clone_entities(v: &Vec<Entity>) -> (r: Vec<Entity>)
    ensures
        entities_view(r@) == entities_view(v@),
{
    let mut r: Vec<Entity> = Vec::new();
    for i in 0..v.len()
        invariant
            entities_view(r@) == entities_view(v@.take(i as int)),
    {
        let c = v[i].duplicate();
        proof {
            assert(v@.take(i + 1) == v@.take(i as int).push(v@[i as int]));
            assert(entities_view(v@.take(i + 1)) =~= entities_view(v@.take(i as int)).push(c@));
            assert(entities_view(r@.push(c)) =~= entities_view(r@).push(c@));
        }
        r.push(c);
    }
    proof {
        assert(v@.take(v@.len() as int) == v@);
    }
    r
}

/// Copies a list of relations.
pub fn clone_relations(v: &Vec<Relation>) -> (r: Vec<Relation>)
    ensures
        relations_view(r@) == relations_view(v@),
{
    let mut r: Vec<Relation> = Vec::new();
    for i in 0..v.len()
        invariant
            relations_view(r@) == relations_view(v@.take(i as int)),
    {
        let c = v[i].duplicate();
        proof {
            assert(v@.take(i + 1) == v@.take(i as int).push(v@[i as int]));
            assert(relations_view(v@.take(i + 1)) =~= relations_view(v@.take(i as int)).push(c@));
            assert(relations_view(r@.push(c)) =~= relations_view(r@).push(c@));
        }
        r.push(c);
    }
    proof {
        assert(v@.take(v@.len() as int) == v@);
    }
    r
}

/// Copies a list of strings.
pub fn clone_strings(v: &Vec<String>) -> (r: Vec<String>)
    ensures
        strings_view(r@) == strings_view(v@),
{
    let mut r: Vec<String> = Vec::new();
    for i in 0..v.len()
        invariant
            strings_view(r@) == strings_view(v@.take(i as int)),
    {
        proof {
            assert(v@.take(i + 1) == v@.take(i as int).push(v@[i as int]));
            lemma_strings_view_push(v@.take(i as int), v@[i as int]);
        }
        let c = v[i].clone();
        proof {
            lemma_strings_view_push(r@, c);
        }
        r.push(c);
    }
    proof {
        assert(v@.take(v@.len() as int) == v@);
    }
    r
}

} // verus!
