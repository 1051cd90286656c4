//! The registry of callable graph procedures: names to procedures, with the
//! built-in `gds.` procedures registered from the start and protected from
//! removal.

use vstd::prelude::*;
use crate::error::Error;
use crate::str_map::StrMap;

verus! {

/// The prefix of the names of built-in procedures.
pub open spec fn builtin_prefix() -> Seq<char> {
    seq!['g', 'd', 's', '.']
}

/// Whether `name` names a built-in procedure: it starts with `gds.`.
pub open spec fn is_builtin_name(name: Seq<char>) -> bool {
    name.len() >= 4 && name.subrange(0, 4) == builtin_prefix()
}

/// The texts of a list of strings.
pub open spec fn string_texts(s: Seq<String>) -> Seq<Seq<char>> {
    s.map_values(|x: String| x@)
}

/// The names of the built-in graph procedures: shortest paths, centrality,
/// communities and similarity.
pub open spec fn builtin_names() -> Seq<Seq<char>> {
    seq![
        "gds.shortestPath.dijkstra"@,
        "gds.shortestPath.astar"@,
        "gds.shortestPath.bellmanFord"@,
        "gds.centrality.pagerank"@,
        "gds.centrality.betweenness"@,
        "gds.centrality.closeness"@,
        "gds.centrality.degree"@,
        "gds.community.louvain"@,
        "gds.community.labelPropagation"@,
        "gds.community.stronglyConnectedComponents"@,
        "gds.community.weaklyConnectedComponents"@,
        "gds.similarity.jaccard"@,
        "gds.similarity.cosine"@
    ]
}

/// A registered procedure: one of the engine's own, or a custom one.
#[derive(Debug)]
pub enum Procedure<P> {
    Builtin,
    Custom(P),
}

/// The procedures a new registry holds: the built-in ones.
pub open spec fn builtin_procedures<P>() -> Map<Seq<char>, Procedure<P>> {
    Map::new(|k: Seq<char>| builtin_names().contains(k), |k: Seq<char>| Procedure::Builtin)
}

/// Procedures by name, in the order of their registration.
pub struct ProcedureRegistry<P> {
    procedures: StrMap<Procedure<P>>,
}

fn builtin_procedure_names() -> (r: Vec<String>)
    ensures
        string_texts(r@) == builtin_names(),
{
    let mut r: Vec<String> = Vec::new();
    r.push(String::from_str("gds.shortestPath.dijkstra"));
    r.push(String::from_str("gds.shortestPath.astar"));
    r.push(String::from_str("gds.shortestPath.bellmanFord"));
    r.push(String::from_str("gds.centrality.pagerank"));
    r.push(String::from_str("gds.centrality.betweenness"));
    r.push(String::from_str("gds.centrality.closeness"));
    r.push(String::from_str("gds.centrality.degree"));
    r.push(String::from_str("gds.community.louvain"));
    r.push(String::from_str("gds.community.labelPropagation"));
    r.push(String::from_str("gds.community.stronglyConnectedComponents"));
    r.push(String::from_str("gds.community.weaklyConnectedComponents"));
    r.push(String::from_str("gds.similarity.jaccard"));
    r.push(String::from_str("gds.similarity.cosine"));
    proof {
        assert(string_texts(r@) =~= builtin_names());
    }
    r
}

fn starts_with_builtin_prefix(name: &str) -> (b: bool)
    ensures
        b == is_builtin_name(name@),
{
    let cs = crate::csv::chars_of(name);
    if cs.len() < 4 {
        return false;
    }
    let b = cs[0] == 'g' && cs[1] == 'd' && cs[2] == 's' && cs[3] == '.';
    proof {
        if b {
            assert(cs@.subrange(0, 4) =~= builtin_prefix());
        } else {
            assert(cs@.subrange(0, 4)[0] == cs@[0]);
            assert(cs@.subrange(0, 4)[1] == cs@[1]);
            assert(cs@.subrange(0, 4)[2] == cs@[2]);
            assert(cs@.subrange(0, 4)[3] == cs@[3]);
        }
    }
    b
}

fn quoted_message(head: &str, name: &str, tail: &str) -> (m: String)
    ensures
        m@ == head@ + name@ + tail@,
{
    String::from_str(head).concat(name).concat(tail)
}

impl<P> ProcedureRegistry<P> {
    /// The registered procedures by name.
    pub closed spec fn procedures(&self) -> Map<Seq<char>, Procedure<P>> {
        self.procedures.map()
    }

    /// The registered names, in the order of their registration.
    pub closed spec fn names(&self) -> Seq<Seq<char>> {
        self.procedures.key_seq()
    }

    /// A registry holding the built-in procedures.
    pub fn new() -> (r: Self)
        ensures
            r.procedures() == builtin_procedures::<P>(),
    {
        let mut procedures: StrMap<Procedure<P>> = StrMap::new();
        let names = builtin_procedure_names();
        let ghost all = string_texts(names@);
        assert(procedures.map() =~= Map::new(|k: Seq<char>| all.take(0).contains(k), |k: Seq<char>| Procedure::<P>::Builtin));
        for i in 0..names.len()
            invariant
                all == string_texts(names@),
                all == builtin_names(),
                procedures.map() == Map::new(|k: Seq<char>| all.take(i as int).contains(k), |k: Seq<char>| Procedure::<P>::Builtin),
        {
            let name = names[i].clone();
            let ghost nv = name@;
            procedures.insert(name, Procedure::Builtin);
            proof {
                assert(nv == all[i as int]);
                assert forall|k: Seq<char>| all.take(i + 1).contains(k) <==> (all.take(i as int).contains(k) || k == nv) by {
                    if all.take(i + 1).contains(k) {
                        let j = all.take(i + 1).index_of(k);
                        if j < i {
                            assert(all.take(i as int)[j] == k);
                        }
                    }
                    if all.take(i as int).contains(k) {
                        let j = all.take(i as int).index_of(k);
                        assert(all.take(i + 1)[j] == k);
                    }
                    if k == nv {
                        assert(all.take(i + 1)[i as int] == k);
                    }
                }
                assert(procedures.map() =~= Map::new(|k: Seq<char>| all.take(i + 1).contains(k), |k: Seq<char>| Procedure::<P>::Builtin));
            }
        }
        proof {
            assert(all.take(names.len() as int) =~= all);
            assert(procedures.map() =~= builtin_procedures::<P>());
        }
        ProcedureRegistry { procedures }
    }

    /// Register a custom procedure; a name that is already registered is
    /// refused and the registry is left as it was.
    pub fn register_custom(&mut self, name: String, procedure: P) -> (r: Result<(), Error>)
        ensures
            old(self).procedures().contains_key(name@) ==> {
                &&& final(self).procedures() == old(self).procedures()
                &&& final(self).names() == old(self).names()
                &&& r matches Err(Error::CypherSyntax(m)) && m@ == "Procedure '"@ + name@ + "' already registered"@
            },
            !old(self).procedures().contains_key(name@) ==> {
                &&& final(self).procedures() == old(self).procedures().insert(name@, Procedure::Custom(procedure))
                &&& final(self).names() == old(self).names().push(name@)
                &&& r is Ok
            },
    {
        if self.procedures.contains_key(name.as_str()) {
            return Err(Error::CypherSyntax(quoted_message("Procedure '", name.as_str(), "' already registered")));
        }
        self.procedures.insert(name, Procedure::Custom(procedure));
        Ok(())
    }

    /// Remove the custom procedure `name`: a built-in name (one starting
    /// with `gds.`) and a name that is not registered are refused.
    pub fn unregister(&mut self, name: &str) -> (r: Result<(), Error>)
        ensures
            is_builtin_name(name@) ==> {
                &&& final(self).procedures() == old(self).procedures()
                &&& r matches Err(Error::CypherSyntax(m)) && m@ == "Cannot unregister built-in procedure '"@ + name@ + "'"@
            },
            !is_builtin_name(name@) && !old(self).procedures().contains_key(name@) ==> {
                &&& final(self).procedures() == old(self).procedures()
                &&& r matches Err(Error::CypherSyntax(m)) && m@ == "Procedure '"@ + name@ + "' not found"@
            },
            !is_builtin_name(name@) && old(self).procedures().contains_key(name@) ==> {
                &&& final(self).procedures() == old(self).procedures().remove(name@)
                &&& r is Ok
            },
    {
        if starts_with_builtin_prefix(name) {
            return Err(Error::CypherSyntax(quoted_message("Cannot unregister built-in procedure '", name, "'")));
        }
        match self.procedures.remove(name) {
            Some(_) => Ok(()),
            None => Err(Error::CypherSyntax(quoted_message("Procedure '", name, "' not found"))),
        }
    }

    /// The procedure registered as `name`.
    pub fn get(&self, name: &str) -> (r: Option<&Procedure<P>>)
        ensures
            match r {
                Some(p) => self.procedures().contains_key(name@) && self.procedures()[name@] == *p,
                None => !self.procedures().contains_key(name@),
            },
    {
        self.procedures.get(name)
    }

    /// The registered names, in the order of their registration.
    pub fn list(&self) -> (r: Vec<String>)
        ensures
            string_texts(r@) == self.names(),
            self.names().to_set() == self.procedures().dom(),
            self.names().no_duplicates(),
    {
        let n = self.procedures.len();
        let mut out: Vec<String> = Vec::new();
        for i in 0..n
            invariant
                n == self.names().len(),
                string_texts(out@) == self.names().take(i as int),
        {
            let (k, _) = self.procedures.entry_at(i);
            let key = k.clone();
            assert(key@ == self.names()[i as int]);
            let ghost before = out@;
            assert(string_texts(before).len() == before.len());
            assert(before.len() == i);
            out.push(key);
            assert(out@ == before.push(key));
            assert forall|j: int| 0 <= j < i + 1 implies #[trigger] string_texts(out@)[j] == self.names().take(i + 1)[j] by {
                if j < i {
                    assert(string_texts(before)[j] == self.names().take(i as int)[j]);
                    assert(out@[j] == before[j]);
                } else {
                    assert(out@[j] == key);
                }
            }
            assert(string_texts(out@) =~= self.names().take(i + 1));
        }
        assert(self.names().take(n as int) =~= self.names());
        assert(self.names().to_set() =~= self.procedures().dom());
        out
    }

    /// Whether a procedure is registered as `name`.
    pub fn contains(&self, name: &str) -> (b: bool)
        ensures
            b == self.procedures().contains_key(name@),
    {
        self.procedures.contains_key(name)
    }
}

} // verus!
