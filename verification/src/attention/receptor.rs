//! Receptors: the filters that decide which messages are delivered.

use vstd::prelude::*;

use crate::failure::{failure, failure_with, Failure};
use crate::text;

verus! {

/// Operator-facing receptor classes.
#[derive(Debug, Clone, Copy, PartialEq, Eq, Structural)]
pub enum ReceptorClass {
    Broad,
    Intersection,
    Project,
    /// Accepts every message that is not vetoed, without a comparison.
    Wildcard,
    /// A message that matches is never delivered.
    Veto,
}

impl Default for ReceptorClass {
    fn default() -> (class: Self)
        ensures
            class == ReceptorClass::Broad,
    {
        ReceptorClass::Broad
    }
}

impl ReceptorClass {
    /// The name of the class in receptor packs.
    pub open spec fn name(self) -> Seq<char> {
        match self {
            ReceptorClass::Broad => "broad"@,
            ReceptorClass::Intersection => "intersection"@,
            ReceptorClass::Project => "project"@,
            ReceptorClass::Wildcard => "wildcard"@,
            ReceptorClass::Veto => "veto"@,
        }
    }

    /// The name of the class in receptor packs.
    pub fn as_str(self) -> (name: &'static str)
        ensures
            name@ == self.name(),
    {
        match self {
            ReceptorClass::Broad => "broad",
            ReceptorClass::Intersection => "intersection",
            ReceptorClass::Project => "project",
            ReceptorClass::Wildcard => "wildcard",
            ReceptorClass::Veto => "veto",
        }
    }

    /// Neither a wildcard nor a veto: the receptor takes an interest in what resembles its query.
    pub open spec fn interest(self) -> bool {
        self != ReceptorClass::Wildcard && self != ReceptorClass::Veto
    }
}

/// A receptor as it stands in a receptor pack.
#[derive(Debug, Clone)]
pub struct ReceptorDefinition {
    pub receptor_id: String,
    pub class: ReceptorClass,
    pub query: String,
    /// The bits of a single-precision number.
    pub threshold: Option<u32>,
    pub space_id: Option<String>,
}

pub struct DefinitionView {
    pub receptor_id: Seq<char>,
    pub class: ReceptorClass,
    pub query: Seq<char>,
    pub threshold: Option<u32>,
    pub space_id: Option<Seq<char>>,
}

impl View for ReceptorDefinition {
    type V = DefinitionView;

    open spec fn view(&self) -> DefinitionView {
        DefinitionView {
            receptor_id: self.receptor_id@,
            class: self.class,
            query: self.query@,
            threshold: self.threshold,
            space_id: text::opt_text(self.space_id),
        }
    }
}

pub open spec fn definitions(list: Seq<ReceptorDefinition>) -> Seq<DefinitionView> {
    list.map_values(|d: ReceptorDefinition| d@)
}

/// A receptor pack.
#[derive(Debug, Clone)]
pub struct ReceptorPack {
    pub pack_id: String,
    pub version: String,
    pub receptors: Vec<ReceptorDefinition>,
}

/// A receptor ready for matching.
#[derive(Debug, Clone)]
pub struct ComputedReceptor {
    pub receptor_id: String,
    pub class: ReceptorClass,
    /// The bits of a single-precision number.
    pub threshold: u32,
    /// The embedding of the query, each component as the bits of a single-precision number;
    /// nothing for a wildcard.
    pub vector: Option<Vec<u32>>,
    /// The space in which the query was embedded.
    pub space_id: Option<String>,
}

pub struct ReceptorView {
    pub receptor_id: Seq<char>,
    pub class: ReceptorClass,
    pub threshold: u32,
    pub vector: Option<Seq<u32>>,
    pub space_id: Option<Seq<char>>,
}

pub open spec fn opt_vector(vector: Option<Vec<u32>>) -> Option<Seq<u32>> {
    match vector {
        Some(v) => Some(v@),
        None => None,
    }
}

impl View for ComputedReceptor {
    type V = ReceptorView;

    open spec fn view(&self) -> ReceptorView {
        ReceptorView {
            receptor_id: self.receptor_id@,
            class: self.class,
            threshold: self.threshold,
            vector: opt_vector(self.vector),
            space_id: text::opt_text(self.space_id),
        }
    }
}

pub open spec fn receptor_views(list: Seq<ComputedReceptor>) -> Seq<ReceptorView> {
    list.map_values(|r: ComputedReceptor| r@)
}

impl ComputedReceptor {
    /// Whether the receptor accepts every message that is not vetoed.
    pub fn is_wildcard(&self) -> (b: bool)
        ensures
            b == (self@.class == ReceptorClass::Wildcard),
    {
        self.class == ReceptorClass::Wildcard
    }

    /// Whether a message that the receptor matches is never delivered.
    pub fn is_veto(&self) -> (b: bool)
        ensures
            b == (self@.class == ReceptorClass::Veto),
    {
        self.class == ReceptorClass::Veto
    }
}

/// What is wrong with a receptor definition.
pub open spec fn definition_problem(d: DefinitionView) -> Option<Seq<char>> {
    if text::trimmed(d.receptor_id).len() == 0 {
        Some("receptor_id must not be empty"@)
    } else if d.class == ReceptorClass::Wildcard {
        None
    } else if text::trimmed(d.query).len() == 0 {
        Some("receptor "@ + d.receptor_id + " requires query"@)
    } else if d.threshold is None {
        Some("receptor "@ + d.receptor_id + " requires threshold"@)
    } else if d.space_id is Some && text::trimmed(d.space_id->0).len() == 0 {
        Some("receptor "@ + d.receptor_id + " has empty space_id"@)
    } else {
        None
    }
}

/// What is wrong with a checked value, seen through the view of the failure.
pub open spec fn problem(result: Result<(), Failure>) -> Option<Seq<char>> {
    match result {
        Ok(_) => None,
        Err(f) => Some(f@),
    }
}

fn receptor_failure(receptor_id: &str, complaint: &str) -> (f: Failure)
    ensures
        f@ == "receptor "@ + receptor_id@ + complaint@,
{
    let mut message = "receptor ".to_owned();
    message.append(receptor_id);
    message.append(complaint);
    Failure { message }
}

/// Checks a receptor definition: all but wildcards need a query and a threshold.
pub fn validate_receptor_definition(receptor: &ReceptorDefinition) -> (result: Result<(), Failure>)
    ensures
        problem(result) == definition_problem(receptor@),
{
    if text::trim(receptor.receptor_id.as_str()).is_empty() {
        return Err(failure("receptor_id must not be empty"));
    }
    if receptor.class == ReceptorClass::Wildcard {
        return Ok(());
    }
    if text::trim(receptor.query.as_str()).is_empty() {
        return Err(receptor_failure(receptor.receptor_id.as_str(), " requires query"));
    }
    if receptor.threshold.is_none() {
        return Err(receptor_failure(receptor.receptor_id.as_str(), " requires threshold"));
    }
    match &receptor.space_id {
        Some(space_id) => {
            if text::trim(space_id.as_str()).is_empty() {
                return Err(receptor_failure(receptor.receptor_id.as_str(), " has empty space_id"));
            }
        },
        None => {},
    }
    Ok(())
}

/// One of the first `n` definitions has the given id.
pub open spec fn id_seen(all: Seq<DefinitionView>, n: int, id: Seq<char>) -> bool {
    exists|k: int| 0 <= k < n && #[trigger] all[k].receptor_id == id
}

/// The first thing wrong with a list of definitions, from the `n`th on: an id that came before, or
/// a definition with a problem of its own.
pub open spec fn first_problem(all: Seq<DefinitionView>, n: int) -> Option<Seq<char>>
    decreases all.len() - n,
{
    if n < 0 || n >= all.len() {
        None
    } else if id_seen(all, n, all[n].receptor_id) {
        Some("duplicate receptor_id: "@ + all[n].receptor_id)
    } else if definition_problem(all[n]) is Some {
        definition_problem(all[n])
    } else {
        first_problem(all, n + 1)
    }
}

/// The receptors of all packs, in order.
pub open spec fn all_definitions(packs: Seq<ReceptorPack>) -> Seq<DefinitionView>
    decreases packs.len(),
{
    if packs.len() == 0 {
        Seq::empty()
    } else {
        all_definitions(packs.drop_last()) + definitions(packs.last().receptors@)
    }
}

fn copy_definition(d: &ReceptorDefinition) -> (copy: ReceptorDefinition)
    ensures
        copy == *d,
{
    ReceptorDefinition {
        receptor_id: d.receptor_id.clone(),
        class: d.class,
        query: d.query.clone(),
        threshold: d.threshold,
        space_id: text::copy_opt(&d.space_id),
    }
}

/// Puts the receptors of all packs into one list, and checks them: each is complete, and no id
/// stands twice.
pub fn load_receptor_packs(packs: &Vec<ReceptorPack>) -> (result: Result<
    Vec<ReceptorDefinition>,
    Failure,
>)
    ensures
        match result {
            Ok(list) => first_problem(all_definitions(packs@), 0) is None && definitions(list@)
                == all_definitions(packs@),
            Err(f) => first_problem(all_definitions(packs@), 0) == Some(f@),
        },
{
    let mut all: Vec<ReceptorDefinition> = Vec::new();
    let mut p: usize = 0;
    assert(definitions(all@) == all_definitions(packs@.take(0)));
    while p < packs.len()
        invariant
            p <= packs.len(),
            definitions(all@) == all_definitions(packs@.take(p as int)),
        decreases packs.len() - p,
    {
        let receptors = &packs[p].receptors;
        let ghost before = definitions(all@);
        let mut i: usize = 0;
        assert(definitions(receptors@).take(0) == Seq::<DefinitionView>::empty());
        while i < receptors.len()
            invariant
                i <= receptors.len(),
                definitions(all@) == before + definitions(receptors@).take(i as int),
            decreases receptors.len() - i,
        {
            let ghost prior = definitions(all@);
            all.push(copy_definition(&receptors[i]));
            assert(definitions(all@) == prior.push(receptors@[i as int]@));
            assert(definitions(receptors@).take(i + 1) == definitions(receptors@).take(
                i as int,
            ).push(receptors@[i as int]@));
            i = i + 1;
        }
        assert(definitions(receptors@).take(receptors@.len() as int) == definitions(receptors@));
        assert(packs@.take(p + 1).drop_last() == packs@.take(p as int));
        p = p + 1;
    }
    assert(packs@.take(packs@.len() as int) == packs@);
    let ghost views = definitions(all@);
    let mut n: usize = 0;
    while n < all.len()
        invariant
            n <= all.len(),
            views == definitions(all@),
            views == all_definitions(packs@),
            first_problem(views, 0) == first_problem(views, n as int),
        decreases all.len() - n,
    {
        let mut k: usize = 0;
        while k < n
            invariant
                k <= n,
                n < all.len(),
                views == definitions(all@),
                views == all_definitions(packs@),
                first_problem(views, 0) == first_problem(views, n as int),
                forall|j: int|
                    0 <= j < k ==> (#[trigger] views[j]).receptor_id != views[n as int].receptor_id,
            decreases n - k,
        {
            assert(views[k as int] == all@[k as int]@);
            assert(views[n as int] == all@[n as int]@);
            if text::same_text(all[k].receptor_id.as_str(), all[n].receptor_id.as_str()) {
                assert(views[k as int].receptor_id == views[n as int].receptor_id);
                return Err(
                    failure_with("duplicate receptor_id: ", all[n].receptor_id.as_str()),
                );
            }
            k = k + 1;
        }
        assert(!id_seen(views, n as int, views[n as int].receptor_id));
        assert(views[n as int] == all@[n as int]@);
        match validate_receptor_definition(&all[n]) {
            Ok(_) => {},
            Err(f) => return Err(f),
        }
        n = n + 1;
    }
    Ok(all)
}

/// In a list of receptors that has been accepted no id stands twice, and every definition is
/// complete.
pub proof fn law_loaded_receptors_are_valid(all: Seq<DefinitionView>)
    requires
        first_problem(all, 0) is None,
    ensures
        forall|i: int, j: int|
            0 <= i < j < all.len() ==> (#[trigger] all[i]).receptor_id != (#[trigger] all[j]).receptor_id,
        forall|i: int| 0 <= i < all.len() ==> definition_problem(#[trigger] all[i]) is None,
{
    assert forall|j: int| 0 <= j < all.len() implies definition_problem(#[trigger] all[j]) is None
        && !id_seen(all, j, all[j].receptor_id) by {
        lemma_first_problem(all, 0, j);
    }
    assert forall|i: int, j: int| 0 <= i < j < all.len() implies (#[trigger] all[i]).receptor_id
        != (#[trigger] all[j]).receptor_id by {
        assert(!id_seen(all, j, all[j].receptor_id));
    }
}

proof fn lemma_first_problem(all: Seq<DefinitionView>, n: int, j: int)
    requires
        0 <= n <= j < all.len(),
        first_problem(all, n) is None,
    ensures
        definition_problem(all[j]) is None,
        !id_seen(all, j, all[j].receptor_id),
    decreases j - n,
{
    if n < j {
        lemma_first_problem(all, n + 1, j);
    }
}

/// The number of receptors in the first `p` packs.
pub open spec fn receptors_before(packs: Seq<ReceptorPack>, p: int) -> int
    decreases p,
{
    if p <= 0 {
        0
    } else {
        receptors_before(packs, p - 1) + packs[p - 1].receptors@.len()
    }
}

proof fn lemma_receptors_before(packs: Seq<ReceptorPack>, more: Seq<ReceptorPack>, p: int)
    requires
        0 <= p <= packs.len(),
        packs.len() <= more.len(),
        forall|i: int| 0 <= i < packs.len() ==> packs[i] == #[trigger] more[i],
    ensures
        receptors_before(packs, p) == receptors_before(more, p),
    decreases p,
{
    if p > 0 {
        lemma_receptors_before(packs, more, p - 1);
        assert(packs[p - 1] == more[p - 1]);
    }
}

proof fn lemma_loaded_count(packs: Seq<ReceptorPack>)
    ensures
        all_definitions(packs).len() == receptors_before(packs, packs.len() as int),
    decreases packs.len(),
{
    if packs.len() > 0 {
        lemma_loaded_count(packs.drop_last());
        lemma_receptors_before(packs.drop_last(), packs, packs.len() - 1);
    }
}

/// Every receptor of every pack is loaded, as it is: pack after pack, and within a pack in its
/// order; and nothing else is.
pub proof fn law_every_receptor_is_loaded(packs: Seq<ReceptorPack>, p: int, i: int)
    requires
        0 <= p < packs.len(),
        0 <= i < packs[p].receptors@.len(),
    ensures
        all_definitions(packs).len() == receptors_before(packs, packs.len() as int),
        0 <= receptors_before(packs, p),
        receptors_before(packs, p) + i < all_definitions(packs).len(),
        all_definitions(packs)[receptors_before(packs, p) + i] == packs[p].receptors@[i]@,
        all_definitions(packs).contains(packs[p].receptors@[i]@),
    decreases packs.len(),
{
    let rest = packs.drop_last();
    let all = all_definitions(packs);
    lemma_loaded_count(packs);
    lemma_loaded_count(rest);
    lemma_receptors_before(rest, packs, rest.len() as int);
    if p < rest.len() {
        law_every_receptor_is_loaded(rest, p, i);
        lemma_receptors_before(rest, packs, p);
        assert(all[receptors_before(packs, p) + i] == all_definitions(rest)[receptors_before(
            rest,
            p,
        ) + i]);
    } else {
        assert(all[all_definitions(rest).len() + i] == definitions(packs.last().receptors@)[i]);
    }
    assert(all[receptors_before(packs, p) + i] == packs[p].receptors@[i]@);
}

/// What is loaded without packs is nothing.
pub proof fn law_nothing_is_loaded_from_no_packs(packs: Seq<ReceptorPack>)
    ensures
        all_definitions(packs).len() == receptors_before(packs, packs.len() as int),
        packs.len() == 0 ==> all_definitions(packs).len() == 0,
{
    lemma_loaded_count(packs);
}

/// A receptor is accepted exactly if it has a name and, unless it is a wildcard, a query, a threshold
/// and no blank space.
pub proof fn law_complete_receptor_is_accepted(d: DefinitionView)
    ensures
        definition_problem(d) is None <==> text::trimmed(d.receptor_id).len() > 0 && (d.class
            == ReceptorClass::Wildcard || (text::trimmed(d.query).len() > 0 && d.threshold is Some
            && (d.space_id matches Some(space_id) ==> text::trimmed(space_id).len() > 0))),
{
}

/// Receptors that are complete and have different names are accepted.
pub proof fn law_valid_receptors_are_accepted(all: Seq<DefinitionView>, n: int)
    requires
        0 <= n <= all.len(),
        forall|i: int, j: int|
            0 <= i < j < all.len() ==> (#[trigger] all[i]).receptor_id != (#[trigger] all[j]).receptor_id,
        forall|i: int| 0 <= i < all.len() ==> definition_problem(#[trigger] all[i]) is None,
    ensures
        first_problem(all, n) is None,
    decreases all.len() - n,
{
    if n < all.len() {
        law_valid_receptors_are_accepted(all, n + 1);
        assert(definition_problem(all[n]) is None);
    }
}

/// Every class has its own name.
pub proof fn law_classes_have_their_own_names(a: ReceptorClass, b: ReceptorClass)
    ensures
        a.name() == b.name() ==> a == b,
        ReceptorClass::Veto.name() == "veto"@,
        ReceptorClass::Wildcard.name() == "wildcard"@,
        a.interest() <==> a is Broad || a is Intersection || a is Project,
{
    reveal_strlit("broad");
    reveal_strlit("intersection");
    reveal_strlit("project");
    reveal_strlit("wildcard");
    reveal_strlit("veto");
    assert("broad"@.len() == 5);
    assert("intersection"@.len() == 12);
    assert("project"@.len() == 7);
    assert("wildcard"@.len() == 8);
    assert("veto"@.len() == 4);
}

} // verus!
