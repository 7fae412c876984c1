//! Definitions by name.

use crate::model::ExecutionPattern;
use crate::saga;
use crate::saga::Saga;
use crate::tcc::Tcc;
use crate::text;
use crate::text_map;
use crate::text_map::TextMap;
use crate::workflow;
use crate::workflow::Workflow;
use std::sync::Arc;
use vstd::prelude::*;

verus! {

/// A definition at a glance.
#[derive(Debug)]
pub struct DefinitionInfo {
    /// The name of the definition.
    pub name: String,
    /// Which pattern it is of.
    pub pattern: ExecutionPattern,
    /// Its steps, nodes or participants, in the order in which they were
    /// declared.
    pub steps: Vec<String>,
}

/// What a definition at a glance holds, as mathematical data.
#[verifier::ext_equal]
pub struct DefinitionView {
    /// The name of the definition.
    pub name: Seq<char>,
    /// Which pattern it is of.
    pub pattern: ExecutionPattern,
    /// Its steps, nodes or participants.
    pub steps: Seq<Seq<char>>,
}

impl View for DefinitionInfo {
    type V = DefinitionView;

    open spec fn view(&self) -> DefinitionView {
        DefinitionView {
            name: self.name@,
            pattern: self.pattern,
            steps: text::texts(self.steps@),
        }
    }
}

/// Definitions of the three patterns.
#[derive(Debug)]
pub struct OrchestrationRegistry {
    /// Sagas, by name.
    pub sagas: TextMap<Arc<Saga>>,
    /// Workflows, by name.
    pub workflows: TextMap<Arc<Workflow>>,
    /// TCCs, by name.
    pub tccs: TextMap<Arc<Tcc>>,
}

/// The names of the participants of a TCC.
pub open spec fn participant_names_of(tcc: Tcc) -> Seq<Seq<char>> {
    Seq::new(tcc.participants@.len(), |i: int| tcc.participants@[i].name@)
}

/// What a listing shows of the sagas.
pub open spec fn saga_rows(entries: Seq<(String, Arc<Saga>)>) -> Seq<DefinitionView> {
    Seq::new(
        entries.len(),
        |i: int|
            DefinitionView {
                name: entries[i].0@,
                pattern: ExecutionPattern::Saga,
                steps: saga::step_names_of(entries[i].1.steps@),
            },
    )
}

/// What a listing shows of the workflows.
pub open spec fn workflow_rows(entries: Seq<(String, Arc<Workflow>)>) -> Seq<DefinitionView> {
    Seq::new(
        entries.len(),
        |i: int|
            DefinitionView {
                name: entries[i].0@,
                pattern: ExecutionPattern::Workflow,
                steps: workflow::node_names_of(entries[i].1.nodes@),
            },
    )
}

/// What a listing shows of the TCCs.
pub open spec fn tcc_rows(entries: Seq<(String, Arc<Tcc>)>) -> Seq<DefinitionView> {
    Seq::new(
        entries.len(),
        |i: int|
            DefinitionView {
                name: entries[i].0@,
                pattern: ExecutionPattern::Tcc,
                steps: participant_names_of(*entries[i].1),
            },
    )
}

/// What some definitions at a glance hold.
pub open spec fn definition_views(list: Seq<DefinitionInfo>) -> Seq<DefinitionView> {
    Seq::new(list.len(), |i: int| list[i]@)
}

impl OrchestrationRegistry {
    /// Whether the maps are in order.
    pub open spec fn well_formed(self) -> bool {
        &&& self.sagas.well_formed()
        &&& self.workflows.well_formed()
        &&& self.tccs.well_formed()
    }

    /// A registry without definitions.
    pub fn new() -> (registry: OrchestrationRegistry)
        ensures
            registry.well_formed(),
            registry.sagas@ == Map::<Seq<char>, Arc<Saga>>::empty(),
            registry.workflows@ == Map::<Seq<char>, Arc<Workflow>>::empty(),
            registry.tccs@ == Map::<Seq<char>, Arc<Tcc>>::empty(),
    {
        OrchestrationRegistry {
            sagas: TextMap::new(),
            workflows: TextMap::new(),
            tccs: TextMap::new(),
        }
    }

    /// Registers a saga under its name, in place of any of that name.
    pub fn register_saga(&mut self, saga: Saga) -> (shared: Arc<Saga>)
        requires
            old(self).well_formed(),
        ensures
            final(self).well_formed(),
            *shared == saga,
            *final(self) == (OrchestrationRegistry { sagas: final(self).sagas, ..*old(self) }),
            final(self).sagas@ == old(self).sagas@.insert(saga.name@, shared),
    {
        let name: String = saga.name.clone();
        let shared: Arc<Saga> = Arc::new(saga);
        self.sagas.insert(name, shared.clone());
        shared
    }

    /// Registers a workflow under its name, in place of any of that name.
    pub fn register_workflow(&mut self, workflow: Workflow) -> (shared: Arc<Workflow>)
        requires
            old(self).well_formed(),
        ensures
            final(self).well_formed(),
            *shared == workflow,
            *final(self) == (OrchestrationRegistry {
                workflows: final(self).workflows,
                ..*old(self)
            }),
            final(self).workflows@ == old(self).workflows@.insert(workflow.name@, shared),
    {
        let name: String = workflow.name.clone();
        let shared: Arc<Workflow> = Arc::new(workflow);
        self.workflows.insert(name, shared.clone());
        shared
    }

    /// Registers a TCC under its name, in place of any of that name.
    pub fn register_tcc(&mut self, tcc: Tcc) -> (shared: Arc<Tcc>)
        requires
            old(self).well_formed(),
        ensures
            final(self).well_formed(),
            *shared == tcc,
            *final(self) == (OrchestrationRegistry { tccs: final(self).tccs, ..*old(self) }),
            final(self).tccs@ == old(self).tccs@.insert(tcc.name@, shared),
    {
        let name: String = tcc.name.clone();
        let shared: Arc<Tcc> = Arc::new(tcc);
        self.tccs.insert(name, shared.clone());
        shared
    }

    /// The saga of a name.
    pub fn saga(&self, name: &str) -> (found: Option<Arc<Saga>>)
        ensures
            match found {
                Some(saga) => self.sagas@.contains_key(name@) && saga == self.sagas@[name@],
                None => !self.sagas@.contains_key(name@),
            },
    {
        match self.sagas.get(name) {
            Some(saga) => Some(saga.clone()),
            None => None,
        }
    }

    /// The workflow of a name.
    pub fn workflow(&self, name: &str) -> (found: Option<Arc<Workflow>>)
        ensures
            match found {
                Some(workflow) => self.workflows@.contains_key(name@) && workflow
                    == self.workflows@[name@],
                None => !self.workflows@.contains_key(name@),
            },
    {
        match self.workflows.get(name) {
            Some(workflow) => Some(workflow.clone()),
            None => None,
        }
    }

    /// The TCC of a name.
    pub fn tcc(&self, name: &str) -> (found: Option<Arc<Tcc>>)
        ensures
            match found {
                Some(tcc) => self.tccs@.contains_key(name@) && tcc == self.tccs@[name@],
                None => !self.tccs@.contains_key(name@),
            },
    {
        match self.tccs.get(name) {
            Some(tcc) => Some(tcc.clone()),
            None => None,
        }
    }

    /// The names of the sagas, in increasing order.
    pub fn saga_names(&self) -> (list: Vec<String>)
        ensures
            text::texts(list@) == text_map::keys_of(self.sagas.entries@),
    {
        self.sagas.keys()
    }

    /// The names of the workflows, in increasing order.
    pub fn workflow_names(&self) -> (list: Vec<String>)
        ensures
            text::texts(list@) == text_map::keys_of(self.workflows.entries@),
    {
        self.workflows.keys()
    }

    /// The names of the TCCs, in increasing order.
    pub fn tcc_names(&self) -> (list: Vec<String>)
        ensures
            text::texts(list@) == text_map::keys_of(self.tccs.entries@),
    {
        self.tccs.keys()
    }

    /// Every definition at a glance: sagas, then workflows, then TCCs, each in
    /// order of their names.
    pub fn definitions(&self) -> (list: Vec<DefinitionInfo>)
        ensures
            definition_views(list@) == saga_rows(self.sagas.entries@) + workflow_rows(
                self.workflows.entries@,
            ) + tcc_rows(self.tccs.entries@),
    {
        let mut out: Vec<DefinitionInfo> = Vec::new();
        let ghost sagas = saga_rows(self.sagas.entries@);
        let ghost workflows = workflow_rows(self.workflows.entries@);
        let ghost tccs = tcc_rows(self.tccs.entries@);
        assert(definition_views(out@) =~= sagas.take(0));
        let mut i: usize = 0;
        while i < self.sagas.entries.len()
            invariant
                i <= self.sagas.entries@.len(),
                sagas == saga_rows(self.sagas.entries@),
                definition_views(out@) == sagas.take(i as int),
            decreases self.sagas.entries.len() - i,
        {
            let ghost prev = definition_views(out@);
            let entry: &(String, Arc<Saga>) = &self.sagas.entries[i];
            let info: DefinitionInfo = DefinitionInfo {
                name: entry.0.clone(),
                pattern: ExecutionPattern::Saga,
                steps: entry.1.step_names(),
            };
            out.push(info);
            proof {
                assert(definition_views(out@) =~= prev.push(info@));
                assert(sagas.take(i + 1) =~= sagas.take(i as int).push(sagas[i as int]));
                assert(info@ =~= sagas[i as int]);
            }
            i += 1;
        }
        assert(sagas.take(sagas.len() as int) =~= sagas);
        assert(sagas + workflows.take(0) =~= sagas);
        let mut j: usize = 0;
        while j < self.workflows.entries.len()
            invariant
                j <= self.workflows.entries@.len(),
                workflows == workflow_rows(self.workflows.entries@),
                definition_views(out@) == sagas + workflows.take(j as int),
            decreases self.workflows.entries.len() - j,
        {
            let ghost prev = definition_views(out@);
            let entry: &(String, Arc<Workflow>) = &self.workflows.entries[j];
            let info: DefinitionInfo = DefinitionInfo {
                name: entry.0.clone(),
                pattern: ExecutionPattern::Workflow,
                steps: entry.1.node_names(),
            };
            out.push(info);
            proof {
                assert(definition_views(out@) =~= prev.push(info@));
                assert(workflows.take(j + 1) =~= workflows.take(j as int).push(
                    workflows[j as int],
                ));
                assert(info@ =~= workflows[j as int]);
                assert(definition_views(out@) =~= sagas + workflows.take(j + 1));
            }
            j += 1;
        }
        assert(workflows.take(workflows.len() as int) =~= workflows);
        assert(sagas + workflows + tccs.take(0) =~= sagas + workflows);
        let mut k: usize = 0;
        while k < self.tccs.entries.len()
            invariant
                k <= self.tccs.entries@.len(),
                tccs == tcc_rows(self.tccs.entries@),
                definition_views(out@) == sagas + workflows + tccs.take(k as int),
            decreases self.tccs.entries.len() - k,
        {
            let ghost prev = definition_views(out@);
            let entry: &(String, Arc<Tcc>) = &self.tccs.entries[k];
            let info: DefinitionInfo = DefinitionInfo {
                name: entry.0.clone(),
                pattern: ExecutionPattern::Tcc,
                steps: entry.1.participant_names(),
            };
            proof {
                assert(text::texts(info.steps@) =~= participant_names_of(*entry.1));
            }
            out.push(info);
            proof {
                assert(definition_views(out@) =~= prev.push(info@));
                assert(tccs.take(k + 1) =~= tccs.take(k as int).push(tccs[k as int]));
                assert(info@ =~= tccs[k as int]);
                assert(definition_views(out@) =~= sagas + workflows + tccs.take(k + 1));
            }
            k += 1;
        }
        assert(tccs.take(tccs.len() as int) =~= tccs);
        out
    }
}

/// A listing shows every definition under its name, with its own kind and the
/// names of its steps, nodes or participants in their order.
pub proof fn law_listings_show_each_definition(
    sagas: Seq<(String, Arc<Saga>)>,
    workflows: Seq<(String, Arc<Workflow>)>,
    tccs: Seq<(String, Arc<Tcc>)>,
    i: int,
    k: int,
)
    ensures
        0 <= i < sagas.len() ==> {
            let row = saga_rows(sagas)[i];
            &&& row.name == sagas[i].0@
            &&& row.pattern == ExecutionPattern::Saga
            &&& row.steps.len() == sagas[i].1.steps@.len()
            &&& 0 <= k < row.steps.len() ==> row.steps[k] == sagas[i].1.steps@[k].name@
        },
        0 <= i < workflows.len() ==> {
            let row = workflow_rows(workflows)[i];
            &&& row.name == workflows[i].0@
            &&& row.pattern == ExecutionPattern::Workflow
            &&& row.steps.len() == workflows[i].1.nodes@.len()
            &&& 0 <= k < row.steps.len() ==> row.steps[k] == workflows[i].1.nodes@[k].name@
        },
        0 <= i < tccs.len() ==> {
            let row = tcc_rows(tccs)[i];
            &&& row.name == tccs[i].0@
            &&& row.pattern == ExecutionPattern::Tcc
            &&& row.steps.len() == tccs[i].1.participants@.len()
            &&& 0 <= k < row.steps.len() ==> row.steps[k] == tccs[i].1.participants@[k].name@
        },
        saga_rows(sagas).len() == sagas.len(),
        workflow_rows(workflows).len() == workflows.len(),
        tcc_rows(tccs).len() == tccs.len(),
{
}

} // verus!
