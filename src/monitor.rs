//! The state kept across polling cycles, and how one cycle's outcomes update it.

use vstd::prelude::*;
use crate::error::{error_message, MonitorError};
use crate::eta::{
    calculate_median_eta, eta_minutes, estimate_of, EtaEstimate, estimate_text, median_text,
    parse_eta_to_minutes, SAMPLING_INTERVAL_MINUTES,
};
use crate::probe::copy_text;
use crate::store::KeyedStore;
use crate::types::{InstanceInfo, InstanceResults, TimeStep};

verus! {

/// The sample `sample` of the instance `key` once it is tracked against `latest`, the
/// latest samples so far: its step delta is the increase of the step since the
/// instance's previous sample, clamped at zero, and `None` for a first observation.
pub open spec fn advanced_sample(
    latest: Map<Seq<char>, TimeStep>,
    key: Seq<char>,
    sample: TimeStep,
) -> TimeStep {
    TimeStep {
        step: sample.step,
        time: sample.time,
        total_step: sample.total_step,
        step_increase: if latest.contains_key(key) {
            Some(
                if sample.step >= latest[key].step {
                    (sample.step - latest[key].step) as u64
                } else {
                    0
                },
            )
        } else {
            None
        },
    }
}

/// The history under `key` in `h`; empty where there is none.
pub open spec fn history_in(h: Map<Seq<char>, Seq<u64>>, key: Seq<char>) -> Seq<u64> {
    if h.contains_key(key) {
        h[key]
    } else {
        Seq::empty()
    }
}

/// What one instance's task handed back: `Err` with the description of a task
/// that did not complete, else the instance's processing result.
pub type TaskOutcome = Result<Result<InstanceResults, MonitorError>, String>;

/// The minutes that a tracked sample adds to its instance's history: those its
/// estimate's text reads back as, for every estimate that is a duration (not
/// `Calculating`, `Stalled` or `Complete`).
pub open spec fn recorded_minutes(ts: TimeStep) -> Option<u64> {
    match estimate_text(estimate_of(ts, SAMPLING_INTERVAL_MINUTES)) {
        Some(t) => eta_minutes(t),
        None => None,
    }
}

/// A successful outcome carries every probe field and no error, as
/// `process_instance` builds it; a failure is complete as it is.
pub open spec fn outcome_complete(outcome: TaskOutcome) -> bool {
    match outcome {
        Ok(Ok(res)) => {
            &&& res.connection_error is None
            &&& res.timestep_result is Some
            &&& res.csv_count is Some
            &&& res.free_disk_space is Some
            &&& res.current_process is Some
        },
        _ => true,
    }
}

/// A result carries either every probe field and no error, or exactly one error
/// and no probe field.
pub open spec fn data_or_error(r: InstanceResults) -> bool {
    ||| {
        &&& r.connection_error is None
        &&& r.timestep_result is Some
        &&& r.csv_count is Some
        &&& r.free_disk_space is Some
        &&& r.current_process is Some
    }
    ||| {
        &&& r.connection_error is Some
        &&& r.timestep_result is None
        &&& r.csv_count is None
        &&& r.free_disk_space is None
        &&& r.current_process is None
        &&& r.eta is None
    }
}

/// The error shown for an outcome, where it is a failure.
pub open spec fn outcome_error(outcome: TaskOutcome) -> Option<Seq<char>> {
    match outcome {
        Err(msg) => Some("Task error: "@ + msg@),
        Ok(Err(MonitorError::NoPublicIp)) => Some("No public IP available"@),
        Ok(Err(e)) => Some("Processing error: "@ + error_message(e)),
        Ok(Ok(_)) => None,
    }
}

/// The latest samples once the outcome for instance `name` is applied.
pub open spec fn next_latest(
    latest: Map<Seq<char>, TimeStep>,
    name: Seq<char>,
    outcome: TaskOutcome,
) -> Map<Seq<char>, TimeStep> {
    match outcome {
        Ok(Ok(res)) => match res.timestep_result {
            Some(ts) => latest.insert(name, advanced_sample(latest, name, ts)),
            None => latest,
        },
        _ => latest,
    }
}

/// The histories once the outcome for instance `name` is applied.
pub open spec fn next_histories(
    latest: Map<Seq<char>, TimeStep>,
    histories: Map<Seq<char>, Seq<u64>>,
    name: Seq<char>,
    outcome: TaskOutcome,
) -> Map<Seq<char>, Seq<u64>> {
    match outcome {
        Ok(Ok(res)) => match res.timestep_result {
            Some(ts) => match recorded_minutes(advanced_sample(latest, name, ts)) {
                Some(m) => histories.insert(name, history_in(histories, name).push(m)),
                None => histories,
            },
            None => histories,
        },
        _ => histories,
    }
}

/// The latest samples and histories once the outcomes of a cycle are applied in
/// order, `outcomes[i]` being that of the instance named `names[i]`.
pub open spec fn cycle_model(
    latest: Map<Seq<char>, TimeStep>,
    histories: Map<Seq<char>, Seq<u64>>,
    names: Seq<Seq<char>>,
    outcomes: Seq<TaskOutcome>,
) -> (Map<Seq<char>, TimeStep>, Map<Seq<char>, Seq<u64>>)
    decreases names.len(),
{
    if names.len() == 0 || outcomes.len() == 0 {
        (latest, histories)
    } else {
        let prev = cycle_model(latest, histories, names.drop_last(), outcomes.drop_last());
        (
            next_latest(prev.0, names.last(), outcomes.last()),
            next_histories(prev.0, prev.1, names.last(), outcomes.last()),
        )
    }
}

/// The names of `instances`, in order.
pub open spec fn names_of(instances: Seq<InstanceInfo>) -> Seq<Seq<char>> {
    instances.map_values(|i: InstanceInfo| i.name@)
}

/// `r` names the instance `instance`.
pub open spec fn identifies(r: InstanceResults, instance: InstanceInfo) -> bool {
    &&& r.instance_id == instance.instance_id
    &&& r.public_ip == instance.public_ip
    &&& r.name == instance.name
    &&& r.instance_type == instance.instance_type
}

/// `r` is the result that `outcome` gives for `instance`, the instance's sample
/// being tracked against `latest`: its identity, and either the one error or the
/// outcome's fields with the tracked sample and its estimate's text.
pub open spec fn result_of(
    r: InstanceResults,
    instance: InstanceInfo,
    latest: Map<Seq<char>, TimeStep>,
    outcome: TaskOutcome,
) -> bool {
    &&& identifies(r, instance)
    &&& match outcome {
        Ok(Ok(res)) => {
            &&& r.csv_count == res.csv_count
            &&& r.free_disk_space == res.free_disk_space
            &&& r.current_process == res.current_process
            &&& r.connection_error == res.connection_error
            &&& match res.timestep_result {
                Some(ts) => {
                    let t = advanced_sample(latest, instance.name@, ts);
                    &&& r.timestep_result == Some(t)
                    &&& match r.eta {
                        Some(e) => estimate_text(estimate_of(t, SAMPLING_INTERVAL_MINUTES))
                            == Some(e@),
                        None => estimate_text(estimate_of(t, SAMPLING_INTERVAL_MINUTES)) is None,
                    }
                },
                None => r.timestep_result is None && r.eta == res.eta,
            }
        },
        _ => {
            &&& r.connection_error is Some
            &&& r.connection_error->0@ == outcome_error(outcome)->0
            &&& r.timestep_result is None
            &&& r.csv_count is None
            &&& r.free_disk_space is None
            &&& r.current_process is None
            &&& r.eta is None
        },
    }
}

/// The result of an instance whose processing failed with `message`.
fn failed_result(instance: &InstanceInfo, message: String) -> (r: InstanceResults)
    ensures
        identifies(r, *instance),
        r.connection_error == Some(message),
        r.timestep_result is None,
        r.csv_count is None,
        r.free_disk_space is None,
        r.current_process is None,
        r.eta is None,
{
    InstanceResults {
        instance_id: instance.instance_id.clone(),
        public_ip: copy_text(&instance.public_ip),
        name: instance.name.clone(),
        instance_type: instance.instance_type.clone(),
        timestep_result: None,
        csv_count: None,
        free_disk_space: None,
        current_process: None,
        eta: None,
        connection_error: Some(message),
    }
}

/// The state of the monitor across cycles: each instance's latest sample and its
/// history of estimates in minutes, both keyed by instance name. Nothing is ever
/// removed from it.
pub struct MonitorState {
    previous_timesteps: KeyedStore<TimeStep>,
    instance_etas: KeyedStore<Vec<u64>>,
}

impl MonitorState {
    pub closed spec fn wf(&self) -> bool {
        self.previous_timesteps.wf() && self.instance_etas.wf()
    }

    /// The latest sample of each instance seen so far.
    pub closed spec fn latest(&self) -> Map<Seq<char>, TimeStep> {
        self.previous_timesteps@
    }

    /// The estimate history of each instance that has one.
    pub closed spec fn histories(&self) -> Map<Seq<char>, Seq<u64>> {
        Map::new(
            |k: Seq<char>| self.instance_etas@.contains_key(k),
            |k: Seq<char>| self.instance_etas@[k]@,
        )
    }

    /// An empty state: no instance seen yet.
    pub fn new() -> (r: Self)
        ensures
            r.wf(),
            r.latest() == Map::<Seq<char>, TimeStep>::empty(),
            r.histories() == Map::<Seq<char>, Seq<u64>>::empty(),
    {
        let r = MonitorState {
            previous_timesteps: KeyedStore::new(),
            instance_etas: KeyedStore::new(),
        };
        assert(r.histories() =~= Map::<Seq<char>, Seq<u64>>::empty());
        r
    }

    /// The latest sample of the instance `key`, if it was seen.
    pub fn previous(&self, key: &String) -> (r: Option<&TimeStep>)
        requires
            self.wf(),
        ensures
            match r {
                Some(t) => self.latest().contains_key(key@) && *t == self.latest()[key@],
                None => !self.latest().contains_key(key@),
            },
    {
        self.previous_timesteps.get(key)
    }

    /// Tracks a new sample of the instance `key`: the sample gets its step delta
    /// against the instance's previous sample and becomes its latest one.
    pub fn advance(&mut self, key: &String, sample: TimeStep) -> (r: TimeStep)
        requires
            old(self).wf(),
        ensures
            final(self).wf(),
            r == advanced_sample(old(self).latest(), key@, sample),
            final(self).latest() == old(self).latest().insert(key@, r),
            final(self).histories() == old(self).histories(),
    {
        let step_increase = match self.previous_timesteps.get(key) {
            Some(prev) => Some(
                if sample.step >= prev.step {
                    sample.step - prev.step
                } else {
                    0
                },
            ),
            None => None,
        };
        let current = TimeStep { step_increase, ..sample };
        let r = current.duplicate();
        self.previous_timesteps.insert(key.clone(), current);
        r
    }

    /// Appends an estimate of `minutes` to the history of the instance `key`.
    pub fn record_eta(&mut self, key: &String, minutes: u64)
        requires
            old(self).wf(),
        ensures
            final(self).wf(),
            final(self).latest() == old(self).latest(),
            final(self).histories() == old(self).histories().insert(
                key@,
                old(self).history(key@).push(minutes),
            ),
    {
        let mut h = match self.instance_etas.remove(key) {
            Some(h) => h,
            None => Vec::new(),
        };
        h.push(minutes);
        self.instance_etas.insert(key.clone(), h);
        assert(self.histories() =~= old(self).histories().insert(
            key@,
            old(self).history(key@).push(minutes),
        ));
    }

    /// The estimate history of the instance `key`; empty where it has none.
    pub open spec fn history(&self, key: Seq<char>) -> Seq<u64> {
        history_in(self.histories(), key)
    }

    /// The median of the instance's estimate history as a duration text; `None`
    /// where it has none.
    pub fn median_eta(&self, key: &String) -> (r: Option<String>)
        requires
            self.wf(),
        ensures
            match r {
                Some(s) => median_text(self.history(key@)) == Some(s@),
                None => median_text(self.history(key@)) is None,
            },
    {
        match self.instance_etas.get(key) {
            Some(h) => calculate_median_eta(h.as_slice()),
            None => None,
        }
    }
}

impl MonitorState {
    /// Applies the outcome of one instance's task: a failure becomes the instance's
    /// error; a success has its sample tracked and estimated, and every estimated
    /// duration is added, in minutes, to the instance's history.
    pub fn apply_outcome(&mut self, instance: &InstanceInfo, outcome: TaskOutcome) -> (r:
        InstanceResults)
        requires
            old(self).wf(),
            outcome_complete(outcome),
        ensures
            final(self).wf(),
            result_of(r, *instance, old(self).latest(), outcome),
            data_or_error(r),
            final(self).latest() == next_latest(old(self).latest(), instance.name@, outcome),
            final(self).histories() == next_histories(
                old(self).latest(),
                old(self).histories(),
                instance.name@,
                outcome,
            ),
    {
        match outcome {
            Err(msg) => failed_result(
                instance,
                String::from_str("Task error: ").concat(msg.as_str()),
            ),
            Ok(Err(e)) => {
                let message = match e {
                    MonitorError::NoPublicIp => String::from_str("No public IP available"),
                    _ => String::from_str("Processing error: ").concat(e.message().as_str()),
                };
                failed_result(instance, message)
            },
            Ok(Ok(res)) => {
                let InstanceResults {
                    timestep_result,
                    csv_count,
                    free_disk_space,
                    current_process,
                    eta,
                    connection_error,
                    ..
                } = res;
                let (timestep_result, eta) = match timestep_result {
                    Some(ts) => {
                        let t = self.advance(&instance.name, ts);
                        let eta = t.calculate_eta();
                        if let Some(text) = &eta {
                            if let Some(minutes) = parse_eta_to_minutes(text.as_str()) {
                                self.record_eta(&instance.name, minutes);
                            }
                        }
                        (Some(t), eta)
                    },
                    None => (None, eta),
                };
                InstanceResults {
                    instance_id: instance.instance_id.clone(),
                    public_ip: copy_text(&instance.public_ip),
                    name: instance.name.clone(),
                    instance_type: instance.instance_type.clone(),
                    timestep_result,
                    csv_count,
                    free_disk_space,
                    current_process,
                    eta,
                    connection_error,
                }
            },
        }
    }
}

/// Tracking two samples of one instance in turn gives the second the increase of
/// the step as its step delta, or zero where the step went down: never a negative
/// delta, whichever way the two steps are ordered.
pub proof fn lemma_step_delta(
    latest: Map<Seq<char>, TimeStep>,
    key: Seq<char>,
    first: TimeStep,
    second: TimeStep,
)
    ensures
        ({
            let after_first = latest.insert(key, advanced_sample(latest, key, first));
            let delta = advanced_sample(after_first, key, second).step_increase;
            &&& delta is Some
            &&& delta->0 as int == if second.step >= first.step {
                second.step - first.step
            } else {
                0
            }
        }),
{
}

/// An instance with no previous sample is estimated as `Calculating`, whatever its
/// sample and whatever the sampling interval.
pub proof fn lemma_first_observation(
    latest: Map<Seq<char>, TimeStep>,
    key: Seq<char>,
    sample: TimeStep,
    interval: u64,
)
    requires
        !latest.contains_key(key),
    ensures
        estimate_of(advanced_sample(latest, key, sample), interval) == EtaEstimate::Calculating,
{
}

proof fn lemma_cycle_latest_elsewhere(
    latest: Map<Seq<char>, TimeStep>,
    histories: Map<Seq<char>, Seq<u64>>,
    names: Seq<Seq<char>>,
    outcomes: Seq<TaskOutcome>,
    key: Seq<char>,
)
    requires
        names.len() == outcomes.len(),
        forall|j: int| 0 <= j < names.len() ==> names[j] != key,
    ensures
        cycle_model(latest, histories, names, outcomes).0.contains_key(key) == latest.contains_key(
            key,
        ),
        latest.contains_key(key) ==> cycle_model(latest, histories, names, outcomes).0[key]
            == latest[key],
    decreases names.len(),
{
    if names.len() > 0 {
        lemma_cycle_latest_elsewhere(
            latest,
            histories,
            names.drop_last(),
            outcomes.drop_last(),
            key,
        );
        assert(names.last() != key);
    }
}

/// In a cycle over instances with distinct names, the result of instance `i` is
/// computed against the state from before the cycle at its own name: what the
/// instances before it yielded, failures included, does not touch it.
pub proof fn lemma_cycle_isolation(
    latest: Map<Seq<char>, TimeStep>,
    histories: Map<Seq<char>, Seq<u64>>,
    names: Seq<Seq<char>>,
    outcomes: Seq<TaskOutcome>,
    i: int,
)
    requires
        names.len() == outcomes.len(),
        0 <= i < names.len(),
        forall|a: int, b: int| 0 <= a < b < names.len() ==> names[a] != names[b],
    ensures
        ({
            let before = cycle_model(latest, histories, names.take(i), outcomes.take(i)).0;
            &&& forall|sample: TimeStep|
                #[trigger] advanced_sample(before, names[i], sample) == advanced_sample(
                    latest,
                    names[i],
                    sample,
                )
            &&& before.contains_key(names[i]) == latest.contains_key(names[i])
            &&& latest.contains_key(names[i]) ==> before[names[i]] == latest[names[i]]
        }),
{
    lemma_cycle_latest_elsewhere(latest, histories, names.take(i), outcomes.take(i), names[i]);
    let before = cycle_model(latest, histories, names.take(i), outcomes.take(i)).0;
    assert forall|sample: TimeStep|
        #[trigger] advanced_sample(before, names[i], sample) == advanced_sample(
            latest,
            names[i],
            sample,
        ) by {}
}

proof fn lemma_failure_dropped(
    latest: Map<Seq<char>, TimeStep>,
    histories: Map<Seq<char>, Seq<u64>>,
    names: Seq<Seq<char>>,
    outcomes: Seq<TaskOutcome>,
    k: int,
)
    requires
        names.len() == outcomes.len(),
        0 <= k < names.len(),
        outcome_error(outcomes[k]) is Some,
    ensures
        cycle_model(latest, histories, names, outcomes) == cycle_model(
            latest,
            histories,
            names.remove(k),
            outcomes.remove(k),
        ),
    decreases names.len(),
{
    let n = names.len() - 1;
    if k == n {
        assert(names.remove(k) =~= names.drop_last());
        assert(outcomes.remove(k) =~= outcomes.drop_last());
    } else {
        lemma_failure_dropped(latest, histories, names.drop_last(), outcomes.drop_last(), k);
        assert(names.remove(k).drop_last() =~= names.drop_last().remove(k));
        assert(outcomes.remove(k).drop_last() =~= outcomes.drop_last().remove(k));
        assert(names.remove(k).last() == names.last());
        assert(outcomes.remove(k).last() == outcomes.last());
    }
}

/// A cycle in which the task of instance `k` failed ends in the same state as the
/// same cycle without that instance, and every later instance's result is computed
/// against the same state as in that shorter cycle: the failure leaves no trace on
/// the others.
pub proof fn lemma_failure_isolated(
    latest: Map<Seq<char>, TimeStep>,
    histories: Map<Seq<char>, Seq<u64>>,
    names: Seq<Seq<char>>,
    outcomes: Seq<TaskOutcome>,
    k: int,
)
    requires
        names.len() == outcomes.len(),
        0 <= k < names.len(),
        outcome_error(outcomes[k]) is Some,
    ensures
        cycle_model(latest, histories, names, outcomes) == cycle_model(
            latest,
            histories,
            names.remove(k),
            outcomes.remove(k),
        ),
        forall|i: int|
            k < i <= names.len() ==> #[trigger] cycle_model(
                latest,
                histories,
                names.take(i),
                outcomes.take(i),
            ) == cycle_model(
                latest,
                histories,
                names.remove(k).take(i - 1),
                outcomes.remove(k).take(i - 1),
            ),
{
    lemma_failure_dropped(latest, histories, names, outcomes, k);
    assert forall|i: int| k < i <= names.len() implies #[trigger] cycle_model(
        latest,
        histories,
        names.take(i),
        outcomes.take(i),
    ) == cycle_model(
        latest,
        histories,
        names.remove(k).take(i - 1),
        outcomes.remove(k).take(i - 1),
    ) by {
        lemma_failure_dropped(latest, histories, names.take(i), outcomes.take(i), k);
        assert(names.take(i).remove(k) =~= names.remove(k).take(i - 1));
        assert(outcomes.take(i).remove(k) =~= outcomes.remove(k).take(i - 1));
    }
}

/// Merges one cycle's task outcomes, `outcomes[i]` being that of `instances[i]`,
/// into `state`, and returns one result per instance, in order. Each instance's
/// result depends on its own outcome alone: a failure of one leaves the others'
/// results as they would be without it.
pub fn monitor_cycle(
    state: &mut MonitorState,
    instances: &Vec<InstanceInfo>,
    outcomes: Vec<TaskOutcome>,
) -> (r: Vec<InstanceResults>)
    requires
        old(state).wf(),
        outcomes@.len() == instances@.len(),
        forall|i: int| 0 <= i < outcomes@.len() ==> outcome_complete(#[trigger] outcomes@[i]),
    ensures
        final(state).wf(),
        r@.len() == instances@.len(),
        forall|i: int| 0 <= i < r@.len() ==> data_or_error(#[trigger] r@[i]),
        forall|i: int|
            0 <= i < r@.len() ==> result_of(
                #[trigger] r@[i],
                instances@[i],
                cycle_model(
                    old(state).latest(),
                    old(state).histories(),
                    names_of(instances@).take(i),
                    outcomes@.take(i),
                ).0,
                outcomes@[i],
            ),
        (final(state).latest(), final(state).histories()) == cycle_model(
            old(state).latest(),
            old(state).histories(),
            names_of(instances@),
            outcomes@,
        ),
{
    let ghost latest0 = state.latest();
    let ghost hist0 = state.histories();
    let ghost all = outcomes@;
    let ghost names = names_of(instances@);
    let mut rest = outcomes;
    let mut r: Vec<InstanceResults> = Vec::new();
    let mut i: usize = 0;
    assert(all.skip(0) =~= all);
    assert(names.take(0) =~= Seq::<Seq<char>>::empty());
    assert(all.take(0) =~= Seq::<TaskOutcome>::empty());
    while i < instances.len()
        invariant
            state.wf(),
            all.len() == instances@.len(),
            names == names_of(instances@),
            i <= instances@.len(),
            rest@ == all.skip(i as int),
            r@.len() == i,
            forall|j: int| 0 <= j < all.len() ==> outcome_complete(#[trigger] all[j]),
            forall|j: int| 0 <= j < i ==> data_or_error(#[trigger] r@[j]),
            (state.latest(), state.histories()) == cycle_model(
                latest0,
                hist0,
                names.take(i as int),
                all.take(i as int),
            ),
            forall|j: int|
                0 <= j < i ==> result_of(
                    #[trigger] r@[j],
                    instances@[j],
                    cycle_model(latest0, hist0, names.take(j), all.take(j)).0,
                    all[j],
                ),
        decreases instances@.len() - i,
    {
        let outcome = rest.remove(0);
        assert(outcome == all[i as int]);
        assert(rest@ =~= all.skip(i + 1));
        let res = state.apply_outcome(&instances[i], outcome);
        r.push(res);
        proof {
            assert(names.take(i + 1).drop_last() =~= names.take(i as int));
            assert(all.take(i + 1).drop_last() =~= all.take(i as int));
            assert(names[i as int] == instances@[i as int].name@);
        }
        i = i + 1;
    }
    assert(names.take(i as int) =~= names);
    assert(all.take(i as int) =~= all);
    r
}

} // verus!
