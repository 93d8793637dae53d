//! The configuration of the logical meter.

use chrono::TimeDelta;
use frequenz_microgrid_component_graph as gr;
use vstd::prelude::*;

use crate::client::proto::Metric as MetricPb;
use crate::component_graph::{default_config, default_settings};
use crate::metric::Metric;

verus! {

/// The configuration of the logical meter. `F` is the type of resampling
/// functions.
pub struct LogicalMeterConfig<F> {
    resampling_interval: TimeDelta,
    resampling_function: Option<F>,
    resampling_overrides: Vec<(MetricPb, F)>,
    max_age_in_intervals: u32,
    unsubscribe_after_intervals: u32,
    component_graph_config: gr::ComponentGraphConfig,
}

/// What `overrides` say of `metric`, if anything.
pub open spec fn override_of<F>(overrides: Seq<(MetricPb, F)>, metric: MetricPb) -> Option<F>
    decreases overrides.len(),
{
    if overrides.len() == 0 {
        None
    } else if overrides.last().0 == metric {
        Some(overrides.last().1)
    } else {
        override_of(overrides.drop_last(), metric)
    }
}

impl<F> LogicalMeterConfig<F> {
    /// The resampling interval.
    pub closed spec fn interval(&self) -> TimeDelta {
        self.resampling_interval
    }

    /// The resampling function of metrics that have none of their own.
    pub closed spec fn default_function(&self) -> Option<F> {
        self.resampling_function
    }

    /// The resampling function that was set for `metric`, if one was.
    pub closed spec fn function_of(&self, metric: MetricPb) -> Option<F> {
        override_of(self.resampling_overrides@, metric)
    }

    /// The maximum age of samples, in intervals.
    pub closed spec fn max_age(&self) -> u32 {
        self.max_age_in_intervals
    }

    /// How many intervals a component may go unread before its subscription is
    /// dropped.
    pub closed spec fn unread_limit(&self) -> u32 {
        self.unsubscribe_after_intervals
    }

    /// The configuration of the component graph.
    pub closed spec fn graph_config(&self) -> gr::ComponentGraphConfig {
        self.component_graph_config
    }

    /// Whether the counts of intervals are at least 1.
    pub open spec fn wf(&self) -> bool {
        self.max_age() >= 1 && self.unread_limit() >= 1
    }

    /// Creates a new configuration with the given resampling interval: no
    /// resampling functions, both counts of intervals at 3, and the graph's
    /// default configuration.
    pub fn new(resampling_interval: TimeDelta) -> (r: Self)
        ensures
            r.wf(),
            r.interval() == resampling_interval,
            r.default_function() is None,
            forall|metric: MetricPb| #[trigger] r.function_of(metric) is None,
            r.max_age() == 3,
            r.unread_limit() == 3,
            default_settings(r.graph_config()),
    {
        LogicalMeterConfig {
            resampling_interval,
            resampling_function: None,
            resampling_overrides: Vec::new(),
            max_age_in_intervals: 3,
            unsubscribe_after_intervals: 3,
            component_graph_config: default_config(),
        }
    }

    /// Sets the resampling function of all metrics that have none of their own.
    pub fn with_default_resampling_function(self, function: F) -> (r: Self)
        ensures
            r.default_function() == Some(function),
            forall|metric: MetricPb| #[trigger] r.function_of(metric) == self.function_of(metric),
            r.interval() == self.interval(),
            r.max_age() == self.max_age(),
            r.unread_limit() == self.unread_limit(),
            r.graph_config() == self.graph_config(),
            self.wf() ==> r.wf(),
    {
        let mut r = self;
        r.resampling_function = Some(function);
        r
    }

    /// Sets the resampling function of the metric `M`. If it is set more than
    /// once, the last one counts.
    pub fn override_resampling_function<M: Metric>(self, function: F) -> (r: Self)
        ensures
            r.function_of(M::METRIC) == Some(function),
            forall|metric: MetricPb|
                metric != M::METRIC ==> #[trigger] r.function_of(metric) == self.function_of(metric),
            r.default_function() == self.default_function(),
            r.interval() == self.interval(),
            r.max_age() == self.max_age(),
            r.unread_limit() == self.unread_limit(),
            r.graph_config() == self.graph_config(),
            self.wf() ==> r.wf(),
    {
        let mut r = self;
        let ghost before = r.resampling_overrides@;
        r.resampling_overrides.push((M::METRIC, function));
        assert(r.resampling_overrides@.drop_last() =~= before);
        r
    }

    /// Sets the maximum age of samples to be considered for resampling, in
    /// number of intervals: at least 1.
    pub fn with_max_age_in_intervals(self, max_age_in_intervals: u32) -> (r: Self)
        ensures
            r.max_age() == (if max_age_in_intervals < 1 {
                1
            } else {
                max_age_in_intervals
            }),
            forall|metric: MetricPb| #[trigger] r.function_of(metric) == self.function_of(metric),
            r.default_function() == self.default_function(),
            r.interval() == self.interval(),
            r.unread_limit() == self.unread_limit(),
            r.graph_config() == self.graph_config(),
            self.wf() ==> r.wf(),
    {
        let mut r = self;
        r.max_age_in_intervals = if max_age_in_intervals < 1 {
            1
        } else {
            max_age_in_intervals
        };
        r
    }

    /// Sets how many consecutive resampling intervals a component may go unread
    /// by every formula before its telemetry subscription is dropped: at least
    /// 1.
    pub fn with_unsubscribe_after_intervals(self, intervals: u32) -> (r: Self)
        ensures
            r.unread_limit() == (if intervals < 1 {
                1
            } else {
                intervals
            }),
            forall|metric: MetricPb| #[trigger] r.function_of(metric) == self.function_of(metric),
            r.default_function() == self.default_function(),
            r.interval() == self.interval(),
            r.max_age() == self.max_age(),
            r.graph_config() == self.graph_config(),
            self.wf() ==> r.wf(),
    {
        let mut r = self;
        r.unsubscribe_after_intervals = if intervals < 1 {
            1
        } else {
            intervals
        };
        r
    }

    /// Sets the configuration of the component graph.
    pub fn with_component_graph_config(self, config: gr::ComponentGraphConfig) -> (r: Self)
        ensures
            r.graph_config() == config,
            forall|metric: MetricPb| #[trigger] r.function_of(metric) == self.function_of(metric),
            r.default_function() == self.default_function(),
            r.interval() == self.interval(),
            r.max_age() == self.max_age(),
            r.unread_limit() == self.unread_limit(),
            self.wf() ==> r.wf(),
    {
        let mut r = self;
        r.component_graph_config = config;
        r
    }

    /// The resampling interval.
    pub fn resampling_interval(&self) -> (r: &TimeDelta)
        ensures
            *r == self.interval(),
    {
        &self.resampling_interval
    }

    /// The maximum age of samples, in intervals.
    pub fn max_age_in_intervals(&self) -> (r: u32)
        ensures
            r == self.max_age(),
    {
        self.max_age_in_intervals
    }

    /// How many intervals a component may go unread before its subscription is
    /// dropped.
    pub fn unsubscribe_after_intervals(&self) -> (r: u32)
        ensures
            r == self.unread_limit(),
    {
        self.unsubscribe_after_intervals
    }

    /// The configuration of the component graph.
    pub fn component_graph_config(&self) -> (r: &gr::ComponentGraphConfig)
        ensures
            *r == self.graph_config(),
    {
        &self.component_graph_config
    }

    /// The resampling function of `metric`: its own, or else the default; none
    /// where neither was set, and samples are averaged.
    pub open spec fn chosen_function(&self, metric: MetricPb) -> Option<F> {
        match self.function_of(metric) {
            Some(function) => Some(function),
            None => self.default_function(),
        }
    }

    /// The resampling function of `metric`: its own, or else the default; none
    /// where neither was set, and samples are averaged.
    pub fn resampling_function(&self, metric: MetricPb) -> (r: Option<&F>)
        ensures
            match r {
                Some(function) => self.chosen_function(metric) == Some(*function),
                None => self.chosen_function(metric) is None,
            },
    {
        let overrides = &self.resampling_overrides;
        let mut n: usize = overrides.len();
        assert(overrides@.take(overrides@.len() as int) =~= overrides@);
        while n > 0
            invariant
                n <= overrides.len(),
                overrides@ == self.resampling_overrides@,
                override_of(overrides@, metric) == override_of(overrides@.take(n as int), metric),
            decreases n,
        {
            assert(overrides@.take(n as int).drop_last() =~= overrides@.take(n - 1));
            if overrides[n - 1].0 == metric {
                return Some(&overrides[n - 1].1);
            }
            n = n - 1;
        }
        match &self.resampling_function {
            Some(function) => Some(function),
            None => None,
        }
    }
}

/// A function that was set for a metric is the one that is used for it, and the
/// default is used for all other metrics.
pub proof fn law_own_functions_come_first<F>(config: LogicalMeterConfig<F>, metric: MetricPb, own: F)
    ensures
        config.function_of(metric) == Some(own) ==> config.chosen_function(metric) == Some(own),
        config.function_of(metric) is None ==> config.chosen_function(metric)
            == config.default_function(),
{
}

/// The function that was set last for a metric is the one that counts, and what
/// was set for other metrics stays.
pub proof fn law_the_last_override_counts<F>(
    overrides: Seq<(MetricPb, F)>,
    metric: MetricPb,
    function: F,
    other: MetricPb,
)
    ensures
        override_of(overrides.push((metric, function)), metric) == Some(function),
        other != metric ==> override_of(overrides.push((metric, function)), other) == override_of(
            overrides,
            other,
        ),
        override_of(Seq::<(MetricPb, F)>::empty(), other) is None,
{
    assert(overrides.push((metric, function)).drop_last() =~= overrides);
}

}
